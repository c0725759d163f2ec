use rsap::expression::{
    Binary, Constant, EvalOp, Expression, Factorial, Func, Func2, Number, Parenthesis, Unary,
    Variable,
};

/// Executes an evaluation plan in `f32`, one value per step, and hands the
/// results back as raw bit patterns — the driver side of the evaluation
/// contract.
fn run_plan(plan: &[EvalOp], x: f32) -> Vec<u32> {
    let mut vals: Vec<f32> = Vec::new();
    for op in plan {
        let v = match op {
            EvalOp::Num(s) => s.parse::<f32>().unwrap(),
            EvalOp::X => x,
            EvalOp::EConst => std::f32::consts::E,
            EvalOp::PiConst => std::f32::consts::PI,
            EvalOp::Lit(n) => *n as f32,
            EvalOp::Neg(a) => -vals[*a],
            EvalOp::Add(a, b) => vals[*a] + vals[*b],
            EvalOp::Sub(a, b) => vals[*a] - vals[*b],
            EvalOp::Mul(a, b) => vals[*a] * vals[*b],
            EvalOp::Div(a, b) => vals[*a] / vals[*b],
            EvalOp::Pow(a, b) => vals[*a].powf(vals[*b]),
            EvalOp::Sin(a) => vals[*a].sin(),
            EvalOp::Cos(a) => vals[*a].cos(),
            EvalOp::Tan(a) => vals[*a].tan(),
            EvalOp::Recip(a) => 1.0 / vals[*a],
            EvalOp::Asin(a) => vals[*a].asin(),
            EvalOp::Acos(a) => vals[*a].acos(),
            EvalOp::Atan(a) => vals[*a].atan(),
            EvalOp::Acot(a) => std::f32::consts::FRAC_PI_2 - vals[*a].atan(),
            EvalOp::Ln(a) => vals[*a].ln(),
            EvalOp::Sqrt(a) => vals[*a].sqrt(),
            EvalOp::Log(a, b) => vals[*b].log(vals[*a]),
        };
        vals.push(v);
    }
    vals.iter().map(|v| v.to_bits()).collect()
}

fn eval_f32(e: &Expression, x: f32) -> Option<f32> {
    let plan = e.eval_plan();
    let vals = run_plan(&plan, x);
    e.eval(&vals).map(f32::from_bits)
}

fn num(s: &str) -> Expression {
    Expression::Number(Number::new(s).unwrap())
}

fn var() -> Expression {
    Expression::Variable(Variable::new())
}

fn neg(e: Expression) -> Expression {
    Expression::Unary(Box::new(Unary::new("-", e).unwrap()))
}

fn paren(e: Expression) -> Expression {
    Expression::Parenthesis(Box::new(Parenthesis::new(e)))
}

fn binary(op: &str, l: Expression, r: Expression) -> Expression {
    Expression::Binary(Box::new(Binary::new(op, l, r).unwrap()))
}

fn func(name: &str, e: Expression) -> Expression {
    Expression::Func(Box::new(Func::new(name, e).unwrap()))
}

#[test]
fn binary_test_add() {
    let f = binary("+", var(), num("1.0"));
    assert_eq!(eval_f32(&f, 0.0).unwrap(), 1.0);
    assert_eq!(eval_f32(&f, 1.0).unwrap(), 2.0);
}

#[test]
fn binary_test_sub() {
    let f = binary("-", var(), num("1.0"));
    assert_eq!(eval_f32(&f, 0.0).unwrap(), -1.0);
    assert_eq!(eval_f32(&f, 1.0).unwrap(), 0.0);
}

#[test]
fn binary_test_mul() {
    let f = binary("*", var(), num("1.0"));
    assert_eq!(eval_f32(&f, 0.0).unwrap(), 0.0);
    assert_eq!(eval_f32(&f, 1.0).unwrap(), 1.0);
}

#[test]
fn binary_test_div() {
    let f = binary("/", num("1.0"), var());
    assert_eq!(eval_f32(&f, 2.0).unwrap(), 0.5);
    assert!(eval_f32(&f, 0.0).is_none());
}

#[test]
fn test_pow() {
    let f = binary("**", var(), num("2.0"));
    assert_eq!(eval_f32(&f, -9.0).unwrap(), 81.0);
    assert_eq!(eval_f32(&f, 0.0).unwrap(), 0.0);
    assert_eq!(eval_f32(&f, 9.0).unwrap(), 81.0);

    let f = binary("**", var(), num("0.0"));
    assert_eq!(eval_f32(&f, -9.0).unwrap(), 1.0);
    assert_eq!(eval_f32(&f, 0.0).unwrap(), 1.0);
    assert_eq!(eval_f32(&f, 9.0).unwrap(), 1.0);

    let f = binary("**", var(), num("0.5"));
    assert!(eval_f32(&f, -9.0).is_none());
    assert_eq!(eval_f32(&f, 0.0).unwrap(), 0.0);
    assert_eq!(eval_f32(&f, 9.0).unwrap(), 3.0);

    let f = binary("**", var(), neg(num("2.0")));
    assert_eq!(eval_f32(&f, -9.0).unwrap(), (-9.0f32).powf(-2.0));
    assert!(eval_f32(&f, 0.0).is_none());
    assert_eq!(eval_f32(&f, 09.0).unwrap(), (9.0f32).powf(-2.0));
}

#[test]
fn constant_test_constant() {
    let e = Expression::Constant(Constant::new("e").unwrap());
    assert_eq!(eval_f32(&e, 0.0).unwrap(), std::f32::consts::E);
    assert_eq!(eval_f32(&e, 1.0).unwrap(), std::f32::consts::E);

    let pi = Expression::Constant(Constant::new("pi").unwrap());
    assert_eq!(eval_f32(&pi, 0.0).unwrap(), std::f32::consts::PI);
    assert_eq!(eval_f32(&pi, 1.0).unwrap(), std::f32::consts::PI);
}

#[test]
fn test_factorial() {
    let f = Expression::Factorial(Factorial::new(5));
    assert_eq!(eval_f32(&f, 0.0).unwrap(), 120.0);
    assert_eq!(eval_f32(&f, 1.0).unwrap(), 120.0);
}

#[test]
fn test_num() {
    let f = num("5.0");
    assert_eq!(eval_f32(&f, 0.0).unwrap(), 5.0);
    assert_eq!(eval_f32(&f, 1.0).unwrap(), 5.0);
}

#[test]
fn test_paren() {
    // (1 + 2) * 3
    let f = binary("*", paren(binary("+", num("1.0"), num("2.0"))), num("3.0"));
    assert_eq!(f.to_text(), "(1 + 2) * 3");
    assert_eq!(eval_f32(&f, 0.0).unwrap(), 9.0);
    assert_eq!(eval_f32(&f, 1.0).unwrap(), 9.0);
}

#[test]
fn test_sin() {
    let f = func("sin", var());
    assert_eq!(eval_f32(&f, 0.0).unwrap(), 0.0);
    assert_eq!(eval_f32(&f, 1.0).unwrap(), 1.0f32.sin());
}

#[test]
fn test_cos() {
    let f = func("cos", var());
    assert_eq!(eval_f32(&f, 0.0).unwrap(), 1.0);
    assert_eq!(eval_f32(&f, 1.0).unwrap(), 1.0f32.cos());
}

#[test]
fn test_tan() {
    let f = func("tan", var());
    assert_eq!(eval_f32(&f, 0.0).unwrap(), 0.0);
    assert_eq!(eval_f32(&f, 1.0).unwrap(), 1.0f32.tan());
}

#[test]
fn test_cot() {
    let f = func("cot", var());
    assert!(eval_f32(&f, 0.0).is_none());
    assert_eq!(eval_f32(&f, 1.0).unwrap(), 1.0 / 1.0f32.tan());
}

#[test]
fn test_sec() {
    let f = func("sec", var());
    assert_eq!(eval_f32(&f, 0.0).unwrap(), 1.0);
    assert_eq!(eval_f32(&f, 1.0).unwrap(), 1.0 / 1.0f32.cos());
}

#[test]
fn test_csc() {
    let f = func("csc", var());
    assert!(eval_f32(&f, 0.0).is_none());
    assert_eq!(eval_f32(&f, 1.0).unwrap(), 1.0 / 1.0f32.sin());
}

#[test]
fn test_arcsin() {
    let f = func("arcsin", var());
    assert_eq!(eval_f32(&f, 0.0).unwrap(), 0.0);
    assert_eq!(eval_f32(&f, 1.0).unwrap(), 1.0f32.asin());
}

#[test]
fn test_arccos() {
    let f = func("arccos", var());
    assert_eq!(eval_f32(&f, 0.0).unwrap(), 0.0f32.acos());
    assert_eq!(eval_f32(&f, 1.0).unwrap(), 0.0);
}

#[test]
fn test_arctan() {
    let f = func("arctan", var());
    assert_eq!(eval_f32(&f, 0.0).unwrap(), 0.0);
    assert_eq!(eval_f32(&f, 1.0).unwrap(), 1.0f32.atan());
}

#[test]
fn test_arccot() {
    let f = func("arccot", var());
    assert_eq!(eval_f32(&f, 0.0).unwrap(), std::f32::consts::FRAC_PI_2);
    assert_eq!(
        eval_f32(&f, 1.0).unwrap(),
        std::f32::consts::FRAC_PI_2 - 1.0f32.atan()
    );
}

#[test]
fn test_log() {
    let f = Expression::Func2(Box::new(Func2::new("log", num("10.0"), var()).unwrap()));
    assert_eq!(eval_f32(&f, 1.0).unwrap(), 0.0);
    assert_eq!(eval_f32(&f, 10.0).unwrap(), 1.0);
}

#[test]
fn unary_test_neg() {
    let f = neg(var());
    assert_eq!(eval_f32(&f, 0.0).unwrap(), 0.0);
    assert_eq!(eval_f32(&f, 1.0).unwrap(), -1.0);
}

#[test]
fn variable_test_variable() {
    let f = var();
    assert_eq!(eval_f32(&f, 0.0).unwrap(), 0.0);
    assert_eq!(eval_f32(&f, 1.0).unwrap(), 1.0);
}

#[test]
fn expression_test_simple_expression() {
    // -x + 1 * 2
    let f = binary("+", neg(var()), binary("*", num("1.0"), num("2.0")));
    assert_eq!(eval_f32(&f, 0.0).unwrap(), 2.0);
    assert_eq!(eval_f32(&f, 1.0).unwrap(), 1.0);
}

#[test]
fn test_number_normalization() {
    assert_eq!(num("1.0").to_text(), "1");
    assert_eq!(num("0.3").to_text(), "0.3");
    assert_eq!(num("007").to_text(), "7");
    assert_eq!(num("1.50").to_text(), "1.5");
    assert_eq!(num("000.000").to_text(), "0");
    assert!(Number::new("1.").is_none());
    assert!(Number::new(".5").is_none());
    assert!(Number::new("").is_none());
    assert!(Number::new("1.2.3").is_none());
    assert!(Number::new("12a").is_none());
}

#[test]
fn test_ln_and_sqrt() {
    let f = func("ln", var());
    assert!(eval_f32(&f, 0.0).is_none());
    assert!(eval_f32(&f, -1.0).is_none());
    assert_eq!(eval_f32(&f, 1.0).unwrap(), 0.0);

    let f = func("sqrt", var());
    assert!(eval_f32(&f, -1.0).is_none());
    assert_eq!(eval_f32(&f, 9.0).unwrap(), 3.0);
    assert_eq!(eval_f32(&f, 0.0).unwrap(), 0.0);
}

#[test]
fn test_factorial_function() {
    assert_eq!(rsap::math::factorial(0), 1);
    assert_eq!(rsap::math::factorial(1), 1);
    assert_eq!(rsap::math::factorial(2), 2);
    assert_eq!(rsap::math::factorial(6), 720);
    assert_eq!(rsap::math::factorial(12), 479001600);
}

#[test]
fn test_is_x_valid_probe() {
    let f = binary("/", num("1.0"), var());
    let plan = f.eval_plan();
    assert!(f.is_x_valid(&run_plan(&plan, 2.0)));
    assert!(!f.is_x_valid(&run_plan(&plan, 0.0)));
}
