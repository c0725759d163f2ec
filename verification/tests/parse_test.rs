use rsap::expression::{parse, EvalOp, Expression, ParseError, Parser, Token};

/// Executes an evaluation plan in `f32`, one value per step, and hands the
/// results back as raw bit patterns — the driver side of the evaluation
/// contract.
fn run_plan(plan: &[EvalOp], x: f32) -> Vec<u32> {
    let mut vals: Vec<f32> = Vec::new();
    for op in plan {
        let v = match op {
            EvalOp::Num(s) => s.parse::<f32>().unwrap(),
            EvalOp::X => x,
            EvalOp::EConst => std::f32::consts::E,
            EvalOp::PiConst => std::f32::consts::PI,
            EvalOp::Lit(n) => *n as f32,
            EvalOp::Neg(a) => -vals[*a],
            EvalOp::Add(a, b) => vals[*a] + vals[*b],
            EvalOp::Sub(a, b) => vals[*a] - vals[*b],
            EvalOp::Mul(a, b) => vals[*a] * vals[*b],
            EvalOp::Div(a, b) => vals[*a] / vals[*b],
            EvalOp::Pow(a, b) => vals[*a].powf(vals[*b]),
            EvalOp::Sin(a) => vals[*a].sin(),
            EvalOp::Cos(a) => vals[*a].cos(),
            EvalOp::Tan(a) => vals[*a].tan(),
            EvalOp::Recip(a) => 1.0 / vals[*a],
            EvalOp::Asin(a) => vals[*a].asin(),
            EvalOp::Acos(a) => vals[*a].acos(),
            EvalOp::Atan(a) => vals[*a].atan(),
            EvalOp::Acot(a) => std::f32::consts::FRAC_PI_2 - vals[*a].atan(),
            EvalOp::Ln(a) => vals[*a].ln(),
            EvalOp::Sqrt(a) => vals[*a].sqrt(),
            EvalOp::Log(a, b) => vals[*b].log(vals[*a]),
        };
        vals.push(v);
    }
    vals.iter().map(|v| v.to_bits()).collect()
}

fn eval_f32(e: &Expression, x: f32) -> Option<f32> {
    let plan = e.eval_plan();
    let vals = run_plan(&plan, x);
    e.eval(&vals).map(f32::from_bits)
}

#[test]
fn parse_test_parse() {
    let f = parse("-x + 1 * 2").unwrap();
    assert_eq!(f.to_text(), "-x + 1 * 2");
    assert_eq!(eval_f32(&f, 0.0).unwrap(), 2.0);
    assert_eq!(eval_f32(&f, 1.0).unwrap(), 1.0);
}

#[test]
fn parse_test_parser() {
    let parser = Parser::new("-x + 1 * 2");
    assert_ne!(parser.current, Token::Eof);
}

#[test]
fn parser_test_parser() {
    let mut parser = Parser::new(" -x + 1 * 2");
    assert_eq!(parser.current, Token::Operator("-".to_string()));
    parser.get_next();
    assert_eq!(parser.current, Token::Identifier("x".to_string()));
    parser.get_next();
    assert_eq!(parser.current, Token::Operator("+".to_string()));
}

#[test]
fn parser_test_parse() {
    let f = parse("-x + 1 * 2").unwrap();
    assert_eq!(f.to_text(), "-x + 1 * 2");
    assert_eq!(eval_f32(&f, 0.0).unwrap(), 2.0);
    assert_eq!(eval_f32(&f, 1.0).unwrap(), 1.0);
}

#[test]
fn parser_test_parse_primary() {
    let f = parse("1").unwrap();
    assert_eq!(eval_f32(&f, 0.0).unwrap(), 1.0);
    assert_eq!(eval_f32(&f, 1.0).unwrap(), 1.0);

    let f = parse("x").unwrap();
    assert_eq!(eval_f32(&f, 0.0).unwrap(), 0.0);
    assert_eq!(eval_f32(&f, 1.0).unwrap(), 1.0);

    let f = parse("-x").unwrap();
    assert_eq!(eval_f32(&f, 0.0).unwrap(), 0.0);
    assert_eq!(eval_f32(&f, 1.0).unwrap(), -1.0);
}

#[test]
fn parser_test_parse_number() {
    let expr = "1";
    assert_eq!(parse(expr).unwrap().to_text(), expr);

    let expr = "1.0";
    assert_eq!(parse(expr).unwrap().to_text(), "1");

    let expr = "0.3";
    assert_eq!(parse(expr).unwrap().to_text(), expr);

    assert!(parse("1.").is_err());
}

#[test]
fn parser_test_parse_variable() {
    let expr = "x";
    assert_eq!(parse(expr).unwrap().to_text(), expr);

    assert!(parse("y").is_err());
}

#[test]
fn parser_test_parse_neg() {
    let expr = "-x";
    let f = parse(expr).unwrap();
    assert_eq!(f.to_text(), expr);
    assert_eq!(eval_f32(&f, 1.0).unwrap(), -1.0);

    let expr = "--x";
    let f = parse(expr).unwrap();
    assert_eq!(f.to_text(), expr);
    assert_eq!(eval_f32(&f, 1.0).unwrap(), 1.0);
}

#[test]
fn parser_test_parse_paren() {
    let expr = "(x + 1) * 2";
    let f = parse(expr).unwrap();
    assert_eq!(f.to_text(), expr);
    assert_eq!(eval_f32(&f, 1.0).unwrap(), 4.0);
}

#[test]
fn parse_test_parse_primary() {
    let f = parse("1").unwrap();
    assert_eq!(eval_f32(&f, 0.0).unwrap(), 1.0);
    assert_eq!(eval_f32(&f, 1.0).unwrap(), 1.0);

    let f = parse("x").unwrap();
    assert_eq!(eval_f32(&f, 0.0).unwrap(), 0.0);
    assert_eq!(eval_f32(&f, 1.0).unwrap(), 1.0);

    let f = parse("-x").unwrap();
    assert_eq!(eval_f32(&f, 0.0).unwrap(), 0.0);
    assert_eq!(eval_f32(&f, 1.0).unwrap(), -1.0);
}

#[test]
fn parse_test_parse_number() {
    let expr = "1";
    assert_eq!(parse(expr).unwrap().to_text(), expr);

    let expr = "1.0";
    assert_eq!(parse(expr).unwrap().to_text(), "1");

    let expr = "0.3";
    assert_eq!(parse(expr).unwrap().to_text(), expr);

    assert!(parse("1.").is_err());
}

#[test]
fn parse_test_parse_variable() {
    let expr = "x";
    assert_eq!(parse(expr).unwrap().to_text(), expr);

    assert!(parse("y").is_err());
}

#[test]
fn test_parse_constant() {
    let expr = "e";
    assert_eq!(parse(expr).unwrap().to_text(), expr);

    let expr = "pi";
    assert_eq!(parse(expr).unwrap().to_text(), expr);

    assert!(parse("C").is_err());
}

#[test]
fn parse_test_parse_neg() {
    let expr = "-x";
    let f = parse(expr).unwrap();
    assert_eq!(f.to_text(), expr);
    assert_eq!(eval_f32(&f, 1.0).unwrap(), -1.0);

    let expr = "--x";
    let f = parse(expr).unwrap();
    assert_eq!(f.to_text(), expr);
    assert_eq!(eval_f32(&f, 1.0).unwrap(), 1.0);
}

#[test]
fn parse_test_parse_binary() {
    let expr = "x + x";
    let f = parse(expr).unwrap();
    assert_eq!(f.to_text(), expr);
    assert_eq!(eval_f32(&f, 1.0).unwrap(), 2.0);
}

#[test]
fn parser_test_parse_binary() {
    let expr = "x + x";
    let f = parse(expr).unwrap();
    assert_eq!(f.to_text(), expr);
    assert_eq!(eval_f32(&f, 1.0).unwrap(), 2.0);

    let expr = "x - x";
    let f = parse(expr).unwrap();
    assert_eq!(f.to_text(), expr);
    assert_eq!(eval_f32(&f, 1.0).unwrap(), 0.0);

    let expr = "x * x";
    let f = parse(expr).unwrap();
    assert_eq!(f.to_text(), expr);
    assert_eq!(eval_f32(&f, 1.0).unwrap(), 1.0);

    let expr = "x / x";
    let f = parse(expr).unwrap();
    assert_eq!(f.to_text(), expr);
    assert_eq!(eval_f32(&f, 1.0).unwrap(), 1.0);

    let expr = "x ** x";
    let f = parse(expr).unwrap();
    assert_eq!(f.to_text(), expr);
    assert_eq!(eval_f32(&f, 1.0).unwrap(), 1.0);
}

#[test]
fn parse_test_parse_paren() {
    let expr = "(x + 1) * 2";
    let f = parse(expr).unwrap();
    assert_eq!(f.to_text(), expr);
    assert_eq!(eval_f32(&f, 1.0).unwrap(), 4.0);
}

#[test]
fn test_parse_func() {
    let expr = "sin(x)";
    let f = parse(expr).unwrap();
    assert_eq!(f.to_text(), expr);
    assert_eq!(eval_f32(&f, 0.0).unwrap(), 0.0);

    let expr = "cos(x)";
    let f = parse(expr).unwrap();
    assert_eq!(f.to_text(), expr);
    assert_eq!(eval_f32(&f, 0.0).unwrap(), 1.0);

    let expr = "tan(x)";
    let f = parse(expr).unwrap();
    assert_eq!(f.to_text(), expr);
    assert_eq!(eval_f32(&f, 0.0).unwrap(), 0.0);

    let expr = "cot(x)";
    let f = parse(expr).unwrap();
    assert_eq!(f.to_text(), expr);
    assert!(eval_f32(&f, 0.0).is_none());

    let expr = "sec(x)";
    let f = parse(expr).unwrap();
    assert_eq!(f.to_text(), expr);
    assert_eq!(eval_f32(&f, 0.0).unwrap(), 1.0);

    let expr = "csc(x)";
    let f = parse(expr).unwrap();
    assert_eq!(f.to_text(), expr);
    assert!(eval_f32(&f, 0.0).is_none());

    let expr = "arcsin(x)";
    let f = parse(expr).unwrap();
    assert_eq!(f.to_text(), expr);
    assert_eq!(eval_f32(&f, 0.0).unwrap(), 0.0);

    let expr = "arccos(x)";
    let f = parse(expr).unwrap();
    assert_eq!(f.to_text(), expr);
    assert_eq!(eval_f32(&f, 0.0).unwrap(), std::f32::consts::FRAC_PI_2);

    let expr = "arctan(x)";
    let f = parse(expr).unwrap();
    assert_eq!(f.to_text(), expr);
    assert_eq!(eval_f32(&f, 0.0).unwrap(), 0.0);

    let expr = "arccot(x)";
    let f = parse(expr).unwrap();
    assert_eq!(f.to_text(), expr);
    assert_eq!(eval_f32(&f, 0.0).unwrap(), std::f32::consts::FRAC_PI_2);

    let expr = "ln(x)";
    let f = parse(expr).unwrap();
    assert_eq!(f.to_text(), expr);
    assert!(eval_f32(&f, 0.0).is_none());
}

#[test]
fn parse_test_simple_expression() {
    // -x + 1 * 2
    let f = parse("-x + 1 * 2").unwrap();
    assert_eq!(eval_f32(&f, 0.0).unwrap(), 2.0);
    assert_eq!(eval_f32(&f, 1.0).unwrap(), 1.0);
}

#[test]
fn invalid_expression() {
    assert!(parse("x x").is_err());
    assert!(parse("-").is_err());
}

#[test]
fn test_precedence() {
    assert_eq!(eval_f32(&parse("x + 1 * 2").unwrap(), 1.0).unwrap(), 3.0);
    assert_eq!(eval_f32(&parse("(x + 1) * 2").unwrap(), 1.0).unwrap(), 4.0);
}

#[test]
fn test_left_associativity() {
    assert_eq!(eval_f32(&parse("x - 1 - 1").unwrap(), 5.0).unwrap(), 3.0);
    // exponentiation climbs left-associatively as well
    assert_eq!(eval_f32(&parse("2 ** 3 ** 2").unwrap(), 0.0).unwrap(), 64.0);
}

#[test]
fn test_division_domain() {
    let f = parse("1 / x").unwrap();
    assert!(eval_f32(&f, 0.0).is_none());
    assert_eq!(eval_f32(&f, 2.0).unwrap(), 0.5);
}

#[test]
fn test_power_domain() {
    assert!(eval_f32(&parse("x ** 0.5").unwrap(), -9.0).is_none());
    assert_eq!(eval_f32(&parse("x ** 2").unwrap(), -9.0).unwrap(), 81.0);
    assert!(eval_f32(&parse("x ** -2").unwrap(), 0.0).is_none());
}

#[test]
fn test_trig_domain() {
    assert!(eval_f32(&parse("cot(x)").unwrap(), 0.0).is_none());
    assert_eq!(eval_f32(&parse("sec(x)").unwrap(), 0.0).unwrap(), 1.0);
}

#[test]
fn test_inverse_trig_domain() {
    let f = parse("arcsin(x)").unwrap();
    assert!(eval_f32(&f, 2.0).is_none());
    let v = eval_f32(&f, 1.0).unwrap();
    assert!((v - std::f32::consts::FRAC_PI_2).abs() < 1e-6);
}

#[test]
fn test_log_domain() {
    assert_eq!(eval_f32(&parse("log(10, x)").unwrap(), 10.0).unwrap(), 1.0);
    let f = parse("log(1, x)").unwrap();
    assert!(eval_f32(&f, 5.0).is_none());
    assert!(eval_f32(&f, 0.5).is_none());
}

#[test]
fn test_malformed_input() {
    assert!(parse("1.").is_err());
    assert!(parse("x x").is_err());
    assert!(parse("-").is_err());
    assert!(parse("y").is_err());
}

#[test]
fn test_error_variants() {
    assert!(matches!(parse(")"), Err(ParseError::ExpectedPrimary(_))));
    assert!(matches!(parse(""), Err(ParseError::ExpectedPrimary(_))));
    assert!(matches!(parse("(x"), Err(ParseError::ExpectedClose(_))));
    assert!(matches!(parse("sin x"), Err(ParseError::ExpectedOpen(_))));
    assert!(matches!(parse("log(1 2)"), Err(ParseError::ExpectedComma(_))));
    assert!(matches!(parse("foo(x)"), Err(ParseError::UnknownName(_))));
    assert!(matches!(parse("+x"), Err(ParseError::InvalidUnary(_))));
    assert!(matches!(parse("x )"), Err(ParseError::TrailingInput(_))));
}

#[test]
fn test_round_trip() {
    for expr in [
        "-x + 1 * 2",
        "(x + 1) * 2",
        "x - 1 - 1",
        "x ** 2 ** 3",
        "log(10, x) + sin(x) * sqrt(x)",
        "1.50 + 0.3",
        "-(x + 1)",
        "csc(arccot(x / 2))",
    ] {
        let e = parse(expr).unwrap();
        let text = e.to_text();
        let e2 = parse(&text).unwrap();
        assert_eq!(e2.to_text(), text);
        for x in [-2.0f32, -0.5, 0.0, 0.5, 1.0, 2.0, 10.0] {
            let a = eval_f32(&e, x);
            let b = eval_f32(&e2, x);
            match (a, b) {
                (None, None) => {}
                (Some(u), Some(v)) => assert_eq!(u.to_bits(), v.to_bits()),
                _ => panic!("round trip changed domain at {}", x),
            }
        }
    }
}

#[test]
fn test_repeated_evaluation_is_bit_identical() {
    let f = parse("sin(x) ** 2 + log(10, x + 2)").unwrap();
    for x in [0.1f32, 1.0, 3.5] {
        let a = eval_f32(&f, x).unwrap();
        let b = eval_f32(&f, x).unwrap();
        assert_eq!(a.to_bits(), b.to_bits());
    }
}

#[test]
fn test_whitespace_is_transparent() {
    let f = parse("  x   +\t1  ").unwrap();
    assert_eq!(f.to_text(), "x + 1");
    assert_eq!(eval_f32(&f, 1.0).unwrap(), 2.0);
}
