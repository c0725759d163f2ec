//! Laws of the expression pipeline, stated and proved over the
//! mathematical models that the executable functions' contracts use.

use vstd::prelude::*;

use crate::expression::eval::{op_count, spec_eval, spec_plan};
use crate::expression::lexer::{digit_run_end, is_digit_char, is_letter_char, is_operator_char,
    is_whitespace_char, lemma_digit_run_end, lemma_digit_run_end_at, lemma_letter_run_end,
    lemma_letter_run_end_at, lemma_token_at_bounds, letter_run_end, spec_token_at, spec_tokens,
    TokenV};
use crate::expression::number::{lemma_num_text_round_trip, num_node_of};
use crate::expression::parser::{nonws, norm_tok, norm_toks, spec_stream_of, tokseq};
use crate::expression::{norm_num, printable, spec_text, wf_expr, ExprV};

verus! {

/// Evaluating one tree is a pure function of the tree and the driver's
/// step values: the same tree with the same values yields the same
/// verdict, bit for bit, however often it is repeated.  (The step values
/// themselves are the driver's: the library fixes the plan, which by
/// `eval_plan`'s contract is also a pure function of the tree.)
pub proof fn lemma_eval_deterministic(e1: ExprV, e2: ExprV, vals1: Seq<u32>, vals2: Seq<u32>)
    requires
        e1 == e2,
        vals1 == vals2,
    ensures
        spec_eval(e1, vals1) == spec_eval(e2, vals2),
        spec_plan(e1, 0) == spec_plan(e2, 0),
        op_count(e1) == op_count(e2),
{
}

/// The rendering of a well-formed tree is already normalized: normalizing
/// its tokens' literals is the identity.  (So the parser's contracts,
/// which speak of normalized tokens, are exact on canonical text.)
pub proof fn lemma_tokseq_normalized(v: ExprV)
    requires
        wf_expr(v),
    ensures
        norm_toks(tokseq(v)) == tokseq(v),
    decreases v,
{
    lemma_norm_toks_elementwise(v);
    assert(norm_toks(tokseq(v)) =~= tokseq(v));
}

proof fn lemma_norm_toks_elementwise(v: ExprV)
    requires
        wf_expr(v),
    ensures
        forall|k: int| 0 <= k < tokseq(v).len() ==> norm_tok(#[trigger] tokseq(v)[k]) == tokseq(
            v,
        )[k],
    decreases v,
{
    match v {
        ExprV::Num { whole, frac } => {
            lemma_num_text_round_trip(whole, frac);
        },
        ExprV::Fact(n) => {
            let d = crate::expression::render::spec_dec_digits(n as nat);
            lemma_dec_digits_norm(n as nat);
            lemma_num_text_round_trip(d, Seq::empty());
            assert(spec_text(ExprV::Num { whole: d, frac: Seq::empty() }) == d);
            assert forall|k: int| 0 <= k < tokseq(v).len() implies norm_tok(
                #[trigger] tokseq(v)[k],
            ) == tokseq(v)[k] by {
                if k == 0 {
                    assert(tokseq(v)[0] == TokenV::Number(d));
                } else {
                    assert(tokseq(v)[1] == TokenV::Other(seq!['!']));
                }
            }
        },
        ExprV::Neg(c) => {
            lemma_norm_toks_elementwise(*c);
            lemma_split_one(seq![TokenV::Operator("-"@)], tokseq(*c));
        },
        ExprV::Paren(c) => {
            lemma_norm_toks_elementwise(*c);
            lemma_wrap(tokseq(*c), TokenV::OpenParenthesis, TokenV::CloseParenthesis);
        },
        ExprV::Add(l, r) => {
            lemma_norm_toks_elementwise(*l);
            lemma_norm_toks_elementwise(*r);
            lemma_binary_case(v, *l, *r, TokenV::Operator("+"@));
        },
        ExprV::Sub(l, r) => {
            lemma_norm_toks_elementwise(*l);
            lemma_norm_toks_elementwise(*r);
            lemma_binary_case(v, *l, *r, TokenV::Operator("-"@));
        },
        ExprV::Mul(l, r) => {
            lemma_norm_toks_elementwise(*l);
            lemma_norm_toks_elementwise(*r);
            lemma_binary_case(v, *l, *r, TokenV::Operator("*"@));
        },
        ExprV::Div(l, r) => {
            lemma_norm_toks_elementwise(*l);
            lemma_norm_toks_elementwise(*r);
            lemma_binary_case(v, *l, *r, TokenV::Operator("/"@));
        },
        ExprV::Pow(l, r) => {
            lemma_norm_toks_elementwise(*l);
            lemma_norm_toks_elementwise(*r);
            lemma_binary_case(v, *l, *r, TokenV::Operator("**"@));
        },
        ExprV::Sin(c) => {
            lemma_norm_toks_elementwise(*c);
            lemma_func_case(v, *c, "sin"@);
        },
        ExprV::Cos(c) => {
            lemma_norm_toks_elementwise(*c);
            lemma_func_case(v, *c, "cos"@);
        },
        ExprV::Tan(c) => {
            lemma_norm_toks_elementwise(*c);
            lemma_func_case(v, *c, "tan"@);
        },
        ExprV::Cot(c) => {
            lemma_norm_toks_elementwise(*c);
            lemma_func_case(v, *c, "cot"@);
        },
        ExprV::Sec(c) => {
            lemma_norm_toks_elementwise(*c);
            lemma_func_case(v, *c, "sec"@);
        },
        ExprV::Csc(c) => {
            lemma_norm_toks_elementwise(*c);
            lemma_func_case(v, *c, "csc"@);
        },
        ExprV::Arcsin(c) => {
            lemma_norm_toks_elementwise(*c);
            lemma_func_case(v, *c, "arcsin"@);
        },
        ExprV::Arccos(c) => {
            lemma_norm_toks_elementwise(*c);
            lemma_func_case(v, *c, "arccos"@);
        },
        ExprV::Arctan(c) => {
            lemma_norm_toks_elementwise(*c);
            lemma_func_case(v, *c, "arctan"@);
        },
        ExprV::Arccot(c) => {
            lemma_norm_toks_elementwise(*c);
            lemma_func_case(v, *c, "arccot"@);
        },
        ExprV::Ln(c) => {
            lemma_norm_toks_elementwise(*c);
            lemma_func_case(v, *c, "ln"@);
        },
        ExprV::Sqrt(c) => {
            lemma_norm_toks_elementwise(*c);
            lemma_func_case(v, *c, "sqrt"@);
        },
        ExprV::Log(l, r) => {
            lemma_norm_toks_elementwise(*l);
            lemma_norm_toks_elementwise(*r);
            let ts = tokseq(v);
            let pre = seq![TokenV::Identifier("log"@), TokenV::OpenParenthesis];
            let mid = seq![TokenV::Other(seq![','])];
            let post = seq![TokenV::CloseParenthesis];
            assert(ts =~= pre + tokseq(*l) + mid + tokseq(*r) + post);
            assert forall|k: int| 0 <= k < ts.len() implies norm_tok(#[trigger] ts[k]) == ts[k] by {
                if 2 <= k < 2 + tokseq(*l).len() {
                    assert(ts[k] == tokseq(*l)[k - 2]);
                } else if 3 + tokseq(*l).len() <= k < 3 + tokseq(*l).len() + tokseq(*r).len() {
                    assert(ts[k] == tokseq(*r)[k - 3 - tokseq(*l).len()]);
                }
            }
        },
        _ => {},
    }
}

/// Decimal renderings are digit strings without a leading zero.
pub proof fn lemma_dec_digits_norm(n: nat)
    ensures
        norm_num(crate::expression::render::spec_dec_digits(n), Seq::empty()),
        n >= 1 ==> crate::expression::render::spec_dec_digits(n)[0] != '0',
    decreases n,
{
    let d = crate::expression::render::spec_dec_digits(n);
    if n < 10 {
        assert(is_digit_char(crate::expression::render::digit_char(n)));
        assert(n >= 1 ==> crate::expression::render::digit_char(n) != '0');
    } else {
        lemma_dec_digits_norm(n / 10);
        let p = crate::expression::render::spec_dec_digits(n / 10);
        assert(d == p.push(crate::expression::render::digit_char(n % 10)));
        assert(is_digit_char(crate::expression::render::digit_char(n % 10)));
        assert(d[0] == p[0]);
        assert forall|k: int| 0 <= k < d.len() implies is_digit_char(d[k]) by {
            if k < p.len() {
                assert(d[k] == p[k]);
            }
        }
    }
}

proof fn lemma_split_one(pre: Seq<TokenV>, ts: Seq<TokenV>)
    requires
        forall|k: int| 0 <= k < ts.len() ==> norm_tok(#[trigger] ts[k]) == ts[k],
        forall|k: int| 0 <= k < pre.len() ==> !(#[trigger] pre[k] is Number),
    ensures
        forall|k: int|
            0 <= k < (pre + ts).len() ==> norm_tok(#[trigger] (pre + ts)[k]) == (pre + ts)[k],
{
    assert forall|k: int| 0 <= k < (pre + ts).len() implies norm_tok(#[trigger] (pre + ts)[k]) == (
    pre + ts)[k] by {
        if k < pre.len() {
            assert((pre + ts)[k] == pre[k]);
        } else {
            assert((pre + ts)[k] == ts[k - pre.len()]);
        }
    }
}

proof fn lemma_wrap(ts: Seq<TokenV>, l: TokenV, r: TokenV)
    requires
        forall|k: int| 0 <= k < ts.len() ==> norm_tok(#[trigger] ts[k]) == ts[k],
        !(l is Number),
        !(r is Number),
    ensures
        forall|k: int|
            0 <= k < (seq![l] + ts + seq![r]).len() ==> norm_tok(
                #[trigger] (seq![l] + ts + seq![r])[k],
            ) == (seq![l] + ts + seq![r])[k],
{
    let full = seq![l] + ts + seq![r];
    assert forall|k: int| 0 <= k < full.len() implies norm_tok(#[trigger] full[k]) == full[k] by {
        if k == 0 {
            assert(full[k] == l);
        } else if k < 1 + ts.len() {
            assert(full[k] == ts[k - 1]);
        } else {
            assert(full[k] == r);
        }
    }
}

proof fn lemma_binary_case(v: ExprV, l: ExprV, r: ExprV, op: TokenV)
    requires
        forall|k: int| 0 <= k < tokseq(l).len() ==> norm_tok(#[trigger] tokseq(l)[k]) == tokseq(
            l,
        )[k],
        forall|k: int| 0 <= k < tokseq(r).len() ==> norm_tok(#[trigger] tokseq(r)[k]) == tokseq(
            r,
        )[k],
        tokseq(v) == tokseq(l) + seq![op] + tokseq(r),
        !(op is Number),
    ensures
        forall|k: int| 0 <= k < tokseq(v).len() ==> norm_tok(#[trigger] tokseq(v)[k]) == tokseq(
            v,
        )[k],
{
    let ts = tokseq(v);
    assert forall|k: int| 0 <= k < ts.len() implies norm_tok(#[trigger] ts[k]) == ts[k] by {
        if k < tokseq(l).len() {
            assert(ts[k] == tokseq(l)[k]);
        } else if k == tokseq(l).len() {
            assert(ts[k] == op);
        } else {
            assert(ts[k] == tokseq(r)[k - tokseq(l).len() - 1]);
        }
    }
}

proof fn lemma_func_case(v: ExprV, c: ExprV, name: Seq<char>)
    requires
        forall|k: int| 0 <= k < tokseq(c).len() ==> norm_tok(#[trigger] tokseq(c)[k]) == tokseq(
            c,
        )[k],
        tokseq(v) == seq![TokenV::Identifier(name), TokenV::OpenParenthesis] + tokseq(c) + seq![
            TokenV::CloseParenthesis,
        ],
    ensures
        forall|k: int| 0 <= k < tokseq(v).len() ==> norm_tok(#[trigger] tokseq(v)[k]) == tokseq(
            v,
        )[k],
{
    let ts = tokseq(v);
    assert forall|k: int| 0 <= k < ts.len() implies norm_tok(#[trigger] ts[k]) == ts[k] by {
        if k >= 2 && k < 2 + tokseq(c).len() {
            assert(ts[k] == tokseq(c)[k - 2]);
        }
    }
}


// ---------------------------------------------------------------------------
// Tokenizing concatenated texts.
// ---------------------------------------------------------------------------
proof fn lemma_digit_run_shift(s1: Seq<char>, s2: Seq<char>, i: int)
    requires
        0 <= i <= s2.len(),
    ensures
        digit_run_end(s1 + s2, s1.len() + i) == s1.len() + digit_run_end(s2, i),
    decreases s2.len() - i,
{
    if i < s2.len() && is_digit_char(s2[i]) {
        lemma_digit_run_shift(s1, s2, i + 1);
    }
}

proof fn lemma_letter_run_shift(s1: Seq<char>, s2: Seq<char>, i: int)
    requires
        0 <= i <= s2.len(),
    ensures
        letter_run_end(s1 + s2, s1.len() + i) == s1.len() + letter_run_end(s2, i),
    decreases s2.len() - i,
{
    if i < s2.len() && is_letter_char(s2[i]) {
        lemma_letter_run_shift(s1, s2, i + 1);
    }
}

proof fn lemma_token_at_shift(s1: Seq<char>, s2: Seq<char>, i: int)
    requires
        0 <= i < s2.len(),
    ensures
        spec_token_at(s1 + s2, s1.len() + i).0 == spec_token_at(s2, i).0,
        spec_token_at(s1 + s2, s1.len() + i).1 == s1.len() + spec_token_at(s2, i).1,
{
    let s = s1 + s2;
    let n1 = s1.len() as int;
    lemma_digit_run_shift(s1, s2, i + 1);
    lemma_letter_run_shift(s1, s2, i + 1);
    lemma_digit_run_end(s2, i + 1);
    lemma_letter_run_end(s2, i + 1);
    if is_digit_char(s2[i]) {
        let j = digit_run_end(s2, i + 1);
        if j < s2.len() && s2[j] == '.' {
            if j + 1 < s2.len() && is_digit_char(s2[j + 1]) {
                lemma_digit_run_shift(s1, s2, j + 1);
                lemma_digit_run_end(s2, j + 1);
                let k = digit_run_end(s2, j + 1);
                assert(s.subrange(n1 + i, n1 + k) =~= s2.subrange(i, k));
            } else {
                assert(s.subrange(n1 + i, n1 + j + 1) =~= s2.subrange(i, j + 1));
            }
        } else {
            assert(s.subrange(n1 + i, n1 + j) =~= s2.subrange(i, j));
        }
    } else if is_letter_char(s2[i]) {
        let j = letter_run_end(s2, i + 1);
        assert(s.subrange(n1 + i, n1 + j) =~= s2.subrange(i, j));
    } else {
        assert(s.subrange(n1 + i, n1 + i + 1) =~= s2.subrange(i, i + 1));
    }
}

proof fn lemma_tokens_shift(s1: Seq<char>, s2: Seq<char>, i: int)
    requires
        0 <= i <= s2.len(),
    ensures
        spec_tokens(s1 + s2, s1.len() + i) == spec_tokens(s2, i),
    decreases s2.len() - i,
{
    if i < s2.len() {
        lemma_token_at_bounds(s2, i);
        lemma_token_at_shift(s1, s2, i);
        lemma_tokens_shift(s1, s2, spec_token_at(s2, i).1);
        assert(spec_tokens(s1 + s2, s1.len() + i) =~= spec_tokens(s2, i));
    } else {
        assert(spec_tokens(s1 + s2, s1.len() + i) =~= spec_tokens(s2, i));
    }
}

/// Whether a token ending exactly at a text boundary could absorb the
/// first character after the boundary.
pub open spec fn joins(a: char, b: char) -> bool {
    ||| (is_digit_char(a) && (is_digit_char(b) || b == '.'))
    ||| (a == '.' && is_digit_char(b))
    ||| (is_letter_char(a) && is_letter_char(b))
    ||| (a == '*' && b == '*')
}

/// Tokenizing a concatenation splits at the boundary, provided the last
/// character before it cannot join with the first one after it.
proof fn lemma_tokens_append_at(s1: Seq<char>, s2: Seq<char>, i: int)
    requires
        0 <= i <= s1.len(),
        s1.len() == 0 || s2.len() == 0 || !joins(s1[s1.len() - 1], s2[0]),
    ensures
        spec_tokens(s1 + s2, i) == spec_tokens(s1, i) + spec_tokens(s2, 0),
    decreases s1.len() - i,
{
    let s = s1 + s2;
    let n1 = s1.len() as int;
    if i == n1 {
        lemma_tokens_shift(s1, s2, 0);
        assert(spec_tokens(s1, i) =~= Seq::<TokenV>::empty());
        assert(spec_tokens(s, i) =~= spec_tokens(s1, i) + spec_tokens(s2, 0));
    } else {
        lemma_digit_run_end(s1, i + 1);
        lemma_letter_run_end(s1, i + 1);
        // the token starting at i is the same in s1 and in s1 + s2
        if is_whitespace_char(s1[i]) {
        } else if is_digit_char(s1[i]) {
            let j = digit_run_end(s1, i + 1);
            lemma_digit_run_end_at(s, i + 1, j);
            if j < n1 && s1[j] == '.' {
                if j + 1 < n1 && is_digit_char(s1[j + 1]) {
                    lemma_digit_run_end(s1, j + 1);
                    let k = digit_run_end(s1, j + 1);
                    lemma_digit_run_end_at(s, j + 1, k);
                    assert(s.subrange(i, k) =~= s1.subrange(i, k));
                } else {
                    // dangling dot: the next character (inside s1 or just
                    // across the boundary) is not a digit
                    assert(j + 1 < s.len() ==> !is_digit_char(s[j + 1]));
                    assert(s.subrange(i, j + 1) =~= s1.subrange(i, j + 1));
                }
            } else if j == n1 {
                // digit run touches the boundary; s2 starts with neither a
                // digit nor a dot
                assert(s1[n1 - 1] == s[j - 1]);
                assert(j < s.len() ==> s[j] == s2[0]);
                assert(s.subrange(i, j) =~= s1.subrange(i, j));
            } else {
                assert(s.subrange(i, j) =~= s1.subrange(i, j));
            }
        } else if is_letter_char(s1[i]) {
            let j = letter_run_end(s1, i + 1);
            lemma_letter_run_end_at(s, i + 1, j);
            assert(s.subrange(i, j) =~= s1.subrange(i, j));
        } else if s1[i] == '*' {
            if i + 1 < n1 {
                assert(s[i + 1] == s1[i + 1]);
            } else if s2.len() > 0 {
                assert(s[i + 1] == s2[0]);
                assert(s2[0] != '*');
            }
            assert(s.subrange(i, i + 1) =~= s1.subrange(i, i + 1));
            if i + 2 <= n1 {
                assert(s.subrange(i, i + 2) =~= s1.subrange(i, i + 2));
            }
        } else {
            assert(s.subrange(i, i + 1) =~= s1.subrange(i, i + 1));
        }
        lemma_token_at_bounds(s1, i);
        let next = spec_token_at(s1, i).1;
        assert(spec_token_at(s, i).0 == spec_token_at(s1, i).0);
        assert(spec_token_at(s, i).1 == next);
        lemma_tokens_append_at(s1, s2, next);
        assert(spec_tokens(s, i) =~= spec_tokens(s1, i) + spec_tokens(s2, 0));
    }
}

proof fn lemma_tokens_append(s1: Seq<char>, s2: Seq<char>)
    requires
        s1.len() == 0 || s2.len() == 0 || !joins(s1[s1.len() - 1], s2[0]),
    ensures
        spec_tokens(s1 + s2, 0) == spec_tokens(s1, 0) + spec_tokens(s2, 0),
{
    lemma_tokens_append_at(s1, s2, 0);
}

proof fn lemma_nonws_append(a: Seq<TokenV>, b: Seq<TokenV>)
    ensures
        nonws(a + b) == nonws(a) + nonws(b),
    decreases a.len(),
{
    if a.len() == 0 {
        assert(a + b =~= b);
        assert(nonws(a + b) =~= nonws(a) + nonws(b));
    } else {
        assert((a + b).drop_first() =~= a.drop_first() + b);
        lemma_nonws_append(a.drop_first(), b);
        assert(nonws(a + b) =~= nonws(a) + nonws(b));
    }
}


// ---------------------------------------------------------------------------
// Tokenizing the individual text pieces the printer emits.
// ---------------------------------------------------------------------------
/// A normalized decimal literal scans as one number token.
proof fn lemma_tokens_num(whole: Seq<char>, frac: Seq<char>)
    requires
        norm_num(whole, frac),
    ensures
        spec_tokens(spec_text((ExprV::Num { whole, frac })), 0) == seq![
            TokenV::Number(spec_text((ExprV::Num { whole, frac }))),
        ],
{
    let t = spec_text(ExprV::Num { whole, frac });
    assert(is_digit_char(t[0]));
    assert(!is_whitespace_char(t[0]));
    if frac.len() == 0 {
        assert(t == whole);
        lemma_digit_run_end_at(t, 1, t.len() as int);
        assert(t.subrange(0, t.len() as int) =~= t);
        assert(spec_tokens(t, t.len() as int) =~= Seq::<TokenV>::empty());
        assert(spec_tokens(t, 0) =~= seq![TokenV::Number(t)]);
    } else {
        assert(t == whole + seq!['.'] + frac);
        let d = whole.len() as int;
        assert forall|k: int| 1 <= k < d implies is_digit_char(t[k]) by {
            assert(t[k] == whole[k]);
        }
        assert(t[d] == '.');
        assert(!is_digit_char('.'));
        lemma_digit_run_end_at(t, 1, d);
        assert forall|k: int| d + 1 <= k < t.len() implies is_digit_char(t[k]) by {
            assert(t[k] == frac[k - d - 1]);
        }
        lemma_digit_run_end_at(t, d + 1, t.len() as int);
        assert(t.subrange(0, t.len() as int) =~= t);
        assert(spec_tokens(t, t.len() as int) =~= Seq::<TokenV>::empty());
        assert(spec_tokens(t, 0) =~= seq![TokenV::Number(t)]);
    }
}

/// A pure letter run scans as one identifier token.
proof fn lemma_tokens_name(name: Seq<char>)
    requires
        name.len() >= 1,
        forall|k: int| 0 <= k < name.len() ==> is_letter_char(name[k]),
    ensures
        spec_tokens(name, 0) == seq![TokenV::Identifier(name)],
{
    assert(is_letter_char(name[0]));
    assert(!is_whitespace_char(name[0]));
    assert(!is_digit_char(name[0]));
    lemma_letter_run_end_at(name, 1, name.len() as int);
    assert(name.subrange(0, name.len() as int) =~= name);
    assert(spec_tokens(name, name.len() as int) =~= Seq::<TokenV>::empty());
    assert(spec_tokens(name, 0) =~= seq![TokenV::Identifier(name)]);
}

/// A function-name head, `name` directly followed by `(`, scans as the
/// identifier and the opening parenthesis.
proof fn lemma_tokens_name_open(name: Seq<char>)
    requires
        name.len() >= 1,
        forall|k: int| 0 <= k < name.len() ==> is_letter_char(name[k]),
    ensures
        spec_tokens(name + seq!['('], 0) == seq![
            TokenV::Identifier(name),
            TokenV::OpenParenthesis,
        ],
{
    lemma_tokens_name(name);
    lemma_tokens_single('(', TokenV::OpenParenthesis);
    assert(!joins(name[name.len() - 1], '('));
    lemma_tokens_append(name, seq!['(']);
    assert(spec_tokens(name + seq!['('], 0) =~= seq![
        TokenV::Identifier(name),
        TokenV::OpenParenthesis,
    ]);
}

/// What a single character scans as.
proof fn lemma_tokens_single(c: char, t: TokenV)
    requires
        ({
            ||| (is_whitespace_char(c) && t == TokenV::WhiteSpace(c))
            ||| (is_operator_char(c) && t == TokenV::Operator(seq![c]))
            ||| (c == '(' && t == TokenV::OpenParenthesis)
            ||| (c == ')' && t == TokenV::CloseParenthesis)
            ||| (c == ',' && t == TokenV::Other(seq![c]))
        }),
    ensures
        spec_tokens(seq![c], 0) == seq![t],
{
    let s = seq![c];
    assert(s[0] == c);
    if is_operator_char(c) {
        assert(spec_token_at(s, 0).0 == TokenV::Operator(seq![c]));
    }
    assert(spec_tokens(s, 1) =~= Seq::<TokenV>::empty());
    assert(spec_tokens(s, 0) =~= seq![t]);
}

/// A spaced single-character operator, e.g. `" + "`, scans as whitespace,
/// the operator, whitespace.
proof fn lemma_tokens_mid(c: char)
    requires
        is_operator_char(c),
    ensures
        spec_tokens(seq![' ', c, ' '], 0) == seq![
            TokenV::WhiteSpace(' '),
            TokenV::Operator(seq![c]),
            TokenV::WhiteSpace(' '),
        ],
{
    let m = seq![' ', c, ' '];
    assert(is_whitespace_char(m[0]));
    assert(!is_whitespace_char(m[1]));
    assert(spec_token_at(m, 1).0 == TokenV::Operator(seq![c]));
    assert(spec_token_at(m, 1).1 == 2);
    assert(is_whitespace_char(m[2]));
    assert(spec_tokens(m, 3) =~= Seq::<TokenV>::empty());
    assert(spec_tokens(m, 2) =~= seq![TokenV::WhiteSpace(' ')]);
    assert(spec_tokens(m, 1) =~= seq![TokenV::Operator(seq![c]), TokenV::WhiteSpace(' ')]);
    assert(spec_tokens(m, 0) =~= seq![
        TokenV::WhiteSpace(' '),
        TokenV::Operator(seq![c]),
        TokenV::WhiteSpace(' '),
    ]);
}

/// The spaced power operator `" ** "` scans as whitespace, `**`, whitespace.
proof fn lemma_tokens_mid_pow()
    ensures
        spec_tokens(seq![' ', '*', '*', ' '], 0) == seq![
            TokenV::WhiteSpace(' '),
            TokenV::Operator(seq!['*', '*']),
            TokenV::WhiteSpace(' '),
        ],
{
    let m = seq![' ', '*', '*', ' '];
    assert(is_whitespace_char(m[0]));
    assert(m[1] == '*' && m[2] == '*');
    assert(!is_whitespace_char('*') && !is_digit_char('*') && !is_letter_char('*'));
    assert(spec_token_at(m, 1).0 == TokenV::Operator(seq!['*', '*']));
    assert(spec_token_at(m, 1).1 == 3);
    assert(is_whitespace_char(m[3]));
    assert(spec_tokens(m, 4) =~= Seq::<TokenV>::empty());
    assert(spec_tokens(m, 3) =~= seq![TokenV::WhiteSpace(' ')]);
    assert(spec_tokens(m, 1) =~= seq![
        TokenV::Operator(seq!['*', '*']),
        TokenV::WhiteSpace(' '),
    ]);
    assert(spec_tokens(m, 0) =~= seq![
        TokenV::WhiteSpace(' '),
        TokenV::Operator(seq!['*', '*']),
        TokenV::WhiteSpace(' '),
    ]);
}

/// The argument separator `", "` scans as the comma and whitespace.
proof fn lemma_tokens_mid_comma()
    ensures
        spec_tokens(seq![',', ' '], 0) == seq![
            TokenV::Other(seq![',']),
            TokenV::WhiteSpace(' '),
        ],
{
    let m = seq![',', ' '];
    assert(!is_whitespace_char(m[0]) && !is_digit_char(m[0]) && !is_letter_char(m[0])
        && !is_operator_char(m[0]));
    assert(m.subrange(0, 1) =~= seq![',']);
    assert(is_whitespace_char(m[1]));
    assert(spec_tokens(m, 2) =~= Seq::<TokenV>::empty());
    assert(spec_tokens(m, 1) =~= seq![TokenV::WhiteSpace(' ')]);
    assert(spec_tokens(m, 0) =~= seq![TokenV::Other(seq![',']), TokenV::WhiteSpace(' ')]);
}



/// `nonws` is the identity on sequences without whitespace tokens.
proof fn lemma_nonws_id(ts: Seq<TokenV>)
    requires
        forall|k: int| 0 <= k < ts.len() ==> !(#[trigger] ts[k] is WhiteSpace),
    ensures
        nonws(ts) == ts,
    decreases ts.len(),
{
    if ts.len() > 0 {
        assert(!(ts[0] is WhiteSpace));
        assert forall|k: int| 0 <= k < ts.drop_first().len() implies !(
        #[trigger] ts.drop_first()[k] is WhiteSpace) by {
            assert(ts.drop_first()[k] == ts[k + 1]);
        }
        lemma_nonws_id(ts.drop_first());
        assert(nonws(ts) =~= ts);
    }
}

/// `nonws` of a lone whitespace token is empty.
proof fn lemma_nonws_ws(c: char)
    ensures
        nonws(seq![TokenV::WhiteSpace(c)]) == Seq::<TokenV>::empty(),
{
    let s = seq![TokenV::WhiteSpace(c)];
    assert(s.len() == 1);
    assert(s[0] == TokenV::WhiteSpace(c));
    assert(s.drop_first() =~= Seq::<TokenV>::empty());
    assert(nonws(s) == nonws(s.drop_first()));
    assert(nonws(Seq::<TokenV>::empty()) =~= Seq::<TokenV>::empty());
}

/// `nonws` of a spaced token list `[ws, t, ws]` keeps just `t`.
proof fn lemma_nonws_spaced(t: TokenV)
    requires
        !(t is WhiteSpace),
    ensures
        nonws(seq![TokenV::WhiteSpace(' '), t, TokenV::WhiteSpace(' ')]) == seq![t],
{
    let s = seq![TokenV::WhiteSpace(' '), t, TokenV::WhiteSpace(' ')];
    assert(s.drop_first() =~= seq![t, TokenV::WhiteSpace(' ')]);
    let s2 = seq![t, TokenV::WhiteSpace(' ')];
    assert(s2.drop_first() =~= seq![TokenV::WhiteSpace(' ')]);
    lemma_nonws_ws(' ');
    assert(nonws(s2) =~= seq![t]);
    assert(nonws(s) =~= seq![t]);
}

// ---------------------------------------------------------------------------
// The print/scan inversion law.
// ---------------------------------------------------------------------------
/// Shared shape of the one-argument call texts: `name(` body `)`.
proof fn lemma_stream_call(name: Seq<char>, body: Seq<char>, inner: Seq<TokenV>)
    requires
        name.len() >= 1,
        forall|k: int| 0 <= k < name.len() ==> is_letter_char(name[k]),
        nonws(spec_tokens(body, 0)) == inner,
    ensures
        nonws(spec_tokens(name + seq!['('] + body + seq![')'], 0)) == seq![
            TokenV::Identifier(name),
            TokenV::OpenParenthesis,
        ] + inner + seq![TokenV::CloseParenthesis],
{
    let head = name + seq!['('];
    lemma_tokens_name_open(name);
    lemma_tokens_single(')', TokenV::CloseParenthesis);
    assert(head[head.len() - 1] == '(');
    assert(!joins('(', body[0])) by {
        assert(!is_digit_char('('));
        assert(!is_letter_char('('));
    }
    lemma_tokens_append(head, body);
    let hb = head + body;
    if body.len() > 0 {
        assert(hb[hb.len() - 1] == body[body.len() - 1]);
    }
    assert(!joins(hb[hb.len() - 1], ')')) by {
        assert(!is_digit_char(')'));
        assert(!is_letter_char(')'));
    }
    lemma_tokens_append(hb, seq![')']);
    assert(name + seq!['('] + body + seq![')'] =~= hb + seq![')']);
    assert(spec_tokens(hb + seq![')'], 0) =~= spec_tokens(head, 0) + spec_tokens(body, 0)
        + spec_tokens(seq![')'], 0));
    lemma_nonws_append(spec_tokens(head, 0), spec_tokens(body, 0));
    lemma_nonws_append(spec_tokens(head, 0) + spec_tokens(body, 0), spec_tokens(seq![')'], 0));
    lemma_nonws_id(seq![TokenV::Identifier(name), TokenV::OpenParenthesis]);
    lemma_nonws_id(seq![TokenV::CloseParenthesis]);
    assert(nonws(spec_tokens(hb + seq![')'], 0)) =~= seq![
        TokenV::Identifier(name),
        TokenV::OpenParenthesis,
    ] + inner + seq![TokenV::CloseParenthesis]);
}

/// Shared shape of the binary texts: left, a spaced operator, right.
proof fn lemma_stream_binary(
    lt: Seq<char>,
    rt: Seq<char>,
    m: Seq<char>,
    ltoks: Seq<TokenV>,
    rtoks: Seq<TokenV>,
    mtok: TokenV,
)
    requires
        m.len() >= 2,
        m[0] == ' ',
        m[m.len() - 1] == ' ',
        nonws(spec_tokens(lt, 0)) == ltoks,
        nonws(spec_tokens(rt, 0)) == rtoks,
        nonws(spec_tokens(m, 0)) == seq![mtok],
    ensures
        nonws(spec_tokens(lt + m + rt, 0)) == ltoks + seq![mtok] + rtoks,
{
    assert(!joins(' ', rt[0])) by {
        assert(!is_digit_char(' '));
        assert(!is_letter_char(' '));
    }
    if lt.len() > 0 {
        assert(!joins(lt[lt.len() - 1], ' ')) by {
            assert(!is_digit_char(' '));
            assert(!is_letter_char(' '));
        }
    }
    lemma_tokens_append(lt, m);
    let lm = lt + m;
    assert(lm[lm.len() - 1] == ' ');
    lemma_tokens_append(lm, rt);
    assert(lt + m + rt =~= lm + rt);
    assert(spec_tokens(lm + rt, 0) =~= spec_tokens(lt, 0) + spec_tokens(m, 0) + spec_tokens(
        rt,
        0,
    ));
    lemma_nonws_append(spec_tokens(lt, 0), spec_tokens(m, 0));
    lemma_nonws_append(spec_tokens(lt, 0) + spec_tokens(m, 0), spec_tokens(rt, 0));
    assert(nonws(spec_tokens(lm + rt, 0)) =~= ltoks + seq![mtok] + rtoks);
}


/// One binary case of the induction, for a single-character operator.
proof fn binary_stream_case(v: ExprV, l: ExprV, r: ExprV, c: char)
    requires
        spec_stream_of(spec_text(l)) == tokseq(l),
        spec_stream_of(spec_text(r)) == tokseq(r),
        is_operator_char(c),
        spec_text(v) == spec_text(l) + seq![' ', c, ' '] + spec_text(r),
        tokseq(v) == tokseq(l) + seq![TokenV::Operator(seq![c])] + tokseq(r),
    ensures
        spec_stream_of(spec_text(v)) == tokseq(v),
{
    lemma_tokens_mid(c);
    lemma_nonws_spaced(TokenV::Operator(seq![c]));
    lemma_stream_binary(
        spec_text(l),
        spec_text(r),
        seq![' ', c, ' '],
        tokseq(l),
        tokseq(r),
        TokenV::Operator(seq![c]),
    );
}

/// The power case of the induction (the one two-character operator).
proof fn pow_stream_case(v: ExprV, l: ExprV, r: ExprV)
    requires
        spec_stream_of(spec_text(l)) == tokseq(l),
        spec_stream_of(spec_text(r)) == tokseq(r),
        spec_text(v) == spec_text(l) + seq![' ', '*', '*', ' '] + spec_text(r),
        tokseq(v) == tokseq(l) + seq![TokenV::Operator(seq!['*', '*'])] + tokseq(r),
    ensures
        spec_stream_of(spec_text(v)) == tokseq(v),
{
    lemma_tokens_mid_pow();
    lemma_nonws_spaced(TokenV::Operator(seq!['*', '*']));
    lemma_stream_binary(
        spec_text(l),
        spec_text(r),
        seq![' ', '*', '*', ' '],
        tokseq(l),
        tokseq(r),
        TokenV::Operator(seq!['*', '*']),
    );
}

/// The negation case of the induction.
proof fn neg_stream_case(v: ExprV, c: ExprV)
    requires
        spec_stream_of(spec_text(c)) == tokseq(c),
        spec_text(v) == seq!['-'] + spec_text(c),
        tokseq(v) == seq![TokenV::Operator(seq!['-'])] + tokseq(c),
    ensures
        spec_stream_of(spec_text(v)) == tokseq(v),
{
    lemma_tokens_single('-', TokenV::Operator(seq!['-']));
    assert(!joins('-', spec_text(c)[0])) by {
        assert(!is_digit_char('-'));
        assert(!is_letter_char('-'));
    }
    lemma_tokens_append(seq!['-'], spec_text(c));
    lemma_nonws_append(spec_tokens(seq!['-'], 0), spec_tokens(spec_text(c), 0));
    lemma_nonws_id(seq![TokenV::Operator(seq!['-'])]);
    assert(nonws(spec_tokens(spec_text(v), 0)) =~= tokseq(v));
}

/// The parenthesis case of the induction.
proof fn paren_stream_case(v: ExprV, c: ExprV)
    requires
        spec_stream_of(spec_text(c)) == tokseq(c),
        spec_text(v) == seq!['('] + spec_text(c) + seq![')'],
        tokseq(v) == seq![TokenV::OpenParenthesis] + tokseq(c) + seq![TokenV::CloseParenthesis],
    ensures
        spec_stream_of(spec_text(v)) == tokseq(v),
{
    lemma_tokens_single('(', TokenV::OpenParenthesis);
    lemma_tokens_single(')', TokenV::CloseParenthesis);
    let t = spec_text(c);
    assert(!joins('(', t[0])) by {
        assert(!is_digit_char('('));
        assert(!is_letter_char('('));
    }
    lemma_tokens_append(seq!['('], t);
    let ot = seq!['('] + t;
    if t.len() > 0 {
        assert(ot[ot.len() - 1] == t[t.len() - 1]);
    }
    assert(!joins(ot[ot.len() - 1], ')')) by {
        assert(!is_digit_char(')'));
        assert(!is_letter_char(')'));
    }
    lemma_tokens_append(ot, seq![')']);
    assert(spec_text(v) =~= ot + seq![')']);
    lemma_nonws_append(spec_tokens(seq!['('], 0), spec_tokens(t, 0));
    lemma_nonws_append(
        spec_tokens(seq!['('], 0) + spec_tokens(t, 0),
        spec_tokens(seq![')'], 0),
    );
    lemma_nonws_id(seq![TokenV::OpenParenthesis]);
    lemma_nonws_id(seq![TokenV::CloseParenthesis]);
    assert(nonws(spec_tokens(spec_text(v), 0)) =~= tokseq(v));
}

/// The two-argument call case of the induction.
proof fn log_stream_case(v: ExprV, l: ExprV, r: ExprV)
    requires
        spec_stream_of(spec_text(l)) == tokseq(l),
        spec_stream_of(spec_text(r)) == tokseq(r),
        spec_text(v) == seq!['l', 'o', 'g', '('] + spec_text(l) + seq![',', ' '] + spec_text(r)
            + seq![')'],
        tokseq(v) == seq![TokenV::Identifier(seq!['l', 'o', 'g']), TokenV::OpenParenthesis]
            + tokseq(l) + seq![TokenV::Other(seq![','])] + tokseq(r) + seq![
            TokenV::CloseParenthesis,
        ],
    ensures
        spec_stream_of(spec_text(v)) == tokseq(v),
{
    let lt = spec_text(l);
    let rt = spec_text(r);
    let head = seq!['l', 'o', 'g'] + seq!['('];
    assert(spec_text(v) =~= head + lt + seq![',', ' '] + rt + seq![')']);
    lemma_tokens_name_open(seq!['l', 'o', 'g']);
    lemma_tokens_mid_comma();
    lemma_tokens_single(')', TokenV::CloseParenthesis);
    assert(!joins('(', lt[0])) by {
        assert(!is_digit_char('('));
        assert(!is_letter_char('('));
    }
    lemma_tokens_append(head, lt);
    let a = head + lt;
    if lt.len() > 0 {
        assert(a[a.len() - 1] == lt[lt.len() - 1]);
    }
    assert(!joins(a[a.len() - 1], ',')) by {
        assert(!is_digit_char(','));
        assert(!is_letter_char(','));
    }
    lemma_tokens_append(a, seq![',', ' ']);
    let b = a + seq![',', ' '];
    assert(b[b.len() - 1] == ' ');
    assert(!joins(' ', rt[0])) by {
        assert(!is_digit_char(' '));
        assert(!is_letter_char(' '));
    }
    lemma_tokens_append(b, rt);
    let cseq = b + rt;
    if rt.len() > 0 {
        assert(cseq[cseq.len() - 1] == rt[rt.len() - 1]);
    }
    assert(!joins(cseq[cseq.len() - 1], ')')) by {
        assert(!is_digit_char(')'));
        assert(!is_letter_char(')'));
    }
    lemma_tokens_append(cseq, seq![')']);
    assert(spec_text(v) =~= cseq + seq![')']);
    lemma_nonws_append(spec_tokens(head, 0), spec_tokens(lt, 0));
    lemma_nonws_append(
        spec_tokens(head, 0) + spec_tokens(lt, 0),
        spec_tokens(seq![',', ' '], 0),
    );
    lemma_nonws_append(
        spec_tokens(head, 0) + spec_tokens(lt, 0) + spec_tokens(seq![',', ' '], 0),
        spec_tokens(rt, 0),
    );
    lemma_nonws_append(
        spec_tokens(head, 0) + spec_tokens(lt, 0) + spec_tokens(seq![',', ' '], 0)
            + spec_tokens(rt, 0),
        spec_tokens(seq![')'], 0),
    );
    lemma_nonws_id(seq![TokenV::Identifier(seq!['l', 'o', 'g']), TokenV::OpenParenthesis]);
    let mc = seq![TokenV::Other(seq![',']), TokenV::WhiteSpace(' ')];
    assert(mc.drop_first() =~= seq![TokenV::WhiteSpace(' ')]);
    lemma_nonws_ws(' ');
    assert(nonws(mc) =~= seq![TokenV::Other(seq![','])]);
    lemma_nonws_id(seq![TokenV::CloseParenthesis]);
    assert(nonws(spec_tokens(spec_text(v), 0)) =~= tokseq(v));
}

/// Print/scan inversion: the canonical text of a printable, well-formed
/// tree scans back to exactly the tree's own token sequence.  This is the
/// lexer half of the parse/print round trip; the parser's own contract
/// ties these tokens to the tree a reparse returns.
pub proof fn lemma_text_tokens(v: ExprV)
    requires
        printable(v),
        wf_expr(v),
    ensures
        spec_stream_of(spec_text(v)) == tokseq(v),
    decreases v, 0int,
{
    match v {
        ExprV::Num { whole, frac } => {
            lemma_tokens_num(whole, frac);
            lemma_nonws_id(seq![TokenV::Number(spec_text(v))]);
            assert(nonws(seq![TokenV::Number(spec_text(v))]) =~= tokseq(v));
        },
        ExprV::EConst => {
            lemma_tokens_name(seq!['e']);
            lemma_name_stream(seq!['e']);
            reveal_strlit("e");
            assert("e"@ =~= seq!['e']);
            assert(spec_stream_of(spec_text(v)) =~= tokseq(v));
        },
        ExprV::PiConst => {
            lemma_tokens_name(seq!['p', 'i']);
            lemma_name_stream(seq!['p', 'i']);
            reveal_strlit("pi");
            assert("pi"@ =~= seq!['p', 'i']);
            assert(spec_stream_of(spec_text(v)) =~= tokseq(v));
        },
        ExprV::Var => {
            lemma_tokens_name(seq!['x']);
            lemma_name_stream(seq!['x']);
            reveal_strlit("x");
            assert("x"@ =~= seq!['x']);
            assert(spec_stream_of(spec_text(v)) =~= tokseq(v));
        },
        ExprV::Neg(c) => {
            lemma_text_tokens(*c);
            reveal_strlit("-");
            assert("-"@ =~= seq!['-']);
            neg_stream_case(v, *c);
        },
        ExprV::Paren(c) => {
            lemma_text_tokens(*c);
            paren_stream_case(v, *c);
        },
        ExprV::Add(l, r) => {
            lemma_text_tokens(*l);
            lemma_text_tokens(*r);
            reveal_strlit("+");
            assert("+"@ =~= seq!['+']);
            binary_stream_case(v, *l, *r, '+');
        },
        ExprV::Sub(l, r) => {
            lemma_text_tokens(*l);
            lemma_text_tokens(*r);
            reveal_strlit("-");
            assert("-"@ =~= seq!['-']);
            binary_stream_case(v, *l, *r, '-');
        },
        ExprV::Mul(l, r) => {
            lemma_text_tokens(*l);
            lemma_text_tokens(*r);
            reveal_strlit("*");
            assert("*"@ =~= seq!['*']);
            binary_stream_case(v, *l, *r, '*');
        },
        ExprV::Div(l, r) => {
            lemma_text_tokens(*l);
            lemma_text_tokens(*r);
            reveal_strlit("/");
            assert("/"@ =~= seq!['/']);
            binary_stream_case(v, *l, *r, '/');
        },
        ExprV::Pow(l, r) => {
            lemma_text_tokens(*l);
            lemma_text_tokens(*r);
            reveal_strlit("**");
            assert("**"@ =~= seq!['*', '*']);
            pow_stream_case(v, *l, *r);
        },
        ExprV::Sin(c) => {
            reveal_strlit("sin");
            assert("sin"@ =~= seq!['s', 'i', 'n']);
            assert(spec_text(v) =~= seq!['s', 'i', 'n'] + seq!['('] + spec_text(*c) + seq![')']);
            func_stream_case(v, *c, seq!['s', 'i', 'n'], "sin");
        },
        ExprV::Cos(c) => {
            reveal_strlit("cos");
            assert("cos"@ =~= seq!['c', 'o', 's']);
            assert(spec_text(v) =~= seq!['c', 'o', 's'] + seq!['('] + spec_text(*c) + seq![')']);
            func_stream_case(v, *c, seq!['c', 'o', 's'], "cos");
        },
        ExprV::Tan(c) => {
            reveal_strlit("tan");
            assert("tan"@ =~= seq!['t', 'a', 'n']);
            assert(spec_text(v) =~= seq!['t', 'a', 'n'] + seq!['('] + spec_text(*c) + seq![')']);
            func_stream_case(v, *c, seq!['t', 'a', 'n'], "tan");
        },
        ExprV::Cot(c) => {
            reveal_strlit("cot");
            assert("cot"@ =~= seq!['c', 'o', 't']);
            assert(spec_text(v) =~= seq!['c', 'o', 't'] + seq!['('] + spec_text(*c) + seq![')']);
            func_stream_case(v, *c, seq!['c', 'o', 't'], "cot");
        },
        ExprV::Sec(c) => {
            reveal_strlit("sec");
            assert("sec"@ =~= seq!['s', 'e', 'c']);
            assert(spec_text(v) =~= seq!['s', 'e', 'c'] + seq!['('] + spec_text(*c) + seq![')']);
            func_stream_case(v, *c, seq!['s', 'e', 'c'], "sec");
        },
        ExprV::Csc(c) => {
            reveal_strlit("csc");
            assert("csc"@ =~= seq!['c', 's', 'c']);
            assert(spec_text(v) =~= seq!['c', 's', 'c'] + seq!['('] + spec_text(*c) + seq![')']);
            func_stream_case(v, *c, seq!['c', 's', 'c'], "csc");
        },
        ExprV::Arcsin(c) => {
            reveal_strlit("arcsin");
            assert("arcsin"@ =~= seq!['a', 'r', 'c', 's', 'i', 'n']);
            assert(spec_text(v) =~= seq!['a', 'r', 'c', 's', 'i', 'n'] + seq!['('] + spec_text(*c) + seq![')']);
            func_stream_case(v, *c, seq!['a', 'r', 'c', 's', 'i', 'n'], "arcsin");
        },
        ExprV::Arccos(c) => {
            reveal_strlit("arccos");
            assert("arccos"@ =~= seq!['a', 'r', 'c', 'c', 'o', 's']);
            assert(spec_text(v) =~= seq!['a', 'r', 'c', 'c', 'o', 's'] + seq!['('] + spec_text(*c) + seq![')']);
            func_stream_case(v, *c, seq!['a', 'r', 'c', 'c', 'o', 's'], "arccos");
        },
        ExprV::Arctan(c) => {
            reveal_strlit("arctan");
            assert("arctan"@ =~= seq!['a', 'r', 'c', 't', 'a', 'n']);
            assert(spec_text(v) =~= seq!['a', 'r', 'c', 't', 'a', 'n'] + seq!['('] + spec_text(*c) + seq![')']);
            func_stream_case(v, *c, seq!['a', 'r', 'c', 't', 'a', 'n'], "arctan");
        },
        ExprV::Arccot(c) => {
            reveal_strlit("arccot");
            assert("arccot"@ =~= seq!['a', 'r', 'c', 'c', 'o', 't']);
            assert(spec_text(v) =~= seq!['a', 'r', 'c', 'c', 'o', 't'] + seq!['('] + spec_text(*c) + seq![')']);
            func_stream_case(v, *c, seq!['a', 'r', 'c', 'c', 'o', 't'], "arccot");
        },
        ExprV::Ln(c) => {
            reveal_strlit("ln");
            assert("ln"@ =~= seq!['l', 'n']);
            assert(spec_text(v) =~= seq!['l', 'n'] + seq!['('] + spec_text(*c) + seq![')']);
            func_stream_case(v, *c, seq!['l', 'n'], "ln");
        },
        ExprV::Sqrt(c) => {
            reveal_strlit("sqrt");
            assert("sqrt"@ =~= seq!['s', 'q', 'r', 't']);
            assert(spec_text(v) =~= seq!['s', 'q', 'r', 't'] + seq!['('] + spec_text(*c) + seq![')']);
            func_stream_case(v, *c, seq!['s', 'q', 'r', 't'], "sqrt");
        },
        ExprV::Log(l, r) => {
            lemma_text_tokens(*l);
            lemma_text_tokens(*r);
            reveal_strlit("log");
            assert("log"@ =~= seq!['l', 'o', 'g']);
            log_stream_case(v, *l, *r);
        },
        _ => {},
    }
}

/// A pure letter run scans to exactly its identifier token stream.
proof fn lemma_name_stream(name: Seq<char>)
    requires
        name.len() >= 1,
        forall|k: int| 0 <= k < name.len() ==> is_letter_char(name[k]),
    ensures
        nonws(spec_tokens(name, 0)) == seq![TokenV::Identifier(name)],
{
    lemma_tokens_name(name);
    lemma_nonws_id(seq![TokenV::Identifier(name)]);
}

/// One one-argument function case of the induction.
proof fn func_stream_case(v: ExprV, c: ExprV, name: Seq<char>, lit: &str)
    requires
        printable(v),
        wf_expr(v),
        printable(c),
        wf_expr(c),
        name.len() >= 1,
        forall|k: int| 0 <= k < name.len() ==> is_letter_char(name[k]),
        lit@ == name,
        spec_text(v) == name + seq!['('] + spec_text(c) + seq![')'],
        tokseq(v) == seq![TokenV::Identifier(lit@), TokenV::OpenParenthesis] + tokseq(c) + seq![
            TokenV::CloseParenthesis,
        ],
    ensures
        spec_stream_of(spec_text(v)) == tokseq(v),
    decreases c, 1int,
{
    lemma_text_tokens(c);
    lemma_stream_call(name, spec_text(c), tokseq(c));
    assert(nonws(spec_tokens(spec_text(v), 0)) =~= tokseq(v));
}


/// Round trip: the canonical text of a printable, well-formed tree is,
/// after scanning and literal normalization, exactly the tree's own token
/// rendering.  This is precisely the premise of `parse`'s completeness
/// clause, so parsing the canonical text is owed to succeed and to return
/// that very tree: `parse(to_text(e))` yields `Ok` of a tree with view
/// `e@`, which therefore prints and evaluates identically.
pub proof fn lemma_round_trip(v: ExprV)
    requires
        printable(v),
        wf_expr(v),
    ensures
        norm_toks(spec_stream_of(spec_text(v))) == tokseq(v),
{
    lemma_text_tokens(v);
    lemma_tokseq_normalized(v);
}

} // verus!
