//! Parser: recursive descent for primaries, precedence climbing for binary
//! operators, one token of lookahead, no backtracking.
//!
//! Whitespace tokens are skipped by the token-advance step and never reach
//! the grammar rules.  A parse either consumes the whole input and returns
//! one tree, or fails atomically with a structured error — never a partial
//! tree.

use vstd::prelude::*;
use vstd::string::*;

use crate::expression::lexer::{spec_precedence, spec_tokens, token_ok, Lexer, Token, TokenV};
use crate::expression::number::{lemma_num_text_round_trip, num_node_of};
use crate::expression::render::copy_str;
use crate::expression::{is_primary, level, printable, spec_text, wf_expr, Constant, ExprV, Expression,
    Number, Parenthesis, Unary, Variable};

verus! {

/// The non-whitespace tokens of a token sequence, in order.
pub open spec fn nonws(ts: Seq<TokenV>) -> Seq<TokenV>
    decreases ts.len(),
{
    if ts.len() == 0 {
        Seq::empty()
    } else if ts[0] is WhiteSpace {
        nonws(ts.drop_first())
    } else {
        seq![ts[0]] + nonws(ts.drop_first())
    }
}

/// The non-whitespace tokens of the whole text: what the grammar sees.
pub open spec fn spec_stream_of(text: Seq<char>) -> Seq<TokenV> {
    nonws(spec_tokens(text, 0))
}

/// The token sequence a tree renders to (whitespace left out, as the
/// parser sees it).
pub open spec fn tokseq(v: ExprV) -> Seq<TokenV>
    decreases v,
{
    match v {
        ExprV::Num { whole, frac } => seq![TokenV::Number(crate::expression::spec_text(v))],
        ExprV::Fact(n) => seq![
            TokenV::Number(crate::expression::render::spec_dec_digits(n as nat)),
            TokenV::Other(seq!['!']),
        ],
        ExprV::EConst => seq![TokenV::Identifier("e"@)],
        ExprV::PiConst => seq![TokenV::Identifier("pi"@)],
        ExprV::Var => seq![TokenV::Identifier("x"@)],
        ExprV::Neg(c) => seq![TokenV::Operator("-"@)] + tokseq(*c),
        ExprV::Paren(c) => seq![TokenV::OpenParenthesis] + tokseq(*c) + seq![
            TokenV::CloseParenthesis,
        ],
        ExprV::Add(l, r) => tokseq(*l) + seq![TokenV::Operator("+"@)] + tokseq(*r),
        ExprV::Sub(l, r) => tokseq(*l) + seq![TokenV::Operator("-"@)] + tokseq(*r),
        ExprV::Mul(l, r) => tokseq(*l) + seq![TokenV::Operator("*"@)] + tokseq(*r),
        ExprV::Div(l, r) => tokseq(*l) + seq![TokenV::Operator("/"@)] + tokseq(*r),
        ExprV::Pow(l, r) => tokseq(*l) + seq![TokenV::Operator("**"@)] + tokseq(*r),
        ExprV::Sin(c) => seq![TokenV::Identifier("sin"@), TokenV::OpenParenthesis] + tokseq(*c)
            + seq![TokenV::CloseParenthesis],
        ExprV::Cos(c) => seq![TokenV::Identifier("cos"@), TokenV::OpenParenthesis] + tokseq(*c)
            + seq![TokenV::CloseParenthesis],
        ExprV::Tan(c) => seq![TokenV::Identifier("tan"@), TokenV::OpenParenthesis] + tokseq(*c)
            + seq![TokenV::CloseParenthesis],
        ExprV::Cot(c) => seq![TokenV::Identifier("cot"@), TokenV::OpenParenthesis] + tokseq(*c)
            + seq![TokenV::CloseParenthesis],
        ExprV::Sec(c) => seq![TokenV::Identifier("sec"@), TokenV::OpenParenthesis] + tokseq(*c)
            + seq![TokenV::CloseParenthesis],
        ExprV::Csc(c) => seq![TokenV::Identifier("csc"@), TokenV::OpenParenthesis] + tokseq(*c)
            + seq![TokenV::CloseParenthesis],
        ExprV::Arcsin(c) => seq![TokenV::Identifier("arcsin"@), TokenV::OpenParenthesis] + tokseq(
            *c,
        ) + seq![TokenV::CloseParenthesis],
        ExprV::Arccos(c) => seq![TokenV::Identifier("arccos"@), TokenV::OpenParenthesis] + tokseq(
            *c,
        ) + seq![TokenV::CloseParenthesis],
        ExprV::Arctan(c) => seq![TokenV::Identifier("arctan"@), TokenV::OpenParenthesis] + tokseq(
            *c,
        ) + seq![TokenV::CloseParenthesis],
        ExprV::Arccot(c) => seq![TokenV::Identifier("arccot"@), TokenV::OpenParenthesis] + tokseq(
            *c,
        ) + seq![TokenV::CloseParenthesis],
        ExprV::Ln(c) => seq![TokenV::Identifier("ln"@), TokenV::OpenParenthesis] + tokseq(*c)
            + seq![TokenV::CloseParenthesis],
        ExprV::Sqrt(c) => seq![TokenV::Identifier("sqrt"@), TokenV::OpenParenthesis] + tokseq(*c)
            + seq![TokenV::CloseParenthesis],
        ExprV::Log(l, r) => seq![TokenV::Identifier("log"@), TokenV::OpenParenthesis] + tokseq(*l)
            + seq![TokenV::Other(seq![','])] + tokseq(*r) + seq![TokenV::CloseParenthesis],
    }
}

/// A structured parse failure.  The payload is the offending token (or
/// name), so callers can render a contextual message.
#[derive(Debug)]
pub enum ParseError {
    /// A primary expression was expected; this token cannot start one.
    ExpectedPrimary(Token),
    /// A closing parenthesis was expected.
    ExpectedClose(Token),
    /// A function name must be followed by an opening parenthesis.
    ExpectedOpen(Token),
    /// A two-argument function needs a comma between its arguments.
    ExpectedComma(Token),
    /// An identifier that is neither the variable, a constant, nor a
    /// recognized function name.
    UnknownName(String),
    /// The only unary operator is `-`.
    InvalidUnary(String),
    /// Input remains after a complete expression.
    TrailingInput(Token),
}

/// The parser: owns the lexer and one lookahead token.
#[derive(Debug)]
pub struct Parser {
    /// The lookahead: first unconsumed non-whitespace token (`Eof` when the
    /// input is exhausted).
    pub current: Token,
    pub lexer: Lexer,
}

impl Parser {
    /// The tokens the grammar still has to consume: the lookahead followed
    /// by the lexer's remaining non-whitespace tokens.  Empty exactly at
    /// end of input.
    pub open spec fn stream(self) -> Seq<TokenV> {
        if self.current@ is Eof {
            Seq::empty()
        } else {
            seq![self.current@] + nonws(self.lexer.remaining())
        }
    }

    /// Parser state measure: strictly decreases whenever a token is
    /// consumed.
    pub open spec fn size(self) -> int {
        (if self.lexer.i <= self.lexer.chars@.len() {
            self.lexer.chars@.len() - self.lexer.i
        } else {
            0int
        }) + if self.current@ is Eof {
            0int
        } else {
            1int
        }
    }

    /// Parser invariant: the lookahead is a real (non-whitespace) canonical
    /// token, and `Eof` only at true end of input.
    pub open spec fn wf(self) -> bool {
        &&& !(self.current@ is WhiteSpace)
        &&& token_ok(self.current@)
        &&& (self.current@ is Eof ==> nonws(self.lexer.remaining()).len() == 0)
    }

    /// Every token of the stream is canonical, non-whitespace and non-`Eof`.
    pub open spec fn stream_ok(self) -> bool {
        forall|k: int|
            0 <= k < self.stream().len() ==> token_ok(#[trigger] self.stream()[k]) && !(
            self.stream()[k] is WhiteSpace) && !(self.stream()[k] is Eof)
    }
}

/// `nonws` keeps exactly the non-whitespace tokens: facts about its members
/// follow from facts about the underlying tokens.
proof fn lemma_nonws_ok(ts: Seq<TokenV>)
    requires
        forall|k: int| 0 <= k < ts.len() ==> token_ok(#[trigger] ts[k]),
        forall|k: int| 0 <= k < ts.len() ==> !(#[trigger] ts[k] is Eof),
    ensures
        forall|k: int|
            0 <= k < nonws(ts).len() ==> token_ok(#[trigger] nonws(ts)[k]) && !(nonws(ts)[k]
                is WhiteSpace) && !(nonws(ts)[k] is Eof),
    decreases ts.len(),
{
    if ts.len() > 0 {
        assert forall|k: int| 0 <= k < ts.drop_first().len() implies token_ok(
            #[trigger] ts.drop_first()[k],
        ) && !(ts.drop_first()[k] is Eof) by {
            assert(ts.drop_first()[k] == ts[k + 1]);
        }
        lemma_nonws_ok(ts.drop_first());
    }
}

/// The tokenizer never produces an `Eof` token.
proof fn lemma_tokens_not_eof(s: Seq<char>, i: int)
    ensures
        forall|k: int|
            0 <= k < spec_tokens(s, i).len() ==> !(#[trigger] spec_tokens(s, i)[k] is Eof),
    decreases s.len() - i,
{
    if 0 <= i < s.len() {
        crate::expression::lexer::lemma_token_at_bounds(s, i);
        lemma_tokens_not_eof(s, crate::expression::lexer::spec_token_at(s, i).1);
        let rest = spec_tokens(s, crate::expression::lexer::spec_token_at(s, i).1);
        assert forall|k: int| 0 <= k < spec_tokens(s, i).len() implies !(#[trigger] spec_tokens(
            s,
            i,
        )[k] is Eof) by {
            if k > 0 {
                assert(spec_tokens(s, i)[k] == rest[k - 1]);
            }
        }
    }
}

impl Parser {
    /// A parser over `expr`, with the lookahead already on the first
    /// non-whitespace token.
    pub fn new(expr: &str) -> (r: Parser)
        ensures
            r.wf(),
            r.stream_ok(),
            r.lexer.chars@ == expr@,
            r.stream() == spec_stream_of(expr@),
    {
        let mut out = Parser { current: Token::Eof, lexer: Lexer::new(expr) };
        out.get_next();
        proof {
            assert(out.stream() =~= spec_stream_of(expr@));
        }
        out
    }

    /// Advances the lookahead to the next non-whitespace token (`Eof` when
    /// the input runs out).  The old lookahead is discarded: this is the
    /// token-consume step.
    pub fn get_next(&mut self)
        ensures
            final(self).lexer.chars@ == old(self).lexer.chars@,
            final(self).wf(),
            final(self).stream_ok(),
            final(self).stream() == nonws(old(self).lexer.remaining()),
            final(self).size() <= old(self).size() - if old(self).current@ is Eof {
                0int
            } else {
                1int
            },
            old(self).wf() && !(old(self).current@ is Eof) ==> final(self).stream() == old(
                self,
            ).stream().drop_first() && final(self).size() < old(self).size(),
    {
        proof {
            crate::expression::lexer::lemma_tokens_ok(
                old(self).lexer.chars@,
                old(self).lexer.i as int,
            );
            lemma_tokens_not_eof(old(self).lexer.chars@, old(self).lexer.i as int);
            lemma_nonws_ok(old(self).lexer.remaining());
        }
        loop
            invariant
                self.lexer.chars@ == old(self).lexer.chars@,
                nonws(self.lexer.remaining()) == nonws(old(self).lexer.remaining()),
                self.lexer.i >= old(self).lexer.i,
                self.current == old(self).current,
            decreases self.lexer.chars@.len() - self.lexer.i,
        {
            let ghost prev = self.lexer;
            match self.lexer.next() {
                Some(t) => {
                    if !t.is_whitespace() {
                        self.current = t;
                        proof {
                            assert(nonws(prev.remaining()) =~= seq![t@] + nonws(
                                self.lexer.remaining(),
                            ));
                            lemma_tokens_not_eof(prev.chars@, prev.i as int);
                            crate::expression::lexer::lemma_tokens_ok(
                                self.lexer.chars@,
                                self.lexer.i as int,
                            );
                            lemma_tokens_not_eof(self.lexer.chars@, self.lexer.i as int);
                            lemma_nonws_ok(self.lexer.remaining());
                            assert(self.stream() =~= nonws(old(self).lexer.remaining()));
                            if !(old(self).current@ is Eof) {
                                assert(old(self).stream().drop_first() =~= nonws(
                                    old(self).lexer.remaining(),
                                ));
                            }
                        }
                        return ;
                    }
                    proof {
                        assert(nonws(prev.remaining()) =~= nonws(self.lexer.remaining()));
                    }
                },
                None => {
                    self.current = Token::Eof;
                    proof {
                        assert(self.stream() =~= Seq::<TokenV>::empty());
                        if !(old(self).current@ is Eof) {
                            assert(old(self).stream().drop_first() =~= nonws(
                                old(self).lexer.remaining(),
                            ));
                        }
                    }
                    return ;
                },
            }
        }
    }
}


/// A token with any numeric lexeme normalized; other tokens unchanged.
pub open spec fn norm_tok(t: TokenV) -> TokenV {
    match t {
        TokenV::Number(s) => TokenV::Number(crate::expression::spec_text(num_node_of(s))),
        _ => t,
    }
}

/// Tokens, with numeric lexemes normalized.  The parser's contracts speak
/// of these: parsing keeps every token as it stands, except that a literal
/// like `1.0` becomes the tree for `1`.
pub open spec fn norm_toks(ts: Seq<TokenV>) -> Seq<TokenV> {
    ts.map_values(|t: TokenV| norm_tok(t))
}

proof fn lemma_norm_toks_drop(ts: Seq<TokenV>)
    requires
        ts.len() > 0,
    ensures
        norm_toks(ts) == seq![norm_tok(ts[0])] + norm_toks(ts.drop_first()),
{
    assert(norm_toks(ts) =~= seq![norm_tok(ts[0])] + norm_toks(ts.drop_first()));
}

impl Parser {
    /// Consumes the number at the lookahead and returns its (normalized)
    /// literal node.
    fn parse_number(&mut self) -> (e: Expression)
        requires
            old(self).wf(),
            old(self).stream_ok(),
            old(self).current@ is Number,
        ensures
            final(self).wf(),
            final(self).stream_ok(),
            final(self).lexer.chars@ == old(self).lexer.chars@,
            final(self).size() < old(self).size(),
            norm_toks(old(self).stream()) == tokseq(e@) + norm_toks(final(self).stream()),
            is_primary(e@) && printable(e@) && wf_expr(e@) && level(e@) == 40,
            (match old(self).current@ {
                TokenV::Number(s) => e@ == num_node_of(s),
                _ => false,
            }),
        decreases old(self).size(), 0int,
    {
        let num = match &self.current {
            Token::Number(s) => {
                match Number::new(s.as_str()) {
                    Some(n) => n,
                    None => unreached(),
                }
            },
            _ => unreached(),
        };
        let ghost s0 = self.stream();
        self.get_next();
        let e = Expression::Number(num);
        proof {
            lemma_norm_toks_drop(s0);
            assert(norm_toks(s0) =~= tokseq(e@) + norm_toks(self.stream()));
        }
        e
    }

    /// Consumes the variable token `x`.
    fn parse_variable(&mut self) -> (e: Expression)
        requires
            old(self).wf(),
            old(self).stream_ok(),
            old(self).current@ == TokenV::Identifier("x"@),
        ensures
            final(self).wf(),
            final(self).stream_ok(),
            final(self).lexer.chars@ == old(self).lexer.chars@,
            final(self).size() < old(self).size(),
            norm_toks(old(self).stream()) == tokseq(e@) + norm_toks(final(self).stream()),
            is_primary(e@) && printable(e@) && wf_expr(e@) && level(e@) == 40,
            e@ == ExprV::Var,
        decreases old(self).size(), 0int,
    {
        let ghost s0 = self.stream();
        self.get_next();
        let e = Expression::Variable(Variable::new());
        proof {
            lemma_norm_toks_drop(s0);
            assert(norm_toks(s0) =~= tokseq(e@) + norm_toks(self.stream()));
        }
        e
    }

    /// Consumes a constant name (`e` or `pi`).
    fn parse_constant(&mut self) -> (e: Expression)
        requires
            old(self).wf(),
            old(self).stream_ok(),
            old(self).current@ == TokenV::Identifier("e"@) || old(self).current@
                == TokenV::Identifier("pi"@),
        ensures
            final(self).wf(),
            final(self).stream_ok(),
            final(self).lexer.chars@ == old(self).lexer.chars@,
            final(self).size() < old(self).size(),
            norm_toks(old(self).stream()) == tokseq(e@) + norm_toks(final(self).stream()),
            is_primary(e@) && printable(e@) && wf_expr(e@) && level(e@) == 40,
            old(self).current@ == TokenV::Identifier("e"@) ==> e@ == ExprV::EConst,
            old(self).current@ == TokenV::Identifier("pi"@) ==> e@ == ExprV::PiConst,
        decreases old(self).size(), 0int,
    {
        let c = match &self.current {
            Token::Identifier(s) => {
                match Constant::new(s.as_str()) {
                    Some(c) => c,
                    None => unreached(),
                }
            },
            _ => unreached(),
        };
        proof {
            reveal_strlit("e");
            reveal_strlit("pi");
        }
        let ghost s0 = self.stream();
        self.get_next();
        let e = Expression::Constant(c);
        proof {
            lemma_norm_toks_drop(s0);
            assert(norm_toks(s0) =~= tokseq(e@) + norm_toks(self.stream()));
        }
        e
    }

    /// Parses a unary expression: `-` followed by a primary.
    fn parse_unary(&mut self) -> (r: Result<Expression, ParseError>)
        requires
            old(self).wf(),
            old(self).stream_ok(),
            old(self).current@ is Operator,
        ensures
            final(self).wf(),
            final(self).stream_ok(),
            final(self).lexer.chars@ == old(self).lexer.chars@,
            final(self).size() <= old(self).size(),
            match r {
                Ok(e) => {
                    &&& final(self).size() < old(self).size()
                    &&& norm_toks(old(self).stream()) == tokseq(e@) + norm_toks(
                        final(self).stream(),
                    )
                    &&& is_primary(e@) && printable(e@) && wf_expr(e@) && level(e@) == 40
                },
                Err(_) => true,
            },
            forall|v: ExprV, rest: Seq<TokenV>|
                primary_expected(old(self).stream(), v, rest) ==> (r matches Ok(res) && res@ == v
                    && norm_toks(final(self).stream()) == rest),
        decreases old(self).size(), 0int,
    {
        let op = match &self.current {
            Token::Operator(s) => copy_str(s.as_str()),
            _ => unreached(),
        };
        if !crate::expression::render::str_eq(op.as_str(), "-") {
            proof {
                assert forall|v: ExprV, rest: Seq<TokenV>|
                    !primary_expected(old(self).stream(), v, rest) by {
                    if primary_expected(old(self).stream(), v, rest) {
                        lemma_primary_head(v);
                        lemma_expected_head(*old(self), v, rest);
                        // an operator can only start a negation, whose operator is `-`
                        assert(v is Neg);
                        assert(op@ == "-"@);
                        assert(false);
                    }
                }
            }
            return Err(ParseError::InvalidUnary(op));
        }
        let ghost s0 = self.stream();
        self.get_next();
        let ghost s1 = self.stream();
        let inner = match self.parse_primary() {
            Ok(e) => e,
            Err(er) => {
                proof {
                    assert forall|v: ExprV, rest: Seq<TokenV>|
                        !primary_expected(s0, v, rest) by {
                        if primary_expected(s0, v, rest) {
                            lemma_primary_head(v);
                            lemma_expected_head(*old(self), v, rest);
                            assert(v is Neg);
                            let c = (match v {
                                ExprV::Neg(cc) => *cc,
                                _ => v,
                            });
                            assert(tokseq(v).drop_first() =~= tokseq(c));
                            assert(primary_expected(s1, c, rest));
                            assert(false);
                        }
                    }
                }
                return Err(er);
            },
        };
        let u = match Unary::new("-", inner) {
            Some(u) => u,
            None => unreached(),
        };
        let e = Expression::Unary(Box::new(u));
        proof {
            lemma_norm_toks_drop(s0);
            assert(norm_toks(s0) =~= tokseq(e@) + norm_toks(self.stream()));
            assert forall|v: ExprV, rest: Seq<TokenV>|
                primary_expected(s0, v, rest) implies e@ == v && norm_toks(self.stream())
                == rest by {
                lemma_primary_head(v);
                lemma_expected_head(*old(self), v, rest);
                assert(v is Neg);
                let c = (match v {
                    ExprV::Neg(cc) => *cc,
                    _ => v,
                });
                assert(tokseq(v).drop_first() =~= tokseq(c));
                assert(primary_expected(s1, c, rest));
                assert(inner@ == c);
                assert(v =~~= ExprV::Neg(Box::new(c)));
                assert(e@ == v);
            }
        }
        Ok(e)
    }

    /// Parses a parenthesized sub-expression: `(` sub_expr `)`.
    fn parse_parenthesis(&mut self) -> (r: Result<Expression, ParseError>)
        requires
            old(self).wf(),
            old(self).stream_ok(),
            old(self).current@ is OpenParenthesis,
        ensures
            final(self).wf(),
            final(self).stream_ok(),
            final(self).lexer.chars@ == old(self).lexer.chars@,
            final(self).size() <= old(self).size(),
            match r {
                Ok(e) => {
                    &&& final(self).size() < old(self).size()
                    &&& norm_toks(old(self).stream()) == tokseq(e@) + norm_toks(
                        final(self).stream(),
                    )
                    &&& is_primary(e@) && printable(e@) && wf_expr(e@) && level(e@) == 40
                },
                Err(_) => true,
            },
            forall|v: ExprV, rest: Seq<TokenV>|
                primary_expected(old(self).stream(), v, rest) ==> (r matches Ok(res) && res@ == v
                    && norm_toks(final(self).stream()) == rest),
        decreases old(self).size(), 0int,
    {
        let ghost s0 = self.stream();
        self.get_next();
        let ghost s1 = self.stream();
        let inner = match self.parse_sub() {
            Ok(e) => e,
            Err(er) => {
                proof {
                    assert forall|v: ExprV, rest: Seq<TokenV>|
                        !primary_expected(s0, v, rest) by {
                        if primary_expected(s0, v, rest) {
                            paren_expected_facts(*old(self), v, rest, s1);
                            assert(false);
                        }
                    }
                }
                return Err(er);
            },
        };
        if !self.current.is_close_parenthesis() {
            proof {
                assert forall|v: ExprV, rest: Seq<TokenV>|
                    !primary_expected(s0, v, rest) by {
                    if primary_expected(s0, v, rest) {
                        paren_expected_facts(*old(self), v, rest, s1);
                        let c = (match v {
                            ExprV::Paren(cc) => *cc,
                            _ => v,
                        });
                        assert(inner@ == c);
                        assert(norm_toks(self.stream()) == seq![TokenV::CloseParenthesis] + rest);
                        assert(norm_toks(self.stream()).len() >= 1);
                        assert(self.stream().len() >= 1);
                        lemma_norm_toks_drop(self.stream());
                        assert(norm_tok(self.current@) == TokenV::CloseParenthesis);
                        lemma_norm_tok_other(self.current@);
                        assert(self.current@ is CloseParenthesis);
                        assert(false);
                    }
                }
            }
            return Err(ParseError::ExpectedClose(self.current.clone()));
        }
        let ghost s2 = self.stream();
        self.get_next();
        let e = Expression::Parenthesis(Box::new(Parenthesis::new(inner)));
        proof {
            lemma_norm_toks_drop(s0);
            lemma_norm_toks_drop(s2);
            assert(norm_toks(s0) =~= tokseq(e@) + norm_toks(self.stream()));
            assert forall|v: ExprV, rest: Seq<TokenV>|
                primary_expected(s0, v, rest) implies e@ == v && norm_toks(self.stream())
                == rest by {
                paren_expected_facts(*old(self), v, rest, s1);
                let c = (match v {
                    ExprV::Paren(cc) => *cc,
                    _ => v,
                });
                assert(inner@ == c);
                assert(v =~~= ExprV::Paren(Box::new(c)));
                assert(e@ == v);
                assert(norm_toks(s2) == seq![TokenV::CloseParenthesis] + rest);
                lemma_concat_cancel(
                    seq![norm_tok(s2[0])],
                    norm_toks(s2.drop_first()),
                    rest,
                );
            }
        }
        Ok(e)
    }

    /// Parses a named function application: `name ( sub_expr )`, or
    /// `log ( sub_expr , sub_expr )`.
    #[verifier::rlimit(100)]
    fn parse_function(&mut self) -> (r: Result<Expression, ParseError>)
        requires
            old(self).wf(),
            old(self).stream_ok(),
            old(self).current@ is Identifier,
        ensures
            final(self).wf(),
            final(self).stream_ok(),
            final(self).lexer.chars@ == old(self).lexer.chars@,
            final(self).size() <= old(self).size(),
            match r {
                Ok(e) => {
                    &&& final(self).size() < old(self).size()
                    &&& norm_toks(old(self).stream()) == tokseq(e@) + norm_toks(
                        final(self).stream(),
                    )
                    &&& is_primary(e@) && printable(e@) && wf_expr(e@) && level(e@) == 40
                },
                Err(_) => true,
            },
            forall|v: ExprV, rest: Seq<TokenV>|
                (primary_expected(old(self).stream(), v, rest) && is_call(v)) ==> (r matches Ok(
                    res,
                ) && res@ == v && norm_toks(final(self).stream()) == rest),
        decreases old(self).size(), 0int,
    {
        let name = match &self.current {
            Token::Identifier(s) => copy_str(s.as_str()),
            _ => unreached(),
        };
        if crate::expression::render::str_eq(name.as_str(), "log") {
            let ghost s0 = self.stream();
            self.get_next();
            if !self.current.is_open_parenthesis() {
                proof {
                    assert forall|v: ExprV, rest: Seq<TokenV>|
                        !(primary_expected(s0, v, rest) && is_call(v)) by {
                        if primary_expected(s0, v, rest) && is_call(v) {
                            log_head_facts(*old(self), v, rest);
                            lemma_step(
                                self.stream(),
                                TokenV::OpenParenthesis,
                                tokseq(log_left(v)) + (seq![TokenV::Other(seq![','])] + (tokseq(
                                    log_right(v),
                                ) + (seq![TokenV::CloseParenthesis] + rest))),
                            );
                            lemma_norm_tok_other(self.current@);
                            assert(self.current@ is OpenParenthesis);
                            assert(false);
                        }
                    }
                }
                return Err(ParseError::ExpectedOpen(self.current.clone()));
            }
            let ghost s1 = self.stream();
            self.get_next();
            let ghost t1 = self.stream();
            let lhs = match self.parse_sub() {
                Ok(e) => e,
                Err(er) => {
                    proof {
                        assert forall|v: ExprV, rest: Seq<TokenV>|
                            !(primary_expected(s0, v, rest) && is_call(v)) by {
                            if primary_expected(s0, v, rest) && is_call(v) {
                                log_head_facts(*old(self), v, rest);
                                log_args_facts(s1, t1, v, rest);
                                assert(false);
                            }
                        }
                    }
                    return Err(er);
                },
            };
            if !self.current.is_comma() {
                proof {
                    assert forall|v: ExprV, rest: Seq<TokenV>|
                        !(primary_expected(s0, v, rest) && is_call(v)) by {
                        if primary_expected(s0, v, rest) && is_call(v) {
                            log_head_facts(*old(self), v, rest);
                            log_args_facts(s1, t1, v, rest);
                            assert(lhs@ == log_left(v));
                            lemma_step(
                                self.stream(),
                                TokenV::Other(seq![',']),
                                tokseq(log_right(v)) + (seq![TokenV::CloseParenthesis] + rest),
                            );
                            lemma_norm_tok_other(self.current@);
                            assert(self.current@ matches TokenV::Other(t) && t == seq![',']);
                            assert(false);
                        }
                    }
                }
                return Err(ParseError::ExpectedComma(self.current.clone()));
            }
            let ghost s2 = self.stream();
            self.get_next();
            let ghost t2 = self.stream();
            let rhs = match self.parse_sub() {
                Ok(e) => e,
                Err(er) => {
                    proof {
                        assert forall|v: ExprV, rest: Seq<TokenV>|
                            !(primary_expected(s0, v, rest) && is_call(v)) by {
                            if primary_expected(s0, v, rest) && is_call(v) {
                                log_head_facts(*old(self), v, rest);
                                log_args_facts(s1, t1, v, rest);
                                assert(lhs@ == log_left(v));
                                lemma_step(
                                    s2,
                                    TokenV::Other(seq![',']),
                                    tokseq(log_right(v)) + (seq![TokenV::CloseParenthesis]
                                        + rest),
                                );
                                assert(sub_expected(
                                    t2,
                                    log_right(v),
                                    seq![TokenV::CloseParenthesis] + rest,
                                )) by {
                                    assert((seq![TokenV::CloseParenthesis] + rest)[0]
                                        == TokenV::CloseParenthesis);
                                }
                                assert(false);
                            }
                        }
                    }
                    return Err(er);
                },
            };
            if !self.current.is_close_parenthesis() {
                proof {
                    assert forall|v: ExprV, rest: Seq<TokenV>|
                        !(primary_expected(s0, v, rest) && is_call(v)) by {
                        if primary_expected(s0, v, rest) && is_call(v) {
                            log_head_facts(*old(self), v, rest);
                            log_args_facts(s1, t1, v, rest);
                            assert(lhs@ == log_left(v));
                            lemma_step(
                                s2,
                                TokenV::Other(seq![',']),
                                tokseq(log_right(v)) + (seq![TokenV::CloseParenthesis] + rest),
                            );
                            assert(sub_expected(
                                t2,
                                log_right(v),
                                seq![TokenV::CloseParenthesis] + rest,
                            )) by {
                                assert((seq![TokenV::CloseParenthesis] + rest)[0]
                                    == TokenV::CloseParenthesis);
                            }
                            assert(rhs@ == log_right(v));
                            lemma_step(self.stream(), TokenV::CloseParenthesis, rest);
                            lemma_norm_tok_other(self.current@);
                            assert(self.current@ is CloseParenthesis);
                            assert(false);
                        }
                    }
                }
                return Err(ParseError::ExpectedClose(self.current.clone()));
            }
            let ghost s3 = self.stream();
            self.get_next();
            let g = match crate::expression::Func2::new("log", lhs, rhs) {
                Some(g) => g,
                None => unreached(),
            };
            let e = Expression::Func2(Box::new(g));
            proof {
                lemma_norm_toks_drop(s0);
                lemma_norm_toks_drop(s1);
                lemma_norm_toks_drop(s2);
                lemma_norm_toks_drop(s3);
                assert(norm_toks(s0) =~= tokseq(e@) + norm_toks(self.stream()));
                assert forall|v: ExprV, rest: Seq<TokenV>|
                    primary_expected(s0, v, rest) && is_call(v) implies e@ == v && norm_toks(
                    self.stream(),
                ) == rest by {
                    log_head_facts(*old(self), v, rest);
                    log_args_facts(s1, t1, v, rest);
                    assert(lhs@ == log_left(v));
                    lemma_step(
                        s2,
                        TokenV::Other(seq![',']),
                        tokseq(log_right(v)) + (seq![TokenV::CloseParenthesis] + rest),
                    );
                    assert(sub_expected(
                        t2,
                        log_right(v),
                        seq![TokenV::CloseParenthesis] + rest,
                    )) by {
                        assert((seq![TokenV::CloseParenthesis] + rest)[0]
                            == TokenV::CloseParenthesis);
                    }
                    assert(rhs@ == log_right(v));
                    lemma_step(s3, TokenV::CloseParenthesis, rest);
                    log_expected_facts(v);
                    assert(e@ == v);
                }
            }
            return Ok(e);
        }
        if !crate::expression::func::is_known_func(name.as_str()) {
            proof {
                assert forall|v: ExprV, rest: Seq<TokenV>|
                    !(primary_expected(old(self).stream(), v, rest) && is_call(v)) by {
                    if primary_expected(old(self).stream(), v, rest) && is_call(v) {
                        lemma_primary_head(v);
                        lemma_expected_head(*old(self), v, rest);
                        lemma_name_chars();
                        assert(name@ == call_name(v));
                        if v is Log {
                        } else {
                            func1_expected_facts(v);
                        }
                        assert(false);
                    }
                }
            }
            return Err(ParseError::UnknownName(name));
        }
        let ghost s0 = self.stream();
        self.get_next();
        if !self.current.is_open_parenthesis() {
            proof {
                assert forall|v: ExprV, rest: Seq<TokenV>|
                    !(primary_expected(s0, v, rest) && is_call(v)) by {
                    if primary_expected(s0, v, rest) && is_call(v) {
                        func1_head_facts(*old(self), v, rest, name@);
                        lemma_step(
                            self.stream(),
                            TokenV::OpenParenthesis,
                            tokseq(call_child(v)) + (seq![TokenV::CloseParenthesis] + rest),
                        );
                        lemma_norm_tok_other(self.current@);
                        assert(self.current@ is OpenParenthesis);
                        assert(false);
                    }
                }
            }
            return Err(ParseError::ExpectedOpen(self.current.clone()));
        }
        let ghost s1 = self.stream();
        self.get_next();
        let ghost t1 = self.stream();
        let inner = match self.parse_sub() {
            Ok(e) => e,
            Err(er) => {
                proof {
                    assert forall|v: ExprV, rest: Seq<TokenV>|
                        !(primary_expected(s0, v, rest) && is_call(v)) by {
                        if primary_expected(s0, v, rest) && is_call(v) {
                            func1_head_facts(*old(self), v, rest, name@);
                            func1_args_facts(s1, t1, v, rest);
                            assert(false);
                        }
                    }
                }
                return Err(er);
            },
        };
        if !self.current.is_close_parenthesis() {
            proof {
                assert forall|v: ExprV, rest: Seq<TokenV>|
                    !(primary_expected(s0, v, rest) && is_call(v)) by {
                    if primary_expected(s0, v, rest) && is_call(v) {
                        func1_head_facts(*old(self), v, rest, name@);
                        func1_args_facts(s1, t1, v, rest);
                        assert(inner@ == call_child(v));
                        lemma_step(self.stream(), TokenV::CloseParenthesis, rest);
                        lemma_norm_tok_other(self.current@);
                        assert(self.current@ is CloseParenthesis);
                        assert(false);
                    }
                }
            }
            return Err(ParseError::ExpectedClose(self.current.clone()));
        }
        let ghost s2 = self.stream();
        self.get_next();
        let f = match crate::expression::Func::new(name.as_str(), inner) {
            Some(f) => f,
            None => unreached(),
        };
        let e = Expression::Func(Box::new(f));
        proof {
            lemma_norm_toks_drop(s0);
            lemma_norm_toks_drop(s1);
            lemma_norm_toks_drop(s2);
            assert(tokseq(e@) =~= seq![TokenV::Identifier(name@), TokenV::OpenParenthesis]
                + tokseq((match e@ {
                ExprV::Sin(c) => *c,
                ExprV::Cos(c) => *c,
                ExprV::Tan(c) => *c,
                ExprV::Cot(c) => *c,
                ExprV::Sec(c) => *c,
                ExprV::Csc(c) => *c,
                ExprV::Arcsin(c) => *c,
                ExprV::Arccos(c) => *c,
                ExprV::Arctan(c) => *c,
                ExprV::Arccot(c) => *c,
                ExprV::Ln(c) => *c,
                ExprV::Sqrt(c) => *c,
                _ => e@,
            })) + seq![TokenV::CloseParenthesis]);
            assert(norm_toks(s0) =~= tokseq(e@) + norm_toks(self.stream()));
            assert forall|v: ExprV, rest: Seq<TokenV>|
                primary_expected(s0, v, rest) && is_call(v) implies e@ == v && norm_toks(
                self.stream(),
            ) == rest by {
                func1_head_facts(*old(self), v, rest, name@);
                func1_args_facts(s1, t1, v, rest);
                assert(inner@ == call_child(v));
                lemma_step(s2, TokenV::CloseParenthesis, rest);
                func1_expected_facts(v);
                assert(e@ == v);
            }
        }
        Ok(e)
    }

    /// Parses a primary expression: number, variable, constant, unary
    /// minus, parenthesized sub-expression, or named function.
    fn parse_primary(&mut self) -> (r: Result<Expression, ParseError>)
        requires
            old(self).wf(),
            old(self).stream_ok(),
        ensures
            final(self).wf(),
            final(self).stream_ok(),
            final(self).lexer.chars@ == old(self).lexer.chars@,
            final(self).size() <= old(self).size(),
            match r {
                Ok(e) => {
                    &&& final(self).size() < old(self).size()
                    &&& norm_toks(old(self).stream()) == tokseq(e@) + norm_toks(
                        final(self).stream(),
                    )
                    &&& is_primary(e@) && printable(e@) && wf_expr(e@) && level(e@) == 40
                },
                Err(_) => true,
            },
            forall|v: ExprV, rest: Seq<TokenV>|
                primary_expected(old(self).stream(), v, rest) ==> (r matches Ok(res) && res@ == v
                    && norm_toks(final(self).stream()) == rest),
        decreases old(self).size(), 1int,
    {
        let kind: u8 = match &self.current {
            Token::Number(_) => 0,
            Token::Identifier(_) => 1,
            Token::Operator(_) => 2,
            Token::OpenParenthesis => 3,
            _ => 4,
        };
        if kind == 0 {
            let e = self.parse_number();
            proof {
                assert forall|v: ExprV, rest: Seq<TokenV>|
                    primary_expected(old(self).stream(), v, rest) implies e@ == v && norm_toks(
                    self.stream(),
                ) == rest by {
                    lemma_primary_head(v);
                    lemma_expected_head(*old(self), v, rest);
                    // the lookahead is a number, so the owed primary is a literal
                    assert(v matches ExprV::Num { whole, frac });
                    let txt = (match old(self).current@ {
                        TokenV::Number(t) => t,
                        _ => Seq::empty(),
                    });
                    assert(norm_tok(old(self).current@) == TokenV::Number(
                        spec_text(num_node_of(txt)),
                    ));
                    assert(spec_text(num_node_of(txt)) == spec_text(v));
                    assert(e@ == num_node_of(txt));
                    let ew = (match e@ {
                        ExprV::Num { whole, frac } => whole,
                        _ => Seq::empty(),
                    });
                    let ef = (match e@ {
                        ExprV::Num { whole, frac } => frac,
                        _ => Seq::empty(),
                    });
                    let vw = (match v {
                        ExprV::Num { whole, frac } => whole,
                        _ => Seq::empty(),
                    });
                    let vf = (match v {
                        ExprV::Num { whole, frac } => frac,
                        _ => Seq::empty(),
                    });
                    lemma_num_text_round_trip(ew, ef);
                    lemma_num_text_round_trip(vw, vf);
                    assert(e@ == v);
                    lemma_concat_cancel(tokseq(e@), norm_toks(self.stream()), rest);
                }
            }
            Ok(e)
        } else if kind == 1 {
            let name = match &self.current {
                Token::Identifier(s) => copy_str(s.as_str()),
                _ => unreached(),
            };
            if crate::expression::render::str_eq(name.as_str(), "x") {
                let e = self.parse_variable();
                proof {
                    assert forall|v: ExprV, rest: Seq<TokenV>|
                        primary_expected(old(self).stream(), v, rest) implies e@ == v
                        && norm_toks(self.stream()) == rest by {
                        lemma_primary_head(v);
                        lemma_expected_head(*old(self), v, rest);
                        lemma_name_chars();
                        assert(v is Var);
                        lemma_concat_cancel(tokseq(e@), norm_toks(self.stream()), rest);
                    }
                }
                Ok(e)
            } else if crate::expression::render::str_eq(name.as_str(), "e")
                || crate::expression::render::str_eq(name.as_str(), "pi") {
                let e = self.parse_constant();
                proof {
                    assert forall|v: ExprV, rest: Seq<TokenV>|
                        primary_expected(old(self).stream(), v, rest) implies e@ == v
                        && norm_toks(self.stream()) == rest by {
                        lemma_primary_head(v);
                        lemma_expected_head(*old(self), v, rest);
                        lemma_name_chars();
                        assert(v is EConst || v is PiConst);
                        assert(e@ == v);
                        lemma_concat_cancel(tokseq(e@), norm_toks(self.stream()), rest);
                    }
                }
                Ok(e)
            } else {
                let r = self.parse_function();
                proof {
                    assert forall|v: ExprV, rest: Seq<TokenV>|
                        primary_expected(old(self).stream(), v, rest) implies (r matches Ok(res)
                        && res@ == v && norm_toks(self.stream()) == rest) by {
                        lemma_primary_head(v);
                        lemma_expected_head(*old(self), v, rest);
                        lemma_name_chars();
                        // the name is none of `x`, `e`, `pi`, so a call is owed
                        assert(is_call(v));
                    }
                }
                r
            }
        } else if kind == 2 {
            self.parse_unary()
        } else if kind == 3 {
            self.parse_parenthesis()
        } else {
            proof {
                assert forall|v: ExprV, rest: Seq<TokenV>|
                    !primary_expected(old(self).stream(), v, rest) by {
                    if primary_expected(old(self).stream(), v, rest) {
                        lemma_primary_head(v);
                        lemma_expected_head(*old(self), v, rest);
                        lemma_norm_tok_other(old(self).current@);
                        assert(false);
                    }
                }
            }
            Err(ParseError::ExpectedPrimary(self.current.clone()))
        }
    }

    /// Precedence climbing: absorbs operators of precedence at least
    /// `lhs_prec` into `lhs`, left-associatively, recursing for strictly
    /// tighter-binding operators on the right.
    #[verifier::rlimit(100)]
    fn parse_op_rhs(&mut self, lhs: Expression, lhs_prec: u8) -> (r: Result<
        Expression,
        ParseError,
    >)
        requires
            old(self).wf(),
            old(self).stream_ok(),
            printable(lhs@),
            wf_expr(lhs@),
            level(lhs@) >= lhs_prec,
            (match spec_precedence(old(self).current@) {
                Some(p) => p >= lhs_prec ==> p <= level(lhs@),
                None => true,
            }),
        ensures
            final(self).wf(),
            final(self).stream_ok(),
            final(self).lexer.chars@ == old(self).lexer.chars@,
            final(self).size() <= old(self).size(),
            match r {
                Ok(e) => {
                    &&& tokseq(lhs@) + norm_toks(old(self).stream()) == tokseq(e@) + norm_toks(
                        final(self).stream(),
                    )
                    &&& printable(e@) && wf_expr(e@) && level(e@) >= lhs_prec
                    &&& (match spec_precedence(final(self).current@) {
                        Some(p) => p < lhs_prec,
                        None => true,
                    })
                },
                Err(_) => true,
            },
            forall|v: ExprV, rest: Seq<TokenV>|
                climb_expected(old(self).stream(), lhs@, v, rest, lhs_prec as int) ==> (r matches
                    Ok(res) && res@ == v && norm_toks(final(self).stream()) == rest),
        decreases old(self).size(), 0int,
    {
        let mut acc = lhs;
        loop
            invariant
                self.wf(),
                self.stream_ok(),
                self.lexer.chars@ == old(self).lexer.chars@,
                self.size() <= old(self).size(),
                printable(acc@),
                wf_expr(acc@),
                level(acc@) >= lhs_prec,
                (match spec_precedence(self.current@) {
                    Some(p) => p >= lhs_prec ==> p <= level(acc@),
                    None => true,
                }),
                tokseq(lhs@) + norm_toks(old(self).stream()) == tokseq(acc@) + norm_toks(
                    self.stream(),
                ),
                forall|v: ExprV, rest: Seq<TokenV>|
                    climb_expected(old(self).stream(), lhs@, v, rest, lhs_prec as int) ==> (
                    on_left_spine(acc@, v) && norm_toks(self.stream()) == spine_suffix(acc@, v)
                        + rest),
            decreases self.size(),
        {
            let prec_opt = self.current.precedence();
            let tp = match prec_opt {
                None => {
                    proof {
                        assert(tokseq(lhs@) + norm_toks(old(self).stream()) == tokseq(acc@)
                            + norm_toks(self.stream()));
                        assert forall|v: ExprV, rest: Seq<TokenV>|
                            climb_expected(old(self).stream(), lhs@, v, rest, lhs_prec as int)
                                implies acc@ == v && norm_toks(self.stream()) == rest by {
                            if acc@ != v {
                                lemma_spine_parent(acc@, v);
                                let n = spine_parent(acc@, v);
                                assert(spine_suffix(acc@, v) + rest =~= seq![
                                    TokenV::Operator(bin_sym(n)),
                                ] + (tokseq(bin_right(n)) + (spine_suffix(n, v) + rest)));
                                lemma_step(
                                    self.stream(),
                                    TokenV::Operator(bin_sym(n)),
                                    tokseq(bin_right(n)) + (spine_suffix(n, v) + rest),
                                );
                                lemma_norm_tok_other(self.current@);
                                assert(self.current@ == TokenV::Operator(bin_sym(n)));
                                assert(false);
                            }
                            assert(spine_suffix(acc@, v) =~= Seq::<TokenV>::empty());
                        }
                    }
                    return Ok(acc);
                },
                Some(p) => {
                    if p < lhs_prec {
                        proof {
                            assert(tokseq(lhs@) + norm_toks(old(self).stream()) == tokseq(acc@)
                                + norm_toks(self.stream()));
                            assert forall|v: ExprV, rest: Seq<TokenV>|
                                climb_expected(old(self).stream(), lhs@, v, rest, lhs_prec as int)
                                    implies acc@ == v && norm_toks(self.stream()) == rest by {
                                if acc@ != v {
                                    lemma_spine_parent(acc@, v);
                                    let n = spine_parent(acc@, v);
                                    assert(spine_suffix(acc@, v) + rest =~= seq![
                                        TokenV::Operator(bin_sym(n)),
                                    ] + (tokseq(bin_right(n)) + (spine_suffix(n, v) + rest)));
                                    lemma_step(
                                        self.stream(),
                                        TokenV::Operator(bin_sym(n)),
                                        tokseq(bin_right(n)) + (spine_suffix(n, v) + rest),
                                    );
                                    lemma_norm_tok_other(self.current@);
                                    assert(self.current@ == TokenV::Operator(bin_sym(n)));
                                    assert(false);
                                }
                                assert(spine_suffix(acc@, v) =~= Seq::<TokenV>::empty());
                            }
                        }
                        return Ok(acc);
                    }
                    p
                },
            };
            let op = match &self.current {
                Token::Operator(s) => copy_str(s.as_str()),
                _ => unreached(),
            };
            let ghost s0 = self.stream();
            let ghost cur0 = self.current@;
            let ghost lhs_before = acc@;
            self.get_next();
            let ghost t1 = self.stream();
            let rhs = match self.parse_primary() {
                Ok(e) => e,
                Err(er) => {
                    proof {
                        assert forall|v: ExprV, rest: Seq<TokenV>|
                            !climb_expected(old(self).stream(), lhs@, v, rest, lhs_prec as int)
                            by {
                            if climb_expected(old(self).stream(), lhs@, v, rest, lhs_prec as int)
                             {
                                climb_step_facts(
                                    s0,
                                    lhs_before,
                                    v,
                                    rest,
                                    lhs_prec as int,
                                    tp,
                                    cur0,
                                );
                                assert(false);
                            }
                        }
                    }
                    return Err(er);
                },
            };
            let ghost t2 = self.stream();
            let ghost cur2 = self.current@;
            let ghost rhs0v = rhs@;
            let climb = match self.current.precedence() {
                Some(p2) => p2 > tp,
                None => false,
            };
            let rhs = if climb {
                match self.parse_op_rhs(rhs, tp + 1) {
                    Ok(e) => e,
                    Err(er) => {
                        proof {
                            assert forall|v: ExprV, rest: Seq<TokenV>|
                                !climb_expected(
                                    old(self).stream(),
                                    lhs@,
                                    v,
                                    rest,
                                    lhs_prec as int,
                                ) by {
                                if climb_expected(
                                    old(self).stream(),
                                    lhs@,
                                    v,
                                    rest,
                                    lhs_prec as int,
                                ) {
                                    climb_step_facts(
                                        s0,
                                        lhs_before,
                                        v,
                                        rest,
                                        lhs_prec as int,
                                        tp,
                                        cur0,
                                    );
                                    let n = spine_parent(lhs_before, v);
                                    assert(rhs@ == leftmost(bin_right(n)));
                                    assert(climb_expected(
                                        t2,
                                        rhs@,
                                        bin_right(n),
                                        spine_suffix(n, v) + rest,
                                        (tp + 1) as int,
                                    ));
                                    assert(false);
                                }
                            }
                        }
                        return Err(er);
                    },
                }
            } else {
                rhs
            };
            proof {
                reveal_strlit("+");
                reveal_strlit("-");
                reveal_strlit("*");
                reveal_strlit("/");
                reveal_strlit("**");
                assert("+"@ =~= seq!['+']);
                assert("-"@ =~= seq!['-']);
                assert("*"@ =~= seq!['*']);
                assert("/"@ =~= seq!['/']);
                assert("**"@ =~= seq!['*', '*']);
            }
            let b = match crate::expression::Binary::new(op.as_str(), acc, rhs) {
                Some(b) => b,
                None => unreached(),
            };
            let newlhs = Expression::Binary(Box::new(b));
            proof {
                assert(level(lhs_before) >= tp);
                assert(printable(rhs@) && wf_expr(rhs@) && level(rhs@) > tp);
                assert(op@ == "+"@ || op@ == "-"@ || op@ == "*"@ || op@ == "/"@ || op@ == "**"@);
                reveal_strlit("+");
                reveal_strlit("-");
                reveal_strlit("*");
                reveal_strlit("/");
                reveal_strlit("**");
                assert("+"@.len() == 1 && "+"@[0] == '+');
                assert("-"@.len() == 1 && "-"@[0] == '-');
                assert("*"@.len() == 1 && "*"@[0] == '*');
                assert("/"@.len() == 1 && "/"@[0] == '/');
                assert("**"@.len() == 2 && "**"@[0] == '*' && "**"@[1] == '*');
                assert("+"@ != "-"@);
                assert("+"@ != "*"@);
                assert("+"@ != "/"@);
                assert("-"@ != "*"@);
                assert("-"@ != "/"@);
                assert("*"@ != "/"@);
                assert("**"@ != "+"@ && "**"@ != "-"@ && "**"@ != "*"@ && "**"@ != "/"@);
                assert(op@ == "+"@ ==> tp == 10 && newlhs@ == ExprV::Add(
                    Box::new(lhs_before),
                    Box::new(rhs@),
                ));
                assert(op@ == "-"@ ==> tp == 10 && newlhs@ == ExprV::Sub(
                    Box::new(lhs_before),
                    Box::new(rhs@),
                ));
                assert(op@ == "*"@ ==> tp == 20 && newlhs@ == ExprV::Mul(
                    Box::new(lhs_before),
                    Box::new(rhs@),
                ));
                assert(op@ == "/"@ ==> tp == 20 && newlhs@ == ExprV::Div(
                    Box::new(lhs_before),
                    Box::new(rhs@),
                ));
                assert(op@ == "**"@ ==> tp == 30 && newlhs@ == ExprV::Pow(
                    Box::new(lhs_before),
                    Box::new(rhs@),
                ));
                assert(printable(newlhs@));
                assert(wf_expr(newlhs@));
                assert(level(newlhs@) == tp);
                lemma_norm_toks_drop(s0);
                assert(tokseq(newlhs@) =~= tokseq(lhs_before) + seq![TokenV::Operator(op@)]
                    + tokseq((match newlhs@ {
                    ExprV::Add(l, r) => *r,
                    ExprV::Sub(l, r) => *r,
                    ExprV::Mul(l, r) => *r,
                    ExprV::Div(l, r) => *r,
                    ExprV::Pow(l, r) => *r,
                    _ => newlhs@,
                })));
                assert(tokseq(lhs@) + norm_toks(old(self).stream()) =~= tokseq(newlhs@)
                    + norm_toks(self.stream()));
                assert forall|v: ExprV, rest: Seq<TokenV>|
                    climb_expected(old(self).stream(), lhs@, v, rest, lhs_prec as int) implies (
                    on_left_spine(newlhs@, v) && norm_toks(self.stream()) == spine_suffix(
                        newlhs@,
                        v,
                    ) + rest) by {
                    climb_step_facts(s0, lhs_before, v, rest, lhs_prec as int, tp, cur0);
                    let n = spine_parent(lhs_before, v);
                    let right = bin_right(n);
                    let lm = leftmost(right);
                    assert(rhs0v == lm);
                    assert(norm_toks(t2) == spine_suffix(lm, right) + (spine_suffix(n, v)
                        + rest));
                    if climb {
                        assert(climb_expected(
                            t2,
                            rhs0v,
                            right,
                            spine_suffix(n, v) + rest,
                            (tp + 1) as int,
                        ));
                        assert(rhs@ == right);
                        assert(norm_toks(self.stream()) == spine_suffix(n, v) + rest);
                    } else {
                        if lm != right {
                            lemma_spine_parent(lm, right);
                            let n2 = spine_parent(lm, right);
                            assert(spine_suffix(lm, right) + (spine_suffix(n, v) + rest) =~= seq![
                                TokenV::Operator(bin_sym(n2)),
                            ] + (tokseq(bin_right(n2)) + (spine_suffix(n2, right) + (
                            spine_suffix(n, v) + rest))));
                            lemma_step(
                                t2,
                                TokenV::Operator(bin_sym(n2)),
                                tokseq(bin_right(n2)) + (spine_suffix(n2, right) + (
                                spine_suffix(n, v) + rest)),
                            );
                            lemma_norm_tok_other(cur2);
                            assert(cur2 == TokenV::Operator(bin_sym(n2)));
                            assert(level(n2) >= level(right));
                            assert(false);
                        }
                        assert(rhs@ == right);
                        assert(spine_suffix(lm, right) =~= Seq::<TokenV>::empty());
                        assert(norm_toks(self.stream()) == spine_suffix(n, v) + rest);
                    }
                    assert(op@ == bin_sym(n));
                    assert(rhs@ == bin_right(n));
                    if op@ == "+"@ {
                        assert(n is Add);
                        assert(n =~~= ExprV::Add(Box::new(lhs_before), Box::new(rhs@)));
                    } else if op@ == "-"@ {
                        assert(n is Sub);
                        assert(n =~~= ExprV::Sub(Box::new(lhs_before), Box::new(rhs@)));
                    } else if op@ == "*"@ {
                        assert(n is Mul);
                        assert(n =~~= ExprV::Mul(Box::new(lhs_before), Box::new(rhs@)));
                    } else if op@ == "/"@ {
                        assert(n is Div);
                        assert(n =~~= ExprV::Div(Box::new(lhs_before), Box::new(rhs@)));
                    } else {
                        assert(n is Pow);
                        assert(n =~~= ExprV::Pow(Box::new(lhs_before), Box::new(rhs@)));
                    }
                    assert(newlhs@ == n);
                }
            }
            acc = newlhs;
        }
    }

    /// Parses a sub-expression: a primary followed by any binary-operator
    /// tail.
    pub fn parse_sub(&mut self) -> (r: Result<Expression, ParseError>)
        requires
            old(self).wf(),
            old(self).stream_ok(),
        ensures
            final(self).wf(),
            final(self).stream_ok(),
            final(self).lexer.chars@ == old(self).lexer.chars@,
            final(self).size() <= old(self).size(),
            match r {
                Ok(e) => {
                    &&& norm_toks(old(self).stream()) == tokseq(e@) + norm_toks(
                        final(self).stream(),
                    )
                    &&& printable(e@) && wf_expr(e@)
                    &&& spec_precedence(final(self).current@) is None
                },
                Err(_) => true,
            },
            forall|v: ExprV, rest: Seq<TokenV>|
                sub_expected(old(self).stream(), v, rest) ==> (r matches Ok(res) && res@ == v
                    && norm_toks(final(self).stream()) == rest),
        decreases old(self).size(), 2int,
    {
        let lhs = match self.parse_primary() {
            Ok(e) => e,
            Err(er) => {
                proof {
                    assert forall|v: ExprV, rest: Seq<TokenV>|
                        !sub_expected(old(self).stream(), v, rest) by {
                        if sub_expected(old(self).stream(), v, rest) {
                            lemma_leftmost(v);
                            lemma_spine_tokens(leftmost(v), v);
                            assert(tokseq(v) + rest =~= tokseq(leftmost(v)) + (spine_suffix(
                                leftmost(v),
                                v,
                            ) + rest));
                            assert(primary_expected(
                                old(self).stream(),
                                leftmost(v),
                                spine_suffix(leftmost(v), v) + rest,
                            ));
                            assert(false);
                        }
                    }
                }
                return Err(er);
            },
        };
        let ghost t1 = self.stream();
        let ghost lhsv = lhs@;
        match self.parse_op_rhs(lhs, 0) {
            Ok(e) => {
                proof {
                    assert forall|v: ExprV, rest: Seq<TokenV>|
                        sub_expected(old(self).stream(), v, rest) implies e@ == v && norm_toks(
                        self.stream(),
                    ) == rest by {
                        lemma_leftmost(v);
                        lemma_spine_tokens(leftmost(v), v);
                        assert(tokseq(v) + rest =~= tokseq(leftmost(v)) + (spine_suffix(
                            leftmost(v),
                            v,
                        ) + rest));
                        assert(primary_expected(
                            old(self).stream(),
                            leftmost(v),
                            spine_suffix(leftmost(v), v) + rest,
                        ));
                        assert(lhsv == leftmost(v));
                        assert(level(v) >= 0);
                        assert(climb_expected(t1, lhsv, v, rest, 0));
                    }
                }
                Ok(e)
            },
            Err(er) => {
                proof {
                    assert forall|v: ExprV, rest: Seq<TokenV>|
                        !sub_expected(old(self).stream(), v, rest) by {
                        if sub_expected(old(self).stream(), v, rest) {
                            lemma_leftmost(v);
                            lemma_spine_tokens(leftmost(v), v);
                            assert(tokseq(v) + rest =~= tokseq(leftmost(v)) + (spine_suffix(
                                leftmost(v),
                                v,
                            ) + rest));
                            assert(primary_expected(
                                old(self).stream(),
                                leftmost(v),
                                spine_suffix(leftmost(v), v) + rest,
                            ));
                            assert(lhsv == leftmost(v));
                            assert(level(v) >= 0);
                            assert(climb_expected(t1, lhsv, v, rest, 0));
                            assert(false);
                        }
                    }
                }
                Err(er)
            },
        }
    }

    /// Parses a complete expression: a sub-expression followed by end of
    /// input.  Failure is atomic: no partial tree escapes.
    pub fn parse(&mut self) -> (r: Result<Expression, ParseError>)
        requires
            old(self).wf(),
            old(self).stream_ok(),
        ensures
            final(self).wf(),
            final(self).stream_ok(),
            final(self).lexer.chars@ == old(self).lexer.chars@,
            match r {
                Ok(e) => {
                    &&& norm_toks(old(self).stream()) == tokseq(e@)
                    &&& final(self).stream().len() == 0
                    &&& printable(e@) && wf_expr(e@)
                },
                Err(_) => true,
            },
            forall|v: ExprV|
                (printable(v) && wf_expr(v) && norm_toks(old(self).stream()) == tokseq(v)) ==> (
                r matches Ok(res) && res@ == v && final(self).stream().len() == 0),
        decreases old(self).size(), 3int,
    {
        let result = match self.parse_sub() {
            Ok(e) => e,
            Err(er) => {
                proof {
                    assert forall|v: ExprV|
                        !(printable(v) && wf_expr(v) && norm_toks(old(self).stream()) == tokseq(
                            v,
                        )) by {
                        if printable(v) && wf_expr(v) && norm_toks(old(self).stream()) == tokseq(
                            v,
                        ) {
                            assert(tokseq(v) + Seq::<TokenV>::empty() =~= tokseq(v));
                            assert(sub_expected(old(self).stream(), v, Seq::empty()));
                            assert(false);
                        }
                    }
                }
                return Err(er);
            },
        };
        if !self.current.is_eof() {
            proof {
                assert forall|v: ExprV|
                    !(printable(v) && wf_expr(v) && norm_toks(old(self).stream()) == tokseq(v))
                    by {
                    if printable(v) && wf_expr(v) && norm_toks(old(self).stream()) == tokseq(v) {
                        assert(tokseq(v) + Seq::<TokenV>::empty() =~= tokseq(v));
                        assert(sub_expected(old(self).stream(), v, Seq::empty()));
                        assert(result@ == v);
                        assert(norm_toks(self.stream()) == Seq::<TokenV>::empty());
                        assert(norm_toks(self.stream()).len() == self.stream().len());
                        assert(self.stream().len() == 0);
                        assert(false);
                    }
                }
            }
            return Err(ParseError::TrailingInput(self.current.clone()));
        }
        proof {
            assert(norm_toks(self.stream()) =~= Seq::<TokenV>::empty());
            assert forall|v: ExprV|
                (printable(v) && wf_expr(v) && norm_toks(old(self).stream()) == tokseq(v))
                    implies result@ == v && self.stream().len() == 0 by {
                assert(tokseq(v) + Seq::<TokenV>::empty() =~= tokseq(v));
                assert(sub_expected(old(self).stream(), v, Seq::empty()));
                assert(norm_toks(self.stream()).len() == self.stream().len());
            }
        }
        Ok(result)
    }
}

/// Parses an expression text into its tree.  The contract is exact in
/// both directions: on success the input's (non-whitespace,
/// literal-normalized) tokens are exactly the tree's rendering, the tree's
/// grouping agrees with operator precedence, and the tree is well formed;
/// and whenever the input's tokens are the rendering of some printable,
/// well-formed tree, parsing is owed to succeed and return that very tree.
pub fn parse(expr: &str) -> (r: Result<Expression, ParseError>)
    ensures
        match r {
            Ok(e) => {
                &&& norm_toks(spec_stream_of(expr@)) == tokseq(e@)
                &&& printable(e@) && wf_expr(e@)
            },
            Err(_) => true,
        },
        forall|v: ExprV|
            (printable(v) && wf_expr(v) && norm_toks(spec_stream_of(expr@)) == tokseq(v)) ==> (r
                matches Ok(res) && res@ == v),
{
    let mut parser = Parser::new(expr);
    parser.parse()
}


// ---------------------------------------------------------------------------
// The left spine of a tree, as precedence climbing consumes it.
// ---------------------------------------------------------------------------
/// `lhs` is a node on the left spine of `e`: `e` itself, or reached from
/// `e` by descending into left operands of binary nodes.
pub open spec fn on_left_spine(lhs: ExprV, e: ExprV) -> bool
    decreases e,
{
    lhs == e || match e {
        ExprV::Add(l, _) => on_left_spine(lhs, *l),
        ExprV::Sub(l, _) => on_left_spine(lhs, *l),
        ExprV::Mul(l, _) => on_left_spine(lhs, *l),
        ExprV::Div(l, _) => on_left_spine(lhs, *l),
        ExprV::Pow(l, _) => on_left_spine(lhs, *l),
        _ => false,
    }
}

/// The tokens of `e` that follow the left-spine node `lhs`.
pub open spec fn spine_suffix(lhs: ExprV, e: ExprV) -> Seq<TokenV>
    decreases e,
{
    if lhs == e {
        Seq::empty()
    } else {
        match e {
            ExprV::Add(l, r) => spine_suffix(lhs, *l) + seq![TokenV::Operator("+"@)] + tokseq(*r),
            ExprV::Sub(l, r) => spine_suffix(lhs, *l) + seq![TokenV::Operator("-"@)] + tokseq(*r),
            ExprV::Mul(l, r) => spine_suffix(lhs, *l) + seq![TokenV::Operator("*"@)] + tokseq(*r),
            ExprV::Div(l, r) => spine_suffix(lhs, *l) + seq![TokenV::Operator("/"@)] + tokseq(*r),
            ExprV::Pow(l, r) => spine_suffix(lhs, *l) + seq![TokenV::Operator("**"@)] + tokseq(*r),
            _ => Seq::empty(),
        }
    }
}

/// The lowest binary node of `e` whose left operand is `lhs` (meaningful
/// when `lhs` sits strictly below `e` on the left spine).
pub open spec fn spine_parent(lhs: ExprV, e: ExprV) -> ExprV
    decreases e,
{
    match e {
        ExprV::Add(l, r) => if *l == lhs { e } else { spine_parent(lhs, *l) },
        ExprV::Sub(l, r) => if *l == lhs { e } else { spine_parent(lhs, *l) },
        ExprV::Mul(l, r) => if *l == lhs { e } else { spine_parent(lhs, *l) },
        ExprV::Div(l, r) => if *l == lhs { e } else { spine_parent(lhs, *l) },
        ExprV::Pow(l, r) => if *l == lhs { e } else { spine_parent(lhs, *l) },
        _ => e,
    }
}

/// Left operand of a binary node (the node itself otherwise).
pub open spec fn bin_left(n: ExprV) -> ExprV {
    match n {
        ExprV::Add(l, _) => *l,
        ExprV::Sub(l, _) => *l,
        ExprV::Mul(l, _) => *l,
        ExprV::Div(l, _) => *l,
        ExprV::Pow(l, _) => *l,
        _ => n,
    }
}

/// Right operand of a binary node (the node itself otherwise).
pub open spec fn bin_right(n: ExprV) -> ExprV {
    match n {
        ExprV::Add(_, r) => *r,
        ExprV::Sub(_, r) => *r,
        ExprV::Mul(_, r) => *r,
        ExprV::Div(_, r) => *r,
        ExprV::Pow(_, r) => *r,
        _ => n,
    }
}

/// Operator symbol of a binary node.
pub open spec fn bin_sym(n: ExprV) -> Seq<char> {
    match n {
        ExprV::Add(_, _) => "+"@,
        ExprV::Sub(_, _) => "-"@,
        ExprV::Mul(_, _) => "*"@,
        ExprV::Div(_, _) => "/"@,
        ExprV::Pow(_, _) => "**"@,
        _ => Seq::empty(),
    }
}

/// A binary node?
pub open spec fn is_binary(n: ExprV) -> bool {
    ||| n is Add
    ||| n is Sub
    ||| n is Mul
    ||| n is Div
    ||| n is Pow
}

/// The leftmost primary of `e`.
pub open spec fn leftmost(e: ExprV) -> ExprV
    decreases e,
{
    match e {
        ExprV::Add(l, _) => leftmost(*l),
        ExprV::Sub(l, _) => leftmost(*l),
        ExprV::Mul(l, _) => leftmost(*l),
        ExprV::Div(l, _) => leftmost(*l),
        ExprV::Pow(l, _) => leftmost(*l),
        _ => e,
    }
}

/// What follows a sub-expression cannot extend its parse at minimum
/// precedence `min_prec`: the next token, if any, is no operator that
/// binds at least that tightly.
pub open spec fn no_tail(rest: Seq<TokenV>, min_prec: int) -> bool {
    rest.len() == 0 || match spec_precedence(rest[0]) {
        Some(p) => (p as int) < min_prec,
        None => true,
    }
}

/// Every tree renders to at least one token.
pub proof fn lemma_tokseq_len(v: ExprV)
    ensures
        tokseq(v).len() >= 1,
    decreases v,
{
    match v {
        ExprV::Add(l, r) => lemma_tokseq_len(*l),
        ExprV::Sub(l, r) => lemma_tokseq_len(*l),
        ExprV::Mul(l, r) => lemma_tokseq_len(*l),
        ExprV::Div(l, r) => lemma_tokseq_len(*l),
        ExprV::Pow(l, r) => lemma_tokseq_len(*l),
        ExprV::Neg(c) => {},
        _ => {},
    }
}

/// The rendering splits at any left-spine node.
pub proof fn lemma_spine_tokens(lhs: ExprV, e: ExprV)
    requires
        on_left_spine(lhs, e),
    ensures
        tokseq(e) == tokseq(lhs) + spine_suffix(lhs, e),
    decreases e,
{
    if lhs == e {
        assert(tokseq(e) =~= tokseq(lhs) + spine_suffix(lhs, e));
    } else {
        match e {
            ExprV::Add(l, r) => lemma_spine_tokens(lhs, *l),
            ExprV::Sub(l, r) => lemma_spine_tokens(lhs, *l),
            ExprV::Mul(l, r) => lemma_spine_tokens(lhs, *l),
            ExprV::Div(l, r) => lemma_spine_tokens(lhs, *l),
            ExprV::Pow(l, r) => lemma_spine_tokens(lhs, *l),
            _ => {},
        }
        assert(tokseq(e) =~= tokseq(lhs) + spine_suffix(lhs, e));
    }
}

/// The leftmost primary of a printable tree is a printable primary on its
/// left spine.
pub proof fn lemma_leftmost(e: ExprV)
    requires
        printable(e),
        wf_expr(e),
    ensures
        is_primary(leftmost(e)),
        printable(leftmost(e)),
        wf_expr(leftmost(e)),
        on_left_spine(leftmost(e), e),
    decreases e,
{
    match e {
        ExprV::Add(l, r) => lemma_leftmost(*l),
        ExprV::Sub(l, r) => lemma_leftmost(*l),
        ExprV::Mul(l, r) => lemma_leftmost(*l),
        ExprV::Div(l, r) => lemma_leftmost(*l),
        ExprV::Pow(l, r) => lemma_leftmost(*l),
        _ => {},
    }
}

/// Cancelling a shared prefix of two equal concatenations.
pub proof fn lemma_concat_cancel(a: Seq<TokenV>, b: Seq<TokenV>, c: Seq<TokenV>)
    requires
        a + b == a + c,
    ensures
        b == c,
{
    assert(b =~= (a + b).skip(a.len() as int));
    assert(c =~= (a + c).skip(a.len() as int));
}

/// The concrete characters of every name and operator the grammar knows.
pub proof fn lemma_name_chars()
    ensures
        "x"@ == seq!['x'],
        "e"@ == seq!['e'],
        "pi"@ == seq!['p', 'i'],
        "sin"@ == seq!['s', 'i', 'n'],
        "cos"@ == seq!['c', 'o', 's'],
        "tan"@ == seq!['t', 'a', 'n'],
        "cot"@ == seq!['c', 'o', 't'],
        "sec"@ == seq!['s', 'e', 'c'],
        "csc"@ == seq!['c', 's', 'c'],
        "arcsin"@ == seq!['a', 'r', 'c', 's', 'i', 'n'],
        "arccos"@ == seq!['a', 'r', 'c', 'c', 'o', 's'],
        "arctan"@ == seq!['a', 'r', 'c', 't', 'a', 'n'],
        "arccot"@ == seq!['a', 'r', 'c', 'c', 'o', 't'],
        "ln"@ == seq!['l', 'n'],
        "sqrt"@ == seq!['s', 'q', 'r', 't'],
        "log"@ == seq!['l', 'o', 'g'],
        "+"@ == seq!['+'],
        "-"@ == seq!['-'],
        "*"@ == seq!['*'],
        "/"@ == seq!['/'],
        "**"@ == seq!['*', '*'],
        "x"@.len() == 1,
        "x"@[0] == 'x',
        "e"@.len() == 1,
        "e"@[0] == 'e',
        "pi"@.len() == 2,
        "pi"@[0] == 'p',
        "pi"@[1] == 'i',
        "sin"@.len() == 3,
        "sin"@[0] == 's',
        "sin"@[1] == 'i',
        "sin"@[2] == 'n',
        "cos"@.len() == 3,
        "cos"@[0] == 'c',
        "cos"@[1] == 'o',
        "cos"@[2] == 's',
        "tan"@.len() == 3,
        "tan"@[0] == 't',
        "tan"@[1] == 'a',
        "tan"@[2] == 'n',
        "cot"@.len() == 3,
        "cot"@[0] == 'c',
        "cot"@[1] == 'o',
        "cot"@[2] == 't',
        "sec"@.len() == 3,
        "sec"@[0] == 's',
        "sec"@[1] == 'e',
        "sec"@[2] == 'c',
        "csc"@.len() == 3,
        "csc"@[0] == 'c',
        "csc"@[1] == 's',
        "csc"@[2] == 'c',
        "arcsin"@.len() == 6,
        "arcsin"@[0] == 'a',
        "arcsin"@[1] == 'r',
        "arcsin"@[2] == 'c',
        "arcsin"@[3] == 's',
        "arcsin"@[4] == 'i',
        "arcsin"@[5] == 'n',
        "arccos"@.len() == 6,
        "arccos"@[0] == 'a',
        "arccos"@[1] == 'r',
        "arccos"@[2] == 'c',
        "arccos"@[3] == 'c',
        "arccos"@[4] == 'o',
        "arccos"@[5] == 's',
        "arctan"@.len() == 6,
        "arctan"@[0] == 'a',
        "arctan"@[1] == 'r',
        "arctan"@[2] == 'c',
        "arctan"@[3] == 't',
        "arctan"@[4] == 'a',
        "arctan"@[5] == 'n',
        "arccot"@.len() == 6,
        "arccot"@[0] == 'a',
        "arccot"@[1] == 'r',
        "arccot"@[2] == 'c',
        "arccot"@[3] == 'c',
        "arccot"@[4] == 'o',
        "arccot"@[5] == 't',
        "ln"@.len() == 2,
        "ln"@[0] == 'l',
        "ln"@[1] == 'n',
        "sqrt"@.len() == 4,
        "sqrt"@[0] == 's',
        "sqrt"@[1] == 'q',
        "sqrt"@[2] == 'r',
        "sqrt"@[3] == 't',
        "log"@.len() == 3,
        "log"@[0] == 'l',
        "log"@[1] == 'o',
        "log"@[2] == 'g',
        "+"@.len() == 1,
        "+"@[0] == '+',
        "-"@.len() == 1,
        "-"@[0] == '-',
        "*"@.len() == 1,
        "*"@[0] == '*',
        "/"@.len() == 1,
        "/"@[0] == '/',
        "**"@.len() == 2,
        "**"@[0] == '*',
        "**"@[1] == '*',
{
    reveal_strlit("x");
    reveal_strlit("e");
    reveal_strlit("pi");
    reveal_strlit("sin");
    reveal_strlit("cos");
    reveal_strlit("tan");
    reveal_strlit("cot");
    reveal_strlit("sec");
    reveal_strlit("csc");
    reveal_strlit("arcsin");
    reveal_strlit("arccos");
    reveal_strlit("arctan");
    reveal_strlit("arccot");
    reveal_strlit("ln");
    reveal_strlit("sqrt");
    reveal_strlit("log");
    reveal_strlit("+");
    reveal_strlit("-");
    reveal_strlit("*");
    reveal_strlit("/");
    reveal_strlit("**");
    assert("x"@ =~= seq!['x']);
    assert("e"@ =~= seq!['e']);
    assert("pi"@ =~= seq!['p', 'i']);
    assert("sin"@ =~= seq!['s', 'i', 'n']);
    assert("cos"@ =~= seq!['c', 'o', 's']);
    assert("tan"@ =~= seq!['t', 'a', 'n']);
    assert("cot"@ =~= seq!['c', 'o', 't']);
    assert("sec"@ =~= seq!['s', 'e', 'c']);
    assert("csc"@ =~= seq!['c', 's', 'c']);
    assert("arcsin"@ =~= seq!['a', 'r', 'c', 's', 'i', 'n']);
    assert("arccos"@ =~= seq!['a', 'r', 'c', 'c', 'o', 's']);
    assert("arctan"@ =~= seq!['a', 'r', 'c', 't', 'a', 'n']);
    assert("arccot"@ =~= seq!['a', 'r', 'c', 'c', 'o', 't']);
    assert("ln"@ =~= seq!['l', 'n']);
    assert("sqrt"@ =~= seq!['s', 'q', 'r', 't']);
    assert("log"@ =~= seq!['l', 'o', 'g']);
    assert("+"@ =~= seq!['+']);
    assert("-"@ =~= seq!['-']);
    assert("*"@ =~= seq!['*']);
    assert("/"@ =~= seq!['/']);
    assert("**"@ =~= seq!['*', '*']);
}


/// One step up the left spine: the binary node directly above `lhs`, its
/// operator token, and its right operand, with the precedence facts the
/// climbing loop turns on.
pub proof fn lemma_spine_parent(lhs: ExprV, e: ExprV)
    requires
        on_left_spine(lhs, e),
        lhs != e,
        printable(e),
        wf_expr(e),
    ensures
        ({
            let n = spine_parent(lhs, e);
            &&& is_binary(n)
            &&& bin_left(n) == lhs
            &&& on_left_spine(n, e)
            &&& printable(n)
            &&& wf_expr(n)
            &&& spine_suffix(lhs, e) == seq![TokenV::Operator(bin_sym(n))] + tokseq(bin_right(n))
                + spine_suffix(n, e)
            &&& spec_precedence(TokenV::Operator(bin_sym(n))) == Some(level(n) as u8)
            &&& level(lhs) >= level(n)
            &&& printable(bin_right(n))
            &&& wf_expr(bin_right(n))
            &&& level(bin_right(n)) > level(n)
            &&& level(n) >= level(e)
        }),
    decreases e,
{
    lemma_name_chars();
    match e {
        ExprV::Add(l, r) => {
            if *l == lhs {
                assert(bin_sym(e) =~= seq!['+']);
                assert(spec_precedence(TokenV::Operator(bin_sym(e))) == Some(10u8));
                assert(spine_suffix(lhs, *l) =~= Seq::<TokenV>::empty());
                assert(spine_suffix(spine_parent(lhs, e), e) =~= Seq::<TokenV>::empty());
                assert(spine_suffix(lhs, e) =~= seq![TokenV::Operator(bin_sym(e))] + tokseq(*r)
                    + spine_suffix(e, e));
            } else {
                lemma_spine_parent(lhs, *l);
                let n = spine_parent(lhs, *l);
                lemma_spine_tokens(n, *l);
                lemma_tokseq_len(n);
                lemma_tokseq_len(*r);
                assert(tokseq(e) == tokseq(*l) + seq![TokenV::Operator(bin_sym(e))] + tokseq(*r));
                assert(tokseq(e).len() > tokseq(*l).len());
                assert(tokseq(*l).len() >= tokseq(n).len());
                assert(n != e);
                assert(spine_suffix(n, e) == spine_suffix(n, *l) + seq![
                    TokenV::Operator(bin_sym(e)),
                ] + tokseq(*r));
                assert(spine_suffix(lhs, e) =~= seq![TokenV::Operator(bin_sym(n))] + tokseq(
                    bin_right(n),
                ) + spine_suffix(n, e));
            }
        },
        ExprV::Sub(l, r) => {
            if *l == lhs {
                assert(!(bin_sym(e) =~= seq!['+'])) by {
                    assert(bin_sym(e)[0] == '-');
                    assert(seq!['+'][0] == '+');
                }
                assert(bin_sym(e) =~= seq!['-']);
                assert(spec_precedence(TokenV::Operator(bin_sym(e))) == Some(10u8));
                assert(spine_suffix(lhs, *l) =~= Seq::<TokenV>::empty());
                assert(spine_suffix(spine_parent(lhs, e), e) =~= Seq::<TokenV>::empty());
                assert(spine_suffix(lhs, e) =~= seq![TokenV::Operator(bin_sym(e))] + tokseq(*r)
                    + spine_suffix(e, e));
            } else {
                lemma_spine_parent(lhs, *l);
                let n = spine_parent(lhs, *l);
                lemma_spine_tokens(n, *l);
                lemma_tokseq_len(n);
                lemma_tokseq_len(*r);
                assert(tokseq(e) == tokseq(*l) + seq![TokenV::Operator(bin_sym(e))] + tokseq(*r));
                assert(tokseq(e).len() > tokseq(*l).len());
                assert(tokseq(*l).len() >= tokseq(n).len());
                assert(n != e);
                assert(spine_suffix(n, e) == spine_suffix(n, *l) + seq![
                    TokenV::Operator(bin_sym(e)),
                ] + tokseq(*r));
                assert(spine_suffix(lhs, e) =~= seq![TokenV::Operator(bin_sym(n))] + tokseq(
                    bin_right(n),
                ) + spine_suffix(n, e));
            }
        },
        ExprV::Mul(l, r) => {
            if *l == lhs {
                assert(!(bin_sym(e) =~= seq!['+'])) by {
                    assert(bin_sym(e)[0] == '*');
                    assert(seq!['+'][0] == '+');
                }
                assert(!(bin_sym(e) =~= seq!['-'])) by {
                    assert(bin_sym(e)[0] == '*');
                    assert(seq!['-'][0] == '-');
                }
                assert(bin_sym(e) =~= seq!['*']);
                assert(spec_precedence(TokenV::Operator(bin_sym(e))) == Some(20u8));
                assert(spine_suffix(lhs, *l) =~= Seq::<TokenV>::empty());
                assert(spine_suffix(spine_parent(lhs, e), e) =~= Seq::<TokenV>::empty());
                assert(spine_suffix(lhs, e) =~= seq![TokenV::Operator(bin_sym(e))] + tokseq(*r)
                    + spine_suffix(e, e));
            } else {
                lemma_spine_parent(lhs, *l);
                let n = spine_parent(lhs, *l);
                lemma_spine_tokens(n, *l);
                lemma_tokseq_len(n);
                lemma_tokseq_len(*r);
                assert(tokseq(e) == tokseq(*l) + seq![TokenV::Operator(bin_sym(e))] + tokseq(*r));
                assert(tokseq(e).len() > tokseq(*l).len());
                assert(tokseq(*l).len() >= tokseq(n).len());
                assert(n != e);
                assert(spine_suffix(n, e) == spine_suffix(n, *l) + seq![
                    TokenV::Operator(bin_sym(e)),
                ] + tokseq(*r));
                assert(spine_suffix(lhs, e) =~= seq![TokenV::Operator(bin_sym(n))] + tokseq(
                    bin_right(n),
                ) + spine_suffix(n, e));
            }
        },
        ExprV::Div(l, r) => {
            if *l == lhs {
                assert(!(bin_sym(e) =~= seq!['+'])) by {
                    assert(bin_sym(e)[0] == '/');
                    assert(seq!['+'][0] == '+');
                }
                assert(!(bin_sym(e) =~= seq!['-'])) by {
                    assert(bin_sym(e)[0] == '/');
                    assert(seq!['-'][0] == '-');
                }
                assert(!(bin_sym(e) =~= seq!['*'])) by {
                    assert(bin_sym(e)[0] == '/');
                    assert(seq!['*'][0] == '*');
                }
                assert(bin_sym(e) =~= seq!['/']);
                assert(spec_precedence(TokenV::Operator(bin_sym(e))) == Some(20u8));
                assert(spine_suffix(lhs, *l) =~= Seq::<TokenV>::empty());
                assert(spine_suffix(spine_parent(lhs, e), e) =~= Seq::<TokenV>::empty());
                assert(spine_suffix(lhs, e) =~= seq![TokenV::Operator(bin_sym(e))] + tokseq(*r)
                    + spine_suffix(e, e));
            } else {
                lemma_spine_parent(lhs, *l);
                let n = spine_parent(lhs, *l);
                lemma_spine_tokens(n, *l);
                lemma_tokseq_len(n);
                lemma_tokseq_len(*r);
                assert(tokseq(e) == tokseq(*l) + seq![TokenV::Operator(bin_sym(e))] + tokseq(*r));
                assert(tokseq(e).len() > tokseq(*l).len());
                assert(tokseq(*l).len() >= tokseq(n).len());
                assert(n != e);
                assert(spine_suffix(n, e) == spine_suffix(n, *l) + seq![
                    TokenV::Operator(bin_sym(e)),
                ] + tokseq(*r));
                assert(spine_suffix(lhs, e) =~= seq![TokenV::Operator(bin_sym(n))] + tokseq(
                    bin_right(n),
                ) + spine_suffix(n, e));
            }
        },
        ExprV::Pow(l, r) => {
            if *l == lhs {
                assert(bin_sym(e).len() == 2);
                assert(!(bin_sym(e) =~= seq!['+'])) by {
                    assert(seq!['+'].len() == 1);
                }
                assert(!(bin_sym(e) =~= seq!['-'])) by {
                    assert(seq!['-'].len() == 1);
                }
                assert(!(bin_sym(e) =~= seq!['*'])) by {
                    assert(seq!['*'].len() == 1);
                }
                assert(!(bin_sym(e) =~= seq!['/'])) by {
                    assert(seq!['/'].len() == 1);
                }
                assert(bin_sym(e) =~= seq!['*', '*']);
                assert(spec_precedence(TokenV::Operator(bin_sym(e))) == Some(30u8));
                assert(spine_suffix(lhs, *l) =~= Seq::<TokenV>::empty());
                assert(spine_suffix(spine_parent(lhs, e), e) =~= Seq::<TokenV>::empty());
                assert(spine_suffix(lhs, e) =~= seq![TokenV::Operator(bin_sym(e))] + tokseq(*r)
                    + spine_suffix(e, e));
            } else {
                lemma_spine_parent(lhs, *l);
                let n = spine_parent(lhs, *l);
                lemma_spine_tokens(n, *l);
                lemma_tokseq_len(n);
                lemma_tokseq_len(*r);
                assert(tokseq(e) == tokseq(*l) + seq![TokenV::Operator(bin_sym(e))] + tokseq(*r));
                assert(tokseq(e).len() > tokseq(*l).len());
                assert(tokseq(*l).len() >= tokseq(n).len());
                assert(n != e);
                assert(spine_suffix(n, e) == spine_suffix(n, *l) + seq![
                    TokenV::Operator(bin_sym(e)),
                ] + tokseq(*r));
                assert(spine_suffix(lhs, e) =~= seq![TokenV::Operator(bin_sym(n))] + tokseq(
                    bin_right(n),
                ) + spine_suffix(n, e));
            }
        },
        _ => {},
    }
}


/// What an owed parenthesized parse forces: the tree is a grouping node,
/// and after the opening token the inner sub-expression parse is owed,
/// delimited by the closing parenthesis.
proof fn paren_expected_facts(p: Parser, v: ExprV, rest: Seq<TokenV>, s1: Seq<TokenV>)
    requires
        p.wf(),
        p.current@ is OpenParenthesis,
        primary_expected(p.stream(), v, rest),
        s1 == p.stream().drop_first(),
    ensures
        v is Paren,
        sub_expected(
            s1,
            (match v {
                ExprV::Paren(cc) => *cc,
                _ => v,
            }),
            seq![TokenV::CloseParenthesis] + rest,
        ),
{
    lemma_primary_head(v);
    lemma_expected_head(p, v, rest);
    assert(v is Paren);
    let c = (match v {
        ExprV::Paren(cc) => *cc,
        _ => v,
    });
    assert(tokseq(v) == seq![TokenV::OpenParenthesis] + tokseq(c) + seq![
        TokenV::CloseParenthesis,
    ]);
    assert(tokseq(v).drop_first() =~= tokseq(c) + seq![TokenV::CloseParenthesis]);
    assert(tokseq(v).drop_first() + rest =~= tokseq(c) + (seq![TokenV::CloseParenthesis] + rest));
    assert(no_tail(seq![TokenV::CloseParenthesis] + rest, 0)) by {
        assert((seq![TokenV::CloseParenthesis] + rest)[0] == TokenV::CloseParenthesis);
    }
}

/// The name a call node is written with.
pub open spec fn call_name(v: ExprV) -> Seq<char> {
    match v {
        ExprV::Sin(_) => "sin"@,
        ExprV::Cos(_) => "cos"@,
        ExprV::Tan(_) => "tan"@,
        ExprV::Cot(_) => "cot"@,
        ExprV::Sec(_) => "sec"@,
        ExprV::Csc(_) => "csc"@,
        ExprV::Arcsin(_) => "arcsin"@,
        ExprV::Arccos(_) => "arccos"@,
        ExprV::Arctan(_) => "arctan"@,
        ExprV::Arccot(_) => "arccot"@,
        ExprV::Ln(_) => "ln"@,
        ExprV::Sqrt(_) => "sqrt"@,
        ExprV::Log(_, _) => "log"@,
        _ => Seq::empty(),
    }
}

/// The argument of a one-argument call node.
pub open spec fn call_child(v: ExprV) -> ExprV {
    match v {
        ExprV::Sin(c) => *c,
        ExprV::Cos(c) => *c,
        ExprV::Tan(c) => *c,
        ExprV::Cot(c) => *c,
        ExprV::Sec(c) => *c,
        ExprV::Csc(c) => *c,
        ExprV::Arcsin(c) => *c,
        ExprV::Arccos(c) => *c,
        ExprV::Arctan(c) => *c,
        ExprV::Arccot(c) => *c,
        ExprV::Ln(c) => *c,
        ExprV::Sqrt(c) => *c,
        _ => v,
    }
}

/// The base argument of a `log` node.
pub open spec fn log_left(v: ExprV) -> ExprV {
    match v {
        ExprV::Log(l, _) => *l,
        _ => v,
    }
}

/// The second argument of a `log` node.
pub open spec fn log_right(v: ExprV) -> ExprV {
    match v {
        ExprV::Log(_, r) => *r,
        _ => v,
    }
}

/// Consuming one expected token: the lookahead stream's head normalizes to
/// it, and the remainder carries the rest.
pub proof fn lemma_step(sa: Seq<TokenV>, t: TokenV, tail: Seq<TokenV>)
    requires
        norm_toks(sa) == seq![t] + tail,
    ensures
        sa.len() >= 1,
        norm_tok(sa[0]) == t,
        norm_toks(sa.drop_first()) == tail,
{
    assert(norm_toks(sa).len() == sa.len());
    lemma_norm_toks_drop(sa);
    assert((seq![t] + tail)[0] == t);
    assert((seq![norm_tok(sa[0])] + norm_toks(sa.drop_first()))[0] == norm_tok(sa[0]));
    assert(seq![norm_tok(sa[0])] =~= seq![t]);
    lemma_concat_cancel(seq![t], norm_toks(sa.drop_first()), tail);
}

/// The rendering of a one-argument call, split at its four delimiters, and
/// the node's reconstruction from its name and argument.
proof fn func1_expected_facts(v: ExprV)
    requires
        is_call(v),
        !(v is Log),
        printable(v),
        wf_expr(v),
    ensures
        printable(call_child(v)),
        wf_expr(call_child(v)),
        crate::expression::func::is_func_name(call_name(v)),
        crate::expression::func::func_node(call_name(v), call_child(v)) == v,
        tokseq(v) == seq![TokenV::Identifier(call_name(v)), TokenV::OpenParenthesis] + tokseq(
            call_child(v),
        ) + seq![TokenV::CloseParenthesis],
{
    lemma_name_chars();
    match v {
        ExprV::Sin(c) => {
            assert(v =~~= ExprV::Sin(Box::new(call_child(v))));
        },
        ExprV::Cos(c) => {
            assert(v =~~= ExprV::Cos(Box::new(call_child(v))));
        },
        ExprV::Tan(c) => {
            assert(v =~~= ExprV::Tan(Box::new(call_child(v))));
        },
        ExprV::Cot(c) => {
            assert(v =~~= ExprV::Cot(Box::new(call_child(v))));
        },
        ExprV::Sec(c) => {
            assert(v =~~= ExprV::Sec(Box::new(call_child(v))));
        },
        ExprV::Csc(c) => {
            assert(v =~~= ExprV::Csc(Box::new(call_child(v))));
        },
        ExprV::Arcsin(c) => {
            assert(v =~~= ExprV::Arcsin(Box::new(call_child(v))));
        },
        ExprV::Arccos(c) => {
            assert(v =~~= ExprV::Arccos(Box::new(call_child(v))));
        },
        ExprV::Arctan(c) => {
            assert(v =~~= ExprV::Arctan(Box::new(call_child(v))));
        },
        ExprV::Arccot(c) => {
            assert(v =~~= ExprV::Arccot(Box::new(call_child(v))));
        },
        ExprV::Ln(c) => {
            assert(v =~~= ExprV::Ln(Box::new(call_child(v))));
        },
        ExprV::Sqrt(c) => {
            assert(v =~~= ExprV::Sqrt(Box::new(call_child(v))));
        },
        _ => {},
    }
}

/// The rendering of a `log` call, split at its delimiters, and the node's
/// reconstruction from its two arguments.
proof fn log_expected_facts(v: ExprV)
    requires
        v is Log,
        printable(v),
        wf_expr(v),
    ensures
        printable(log_left(v)),
        wf_expr(log_left(v)),
        printable(log_right(v)),
        wf_expr(log_right(v)),
        v =~~= ExprV::Log(Box::new(log_left(v)), Box::new(log_right(v))),
        tokseq(v) == seq![TokenV::Identifier("log"@), TokenV::OpenParenthesis] + tokseq(
            log_left(v),
        ) + seq![TokenV::Other(seq![','])] + tokseq(log_right(v)) + seq![
            TokenV::CloseParenthesis,
        ],
{
}

/// What an owed `log` call forces at its name: the tree is a `log` node
/// and after the name the rest of its rendering follows.
proof fn log_head_facts(p: Parser, v: ExprV, rest: Seq<TokenV>)
    requires
        p.wf(),
        (p.current@ matches TokenV::Identifier(a) && a == "log"@),
        primary_expected(p.stream(), v, rest),
        is_call(v),
    ensures
        v is Log,
        printable(log_left(v)),
        wf_expr(log_left(v)),
        printable(log_right(v)),
        wf_expr(log_right(v)),
        norm_toks(p.stream().drop_first()) == seq![TokenV::OpenParenthesis] + (tokseq(
            log_left(v),
        ) + (seq![TokenV::Other(seq![','])] + (tokseq(log_right(v)) + (seq![
            TokenV::CloseParenthesis,
        ] + rest)))),
{
    lemma_primary_head(v);
    lemma_expected_head(p, v, rest);
    lemma_name_chars();
    assert(norm_tok(p.current@) == p.current@);
    assert(tokseq(v)[0] == TokenV::Identifier("log"@));
    assert(v is Log);
    log_expected_facts(v);
    assert(tokseq(v).drop_first() + rest =~= seq![TokenV::OpenParenthesis] + (tokseq(
        log_left(v),
    ) + (seq![TokenV::Other(seq![','])] + (tokseq(log_right(v)) + (seq![
        TokenV::CloseParenthesis,
    ] + rest)))));
}

/// What an owed one-argument call forces at its name.
proof fn func1_head_facts(p: Parser, v: ExprV, rest: Seq<TokenV>, nm: Seq<char>)
    requires
        p.wf(),
        (p.current@ matches TokenV::Identifier(a) && a == nm),
        primary_expected(p.stream(), v, rest),
        is_call(v),
        nm != "log"@,
    ensures
        !(v is Log),
        call_name(v) == nm,
        crate::expression::func::is_func_name(nm),
        printable(call_child(v)),
        wf_expr(call_child(v)),
        norm_toks(p.stream().drop_first()) == seq![TokenV::OpenParenthesis] + (tokseq(
            call_child(v),
        ) + (seq![TokenV::CloseParenthesis] + rest)),
{
    lemma_primary_head(v);
    lemma_expected_head(p, v, rest);
    lemma_name_chars();
    assert(norm_tok(p.current@) == p.current@);
    assert(tokseq(v)[0] == TokenV::Identifier(nm));
    assert(!(v is Log));
    assert(call_name(v) == nm);
    func1_expected_facts(v);
    assert(tokseq(v).drop_first() + rest =~= seq![TokenV::OpenParenthesis] + (tokseq(
        call_child(v),
    ) + (seq![TokenV::CloseParenthesis] + rest)));
}

/// After the opening parenthesis of a `log` call, the base sub-expression
/// parse is owed, delimited by the comma.
proof fn log_args_facts(s1: Seq<TokenV>, t1: Seq<TokenV>, v: ExprV, rest: Seq<TokenV>)
    requires
        v is Log,
        printable(log_left(v)),
        wf_expr(log_left(v)),
        norm_toks(s1) == seq![TokenV::OpenParenthesis] + (tokseq(log_left(v)) + (seq![
            TokenV::Other(seq![',']),
        ] + (tokseq(log_right(v)) + (seq![TokenV::CloseParenthesis] + rest)))),
        t1 == s1.drop_first(),
    ensures
        sub_expected(
            t1,
            log_left(v),
            seq![TokenV::Other(seq![','])] + (tokseq(log_right(v)) + (seq![
                TokenV::CloseParenthesis,
            ] + rest)),
        ),
{
    lemma_step(
        s1,
        TokenV::OpenParenthesis,
        tokseq(log_left(v)) + (seq![TokenV::Other(seq![','])] + (tokseq(log_right(v)) + (seq![
            TokenV::CloseParenthesis,
        ] + rest))),
    );
    let tail = seq![TokenV::Other(seq![','])] + (tokseq(log_right(v)) + (seq![
        TokenV::CloseParenthesis,
    ] + rest));
    assert(tail[0] == TokenV::Other(seq![',']));
}

/// After the opening parenthesis of a one-argument call, the argument
/// parse is owed, delimited by the closing parenthesis.
proof fn func1_args_facts(s1: Seq<TokenV>, t1: Seq<TokenV>, v: ExprV, rest: Seq<TokenV>)
    requires
        is_call(v),
        !(v is Log),
        printable(call_child(v)),
        wf_expr(call_child(v)),
        norm_toks(s1) == seq![TokenV::OpenParenthesis] + (tokseq(call_child(v)) + (seq![
            TokenV::CloseParenthesis,
        ] + rest)),
        t1 == s1.drop_first(),
    ensures
        sub_expected(t1, call_child(v), seq![TokenV::CloseParenthesis] + rest),
{
    lemma_step(
        s1,
        TokenV::OpenParenthesis,
        tokseq(call_child(v)) + (seq![TokenV::CloseParenthesis] + rest),
    );
    assert((seq![TokenV::CloseParenthesis] + rest)[0] == TokenV::CloseParenthesis);
}

/// One climbing step: when the owed tree is not yet complete at `acc` and
/// the lookahead is an operator binding at least `min_prec`, that operator
/// belongs to the spine parent of `acc`, and the parent's right operand
/// follows, starting with an owed primary.
proof fn climb_step_facts(
    stream0: Seq<TokenV>,
    acc: ExprV,
    v: ExprV,
    rest: Seq<TokenV>,
    min_prec: int,
    tp: u8,
    cur: TokenV,
)
    requires
        printable(v),
        wf_expr(v),
        level(v) >= min_prec,
        on_left_spine(acc, v),
        norm_toks(stream0) == spine_suffix(acc, v) + rest,
        no_tail(rest, min_prec),
        stream0.len() >= 1,
        stream0[0] == cur,
        spec_precedence(cur) == Some(tp),
        (tp as int) >= min_prec,
    ensures
        acc != v,
        ({
            let n = spine_parent(acc, v);
            &&& is_binary(n)
            &&& bin_left(n) == acc
            &&& on_left_spine(n, v)
            &&& printable(n)
            &&& wf_expr(n)
            &&& level(n) >= level(v)
            &&& cur == TokenV::Operator(bin_sym(n))
            &&& (tp as int) == level(n)
            &&& level(acc) >= level(n)
            &&& printable(bin_right(n))
            &&& wf_expr(bin_right(n))
            &&& level(bin_right(n)) > level(n)
            &&& norm_toks(stream0.drop_first()) == tokseq(leftmost(bin_right(n))) + (
            spine_suffix(leftmost(bin_right(n)), bin_right(n)) + (spine_suffix(n, v) + rest))
            &&& primary_expected(
                stream0.drop_first(),
                leftmost(bin_right(n)),
                spine_suffix(leftmost(bin_right(n)), bin_right(n)) + (spine_suffix(n, v) + rest),
            )
            &&& on_left_spine(leftmost(bin_right(n)), bin_right(n))
            &&& no_tail(spine_suffix(n, v) + rest, (tp as int) + 1)
        }),
{
    lemma_norm_tok_other(cur);
    if acc == v {
        // the suffix is empty, so the operator would have to come from
        // `rest`, which `no_tail` forbids
        assert(spine_suffix(acc, v) =~= Seq::<TokenV>::empty());
        assert(norm_toks(stream0) =~= rest);
        lemma_norm_toks_drop(stream0);
        assert(rest[0] == norm_tok(cur));
        assert(norm_tok(cur) == cur);
        assert(false);
    }
    lemma_spine_parent(acc, v);
    let n = spine_parent(acc, v);
    let right = bin_right(n);
    lemma_leftmost(right);
    let lm = leftmost(right);
    lemma_spine_tokens(lm, right);
    assert(spine_suffix(acc, v) + rest =~= seq![TokenV::Operator(bin_sym(n))] + (tokseq(lm) + (
    spine_suffix(lm, right) + (spine_suffix(n, v) + rest))));
    lemma_step(
        stream0,
        TokenV::Operator(bin_sym(n)),
        tokseq(lm) + (spine_suffix(lm, right) + (spine_suffix(n, v) + rest)),
    );
    assert(norm_tok(cur) == TokenV::Operator(bin_sym(n)));
    assert(cur == TokenV::Operator(bin_sym(n)));
    assert(norm_toks(stream0.drop_first()) =~= tokseq(lm) + (spine_suffix(lm, right) + (
    spine_suffix(n, v) + rest)));
    // the continuation cannot extend a parse above `tp`
    if n == v {
        assert(spine_suffix(n, v) =~= Seq::<TokenV>::empty());
        assert(spine_suffix(n, v) + rest =~= rest);
    } else {
        lemma_spine_parent(n, v);
        let n2 = spine_parent(n, v);
        assert(spine_suffix(n, v) + rest =~= seq![TokenV::Operator(bin_sym(n2))] + (tokseq(
            bin_right(n2),
        ) + (spine_suffix(n2, v) + rest)));
        assert((spine_suffix(n, v) + rest)[0] == TokenV::Operator(bin_sym(n2)));
        assert(level(n) >= level(n2));
    }
}

/// Normalization only rewrites number tokens.
pub proof fn lemma_norm_tok_other(t: TokenV)
    ensures
        !(norm_tok(t) is Number) ==> norm_tok(t) == t,
        (norm_tok(t) is Number) ==> t is Number,
{
}

/// A one-argument or two-argument function-call node.
pub open spec fn is_call(v: ExprV) -> bool {
    ||| v is Sin
    ||| v is Cos
    ||| v is Tan
    ||| v is Cot
    ||| v is Sec
    ||| v is Csc
    ||| v is Arcsin
    ||| v is Arccos
    ||| v is Arctan
    ||| v is Arccot
    ||| v is Ln
    ||| v is Sqrt
    ||| v is Log
}

/// A primary parse is owed: the normalized stream starts with the
/// rendering of the printable, well-formed primary `v`.
pub open spec fn primary_expected(stream: Seq<TokenV>, v: ExprV, rest: Seq<TokenV>) -> bool {
    &&& is_primary(v)
    &&& printable(v)
    &&& wf_expr(v)
    &&& norm_toks(stream) == tokseq(v) + rest
}

/// A sub-expression parse is owed: the normalized stream starts with the
/// rendering of the printable, well-formed tree `v`, and no operator
/// follows that could extend it.
pub open spec fn sub_expected(stream: Seq<TokenV>, v: ExprV, rest: Seq<TokenV>) -> bool {
    &&& printable(v)
    &&& wf_expr(v)
    &&& norm_toks(stream) == tokseq(v) + rest
    &&& no_tail(rest, 0)
}

/// A climbing continuation is owed: `lhs` already sits on the left spine
/// of the printable tree `v`, the stream holds exactly the tokens of `v`
/// after `lhs`, and nothing afterwards binds at `min_prec` or tighter.
pub open spec fn climb_expected(
    stream: Seq<TokenV>,
    lhs: ExprV,
    v: ExprV,
    rest: Seq<TokenV>,
    min_prec: int,
) -> bool {
    &&& printable(v)
    &&& wf_expr(v)
    &&& level(v) >= min_prec
    &&& on_left_spine(lhs, v)
    &&& norm_toks(stream) == spine_suffix(lhs, v) + rest
    &&& no_tail(rest, min_prec)
}

/// The first rendered token of each printable primary.
pub proof fn lemma_primary_head(v: ExprV)
    requires
        is_primary(v),
        printable(v),
    ensures
        tokseq(v).len() >= 1,
        v matches ExprV::Num { whole, frac } ==> tokseq(v)[0] == TokenV::Number(spec_text(v)),
        v is EConst ==> tokseq(v)[0] == TokenV::Identifier("e"@),
        v is PiConst ==> tokseq(v)[0] == TokenV::Identifier("pi"@),
        v is Var ==> tokseq(v)[0] == TokenV::Identifier("x"@),
        v is Neg ==> tokseq(v)[0] == TokenV::Operator("-"@),
        v is Paren ==> tokseq(v)[0] == TokenV::OpenParenthesis,
        v is Sin ==> tokseq(v)[0] == TokenV::Identifier("sin"@),
        v is Cos ==> tokseq(v)[0] == TokenV::Identifier("cos"@),
        v is Tan ==> tokseq(v)[0] == TokenV::Identifier("tan"@),
        v is Cot ==> tokseq(v)[0] == TokenV::Identifier("cot"@),
        v is Sec ==> tokseq(v)[0] == TokenV::Identifier("sec"@),
        v is Csc ==> tokseq(v)[0] == TokenV::Identifier("csc"@),
        v is Arcsin ==> tokseq(v)[0] == TokenV::Identifier("arcsin"@),
        v is Arccos ==> tokseq(v)[0] == TokenV::Identifier("arccos"@),
        v is Arctan ==> tokseq(v)[0] == TokenV::Identifier("arctan"@),
        v is Arccot ==> tokseq(v)[0] == TokenV::Identifier("arccot"@),
        v is Ln ==> tokseq(v)[0] == TokenV::Identifier("ln"@),
        v is Sqrt ==> tokseq(v)[0] == TokenV::Identifier("sqrt"@),
        v is Log ==> tokseq(v)[0] == TokenV::Identifier("log"@),
        !(v is Fact),
{
    lemma_tokseq_len(v);
}

/// When a parse of `v` is owed, the lookahead's normalized view is `v`'s
/// first rendered token, and dropping it leaves the remaining tokens.
pub proof fn lemma_expected_head(p: Parser, v: ExprV, rest: Seq<TokenV>)
    requires
        p.wf(),
        norm_toks(p.stream()) == tokseq(v) + rest,
        tokseq(v).len() >= 1,
    ensures
        p.stream().len() >= 1,
        !(p.current@ is Eof),
        p.stream()[0] == p.current@,
        norm_tok(p.current@) == tokseq(v)[0],
        norm_toks(p.stream().drop_first()) == tokseq(v).drop_first() + rest,
{
    assert(norm_toks(p.stream()).len() == p.stream().len());
    lemma_norm_toks_drop(p.stream());
    assert(tokseq(v) + rest =~= seq![tokseq(v)[0]] + (tokseq(v).drop_first() + rest));
    let h = norm_tok(p.stream()[0]);
    assert((seq![h] + norm_toks(p.stream().drop_first()))[0] == h);
    assert((seq![tokseq(v)[0]] + (tokseq(v).drop_first() + rest))[0] == tokseq(v)[0]);
    assert(h == tokseq(v)[0]);
    assert(seq![h] =~= seq![tokseq(v)[0]]);
    lemma_concat_cancel(
        seq![h],
        norm_toks(p.stream().drop_first()),
        tokseq(v).drop_first() + rest,
    );
}

} // verus!
