//! Lexer: turns the expression text into a sequence of tokens.
//!
//! Scanning applies these rules, in priority order, at the cursor:
//! whitespace (one token per character), numbers (`digits` or
//! `digits.digits`; a dangling dot makes the whole run an `Other` token),
//! identifiers (letters only), operators (`**` before the single-character
//! ones), parentheses, and finally a single-character `Other` token.

use vstd::prelude::*;
use vstd::slice::slice_subrange;
use vstd::string::*;

verus! {

/// Characters treated as whitespace by the lexer.  This is a deliberate
/// policy: exactly the four ASCII blanks are skipped; any other spacing
/// character is a one-character `Other` token, which the parser rejects.
pub open spec fn is_whitespace_char(c: char) -> bool {
    c == ' ' || c == '\t' || c == '\n' || c == '\r'
}

/// ASCII decimal digits.
pub open spec fn is_digit_char(c: char) -> bool {
    48 <= c as u32 <= 57
}

/// ASCII letters.
pub open spec fn is_letter_char(c: char) -> bool {
    (65 <= c as u32 <= 90) || (97 <= c as u32 <= 122)
}

/// Single-character operator symbols.
pub open spec fn is_operator_char(c: char) -> bool {
    c == '+' || c == '-' || c == '*' || c == '/'
}

/// Mathematical view of a token: the same shape as [`Token`], with text as
/// character sequences.
pub enum TokenV {
    WhiteSpace(char),
    Number(Seq<char>),
    Identifier(Seq<char>),
    Operator(Seq<char>),
    OpenParenthesis,
    CloseParenthesis,
    Eof,
    Other(Seq<char>),
}

/// A lexical token.
///
/// `Other` holds an unrecognized or invalid lexeme, e.g. a malformed decimal
/// such as `"1."` or a stray punctuation character; the parser, not the
/// lexer, decides what counts as a syntax error.
#[derive(Debug, Clone, PartialEq)]
pub enum Token {
    WhiteSpace(char),
    Number(String),
    Identifier(String),
    Operator(String),
    OpenParenthesis,
    CloseParenthesis,
    Eof,
    Other(String),
}

impl View for Token {
    type V = TokenV;

    open spec fn view(&self) -> TokenV {
        match self {
            Token::WhiteSpace(c) => TokenV::WhiteSpace(*c),
            Token::Number(s) => TokenV::Number(s@),
            Token::Identifier(s) => TokenV::Identifier(s@),
            Token::Operator(s) => TokenV::Operator(s@),
            Token::OpenParenthesis => TokenV::OpenParenthesis,
            Token::CloseParenthesis => TokenV::CloseParenthesis,
            Token::Eof => TokenV::Eof,
            Token::Other(s) => TokenV::Other(s@),
        }
    }
}

/// End of the run of digits that starts at `i` (first index at or after `i`
/// holding a non-digit, or the end of the text).
pub open spec fn digit_run_end(s: Seq<char>, i: int) -> int
    decreases s.len() - i,
{
    if i < 0 || i >= s.len() {
        i
    } else if is_digit_char(s[i]) {
        digit_run_end(s, i + 1)
    } else {
        i
    }
}

/// End of the run of letters that starts at `i`.
pub open spec fn letter_run_end(s: Seq<char>, i: int) -> int
    decreases s.len() - i,
{
    if i < 0 || i >= s.len() {
        i
    } else if is_letter_char(s[i]) {
        letter_run_end(s, i + 1)
    } else {
        i
    }
}

pub proof fn lemma_digit_run_end(s: Seq<char>, i: int)
    requires
        0 <= i <= s.len(),
    ensures
        i <= digit_run_end(s, i) <= s.len(),
        forall|k: int| i <= k < digit_run_end(s, i) ==> is_digit_char(s[k]),
        digit_run_end(s, i) < s.len() ==> !is_digit_char(s[digit_run_end(s, i)]),
    decreases s.len() - i,
{
    if i < s.len() && is_digit_char(s[i]) {
        lemma_digit_run_end(s, i + 1);
    }
}

pub proof fn lemma_letter_run_end(s: Seq<char>, i: int)
    requires
        0 <= i <= s.len(),
    ensures
        i <= letter_run_end(s, i) <= s.len(),
        forall|k: int| i <= k < letter_run_end(s, i) ==> is_letter_char(s[k]),
        letter_run_end(s, i) < s.len() ==> !is_letter_char(s[letter_run_end(s, i)]),
    decreases s.len() - i,
{
    if i < s.len() && is_letter_char(s[i]) {
        lemma_letter_run_end(s, i + 1);
    }
}

/// A run scanned up to some non-digit boundary ends exactly there.
pub proof fn lemma_digit_run_end_at(s: Seq<char>, i: int, j: int)
    requires
        0 <= i <= j <= s.len(),
        forall|k: int| i <= k < j ==> is_digit_char(s[k]),
        j == s.len() || !is_digit_char(s[j]),
    ensures
        digit_run_end(s, i) == j,
    decreases j - i,
{
    if i < j {
        lemma_digit_run_end_at(s, i + 1, j);
    }
}

pub proof fn lemma_letter_run_end_at(s: Seq<char>, i: int, j: int)
    requires
        0 <= i <= j <= s.len(),
        forall|k: int| i <= k < j ==> is_letter_char(s[k]),
        j == s.len() || !is_letter_char(s[j]),
    ensures
        letter_run_end(s, i) == j,
    decreases j - i,
{
    if i < j {
        lemma_letter_run_end_at(s, i + 1, j);
    }
}

/// The token that starts at position `i` of the text, and the position just
/// after it.  Meaningful for `0 <= i < s.len()`.
pub open spec fn spec_token_at(s: Seq<char>, i: int) -> (TokenV, int)
    recommends
        0 <= i < s.len(),
{
    let c = s[i];
    if is_whitespace_char(c) {
        (TokenV::WhiteSpace(c), i + 1)
    } else if is_digit_char(c) {
        let j = digit_run_end(s, i + 1);
        if j < s.len() && s[j] == '.' {
            if j + 1 < s.len() && is_digit_char(s[j + 1]) {
                let k = digit_run_end(s, j + 1);
                (TokenV::Number(s.subrange(i, k)), k)
            } else {
                (TokenV::Other(s.subrange(i, j + 1)), j + 1)
            }
        } else {
            (TokenV::Number(s.subrange(i, j)), j)
        }
    } else if is_letter_char(c) {
        let j = letter_run_end(s, i + 1);
        (TokenV::Identifier(s.subrange(i, j)), j)
    } else if c == '*' && i + 1 < s.len() && s[i + 1] == '*' {
        (TokenV::Operator(seq!['*', '*']), i + 2)
    } else if is_operator_char(c) {
        (TokenV::Operator(seq![c]), i + 1)
    } else if c == '(' {
        (TokenV::OpenParenthesis, i + 1)
    } else if c == ')' {
        (TokenV::CloseParenthesis, i + 1)
    } else {
        (TokenV::Other(seq![c]), i + 1)
    }
}

pub proof fn lemma_token_at_bounds(s: Seq<char>, i: int)
    requires
        0 <= i < s.len(),
    ensures
        i < spec_token_at(s, i).1 <= s.len(),
{
    lemma_digit_run_end(s, i + 1);
    lemma_letter_run_end(s, i + 1);
    if is_digit_char(s[i]) {
        let j = digit_run_end(s, i + 1);
        if j < s.len() && s[j] == '.' && j + 1 < s.len() && is_digit_char(s[j + 1]) {
            lemma_digit_run_end(s, j + 1);
        }
    }
}

/// All tokens of the text from position `i` on.  The sequence is finite and
/// does not carry a terminating `Eof` token.
pub open spec fn spec_tokens(s: Seq<char>, i: int) -> Seq<TokenV>
    decreases s.len() - i,
    via spec_tokens_decreases
{
    if i < 0 || i >= s.len() {
        Seq::empty()
    } else {
        seq![spec_token_at(s, i).0] + spec_tokens(s, spec_token_at(s, i).1)
    }
}

#[via_fn]
proof fn spec_tokens_decreases(s: Seq<char>, i: int) {
    if 0 <= i < s.len() {
        lemma_token_at_bounds(s, i);
    }
}


/// Canonical lexeme shapes: what the tokenizer can actually produce.
pub open spec fn token_ok(t: TokenV) -> bool {
    match t {
        TokenV::Number(s) => num_shape(s),
        TokenV::Identifier(s) => s.len() >= 1 && (forall|k: int|
            0 <= k < s.len() ==> is_letter_char(s[k])),
        TokenV::Operator(s) => s =~= seq!['+'] || s =~= seq!['-'] || s =~= seq!['*'] || s
            =~= seq!['/'] || s =~= seq!['*', '*'],
        _ => true,
    }
}

/// The shape of a numeric lexeme: `digits` or `digits.digits`.
pub open spec fn num_shape(s: Seq<char>) -> bool {
    ||| (s.len() >= 1 && (forall|k: int| 0 <= k < s.len() ==> is_digit_char(s[k])))
    ||| (exists|p: int|
        1 <= p <= s.len() - 2 && s[p] == '.' && (forall|k: int|
            0 <= k < s.len() && k != p ==> is_digit_char(s[k])))
}

pub proof fn lemma_token_at_ok(s: Seq<char>, i: int)
    requires
        0 <= i < s.len(),
    ensures
        token_ok(spec_token_at(s, i).0),
{
    lemma_digit_run_end(s, i + 1);
    lemma_letter_run_end(s, i + 1);
    if is_digit_char(s[i]) {
        let j = digit_run_end(s, i + 1);
        if j < s.len() && s[j] == '.' {
            if j + 1 < s.len() && is_digit_char(s[j + 1]) {
                lemma_digit_run_end(s, j + 1);
                let k = digit_run_end(s, j + 1);
                let t = s.subrange(i, k);
                assert(t[j - i] == '.');
                assert(1 <= j - i <= t.len() - 2);
                assert(forall|m: int| 0 <= m < t.len() && m != j - i ==> is_digit_char(t[m]));
            }
        } else {
            let t = s.subrange(i, j);
            assert(forall|m: int| 0 <= m < t.len() ==> is_digit_char(t[m]));
        }
    }
}

/// Every token the tokenizer produces has a canonical lexeme shape.
pub proof fn lemma_tokens_ok(s: Seq<char>, i: int)
    ensures
        forall|k: int|
            0 <= k < spec_tokens(s, i).len() ==> #[trigger] token_ok(spec_tokens(s, i)[k]),
    decreases s.len() - i,
{
    if 0 <= i < s.len() {
        lemma_token_at_bounds(s, i);
        lemma_token_at_ok(s, i);
        lemma_tokens_ok(s, spec_token_at(s, i).1);
        let rest = spec_tokens(s, spec_token_at(s, i).1);
        assert forall|k: int| 0 <= k < spec_tokens(s, i).len() implies #[trigger] token_ok(
            spec_tokens(s, i)[k],
        ) by {
            if k == 0 {
                assert(spec_tokens(s, i)[0] == spec_token_at(s, i).0);
            } else {
                assert(spec_tokens(s, i)[k] == rest[k - 1]);
            }
        }
    }
}

fn is_whitespace_c(c: char) -> (r: bool)
    ensures
        r == is_whitespace_char(c),
{
    c == ' ' || c == '\t' || c == '\n' || c == '\r'
}

fn is_digit_c(c: char) -> (r: bool)
    ensures
        r == is_digit_char(c),
{
    let u = c as u32;
    48 <= u && u <= 57
}

fn is_letter_c(c: char) -> (r: bool)
    ensures
        r == is_letter_char(c),
{
    let u = c as u32;
    (65 <= u && u <= 90) || (97 <= u && u <= 122)
}

/// The lexer: owns the characters of the input and a monotonic cursor.
#[derive(Debug, Clone)]
pub struct Lexer {
    /// Characters of the expression text.
    pub chars: Vec<char>,
    /// Current position; `0 <= i <= chars.len()` in every reachable state.
    pub i: usize,
}

impl Lexer {
    /// Tokens still to be produced, from the cursor on.
    pub open spec fn remaining(self) -> Seq<TokenV> {
        spec_tokens(self.chars@, self.i as int)
    }

    pub fn new(expr: &str) -> (r: Lexer)
        ensures
            r.chars@ == expr@,
            r.i == 0,
    {
        Lexer { chars: crate::expression::render::chars_of(expr), i: 0 }
    }

    /// Scans the single token that starts at position `i`, without moving the
    /// cursor; returns the token and the position just after it.  `None`
    /// exactly when `i` is at or past the end of the text.
    fn get_token(&self, i: usize) -> (r: Option<(Token, usize)>)
        ensures
            match r {
                Some(p) => i < self.chars@.len() && p.0@ == spec_token_at(
                    self.chars@,
                    i as int,
                ).0 && p.1 == spec_token_at(self.chars@, i as int).1,
                None => i >= self.chars@.len(),
            },
    {
        let chars = &self.chars;
        let n = chars.len();
        if i >= n {
            return None;
        }
        let ghost sv = chars@;
        let c = chars[i];

        if is_whitespace_c(c) {
            return Some((Token::WhiteSpace(c), i + 1));
        }

        if is_digit_c(c) {
            let mut j = i + 1;
            while j < n && is_digit_c(chars[j])
                invariant
                    i < j <= n == sv.len(),
                    chars@ == sv,
                    forall|k: int| i + 1 <= k < j ==> is_digit_char(sv[k]),
                decreases n - j,
            {
                j += 1;
            }
            proof {
                lemma_digit_run_end_at(sv, i + 1, j as int);
            }
            if j < n && chars[j] == '.' {
                if j + 1 < n && is_digit_c(chars[j + 1]) {
                    let mut k = j + 1;
                    while k < n && is_digit_c(chars[k])
                        invariant
                            j < k <= n == sv.len(),
                            chars@ == sv,
                            forall|m: int| j + 1 <= m < k ==> is_digit_char(sv[m]),
                        decreases n - k,
                    {
                        k += 1;
                    }
                    proof {
                        lemma_digit_run_end_at(sv, j + 1, k as int);
                    }
                    let t = crate::expression::render::string_from_chars(
                        slice_subrange(chars.as_slice(), i, k),
                    );
                    return Some((Token::Number(t), k));
                }
                let t = crate::expression::render::string_from_chars(
                    slice_subrange(chars.as_slice(), i, j + 1),
                );
                return Some((Token::Other(t), j + 1));
            }
            let t = crate::expression::render::string_from_chars(
                slice_subrange(chars.as_slice(), i, j),
            );
            return Some((Token::Number(t), j));
        }

        if is_letter_c(c) {
            let mut j = i + 1;
            while j < n && is_letter_c(chars[j])
                invariant
                    i < j <= n == sv.len(),
                    chars@ == sv,
                    forall|k: int| i + 1 <= k < j ==> is_letter_char(sv[k]),
                decreases n - j,
            {
                j += 1;
            }
            proof {
                lemma_letter_run_end_at(sv, i + 1, j as int);
            }
            let t = crate::expression::render::string_from_chars(
                slice_subrange(chars.as_slice(), i, j),
            );
            return Some((Token::Identifier(t), j));
        }

        if c == '*' && i + 1 < n && chars[i + 1] == '*' {
            let t = crate::expression::render::string_from_chars(
                slice_subrange(chars.as_slice(), i, i + 2),
            );
            proof {
                assert(sv.subrange(i as int, i + 2) =~= seq!['*', '*']);
            }
            return Some((Token::Operator(t), i + 2));
        }
        if c == '+' || c == '-' || c == '*' || c == '/' {
            let t = crate::expression::render::string_from_chars(
                slice_subrange(chars.as_slice(), i, i + 1),
            );
            proof {
                assert(sv.subrange(i as int, i + 1) =~= seq![c]);
            }
            return Some((Token::Operator(t), i + 1));
        }
        if c == '(' {
            return Some((Token::OpenParenthesis, i + 1));
        }
        if c == ')' {
            return Some((Token::CloseParenthesis, i + 1));
        }
        let t = crate::expression::render::string_from_chars(
            slice_subrange(chars.as_slice(), i, i + 1),
        );
        proof {
            assert(sv.subrange(i as int, i + 1) =~= seq![c]);
        }
        Some((Token::Other(t), i + 1))
    }

    /// Produces the next token and advances the cursor; `None` exactly when
    /// the input is exhausted (and then the lexer state does not change, so
    /// calling again keeps yielding `None`).
    pub fn next(&mut self) -> (r: Option<Token>)
        ensures
            final(self).chars@ == old(self).chars@,
            match r {
                Some(t) => {
                    &&& old(self).remaining().len() >= 1
                    &&& t@ == old(self).remaining()[0]
                    &&& final(self).remaining() == old(self).remaining().drop_first()
                    &&& old(self).i < final(self).i <= final(self).chars@.len()
                    &&& token_ok(t@)
                },
                None => {
                    &&& old(self).i >= old(self).chars@.len()
                    &&& *final(self) == *old(self)
                    &&& old(self).remaining().len() == 0
                },
            },
    {
        let r = self.get_token(self.i);
        match r {
            Some((token, next_i)) => {
                proof {
                    lemma_token_at_bounds(self.chars@, self.i as int);
                    lemma_token_at_ok(self.chars@, self.i as int);
                    assert(spec_tokens(self.chars@, self.i as int) == seq![
                        spec_token_at(self.chars@, self.i as int).0,
                    ] + spec_tokens(self.chars@, spec_token_at(self.chars@, self.i as int).1));
                    assert(spec_tokens(self.chars@, self.i as int).drop_first() =~= spec_tokens(
                        self.chars@,
                        spec_token_at(self.chars@, self.i as int).1,
                    ));
                }
                self.i = next_i;
                Some(token)
            },
            None => None,
        }
    }

    /// Human-readable state: the expression text in quotes and the cursor
    /// position, e.g. `expression: "x + 1", position: 0`.  The text is quoted
    /// verbatim, without escaping.
    pub fn describe(&self) -> (r: String)
        ensures
            r@ == "expression: \""@ + self.chars@ + "\", position: "@
                + crate::expression::render::spec_dec_digits(self.i as nat),
    {
        let mut s = String::new();
        s.append("expression: \"");
        s.append(crate::expression::render::string_from_chars(self.chars.as_slice()).as_str());
        s.append("\", position: ");
        s.append(crate::expression::render::dec_string(self.i as u64).as_str());
        s
    }
}

/// Precedence of an operator token: additive 10, multiplicative 20, power
/// 30 (higher binds tighter); `None` for everything that is not a canonical
/// operator token.
pub open spec fn spec_precedence(t: TokenV) -> Option<u8> {
    match t {
        TokenV::Operator(s) => if s =~= seq!['+'] || s =~= seq!['-'] {
            Some(10u8)
        } else if s =~= seq!['*'] || s =~= seq!['/'] {
            Some(20u8)
        } else if s =~= seq!['*', '*'] {
            Some(30u8)
        } else {
            None
        },
        _ => None,
    }
}

impl Token {
    pub fn is_whitespace(&self) -> (r: bool)
        ensures
            r == (self@ is WhiteSpace),
    {
        matches!(self, Token::WhiteSpace(_))
    }

    pub fn is_eof(&self) -> (r: bool)
        ensures
            r == (self@ is Eof),
    {
        matches!(self, Token::Eof)
    }

    pub fn is_operator(&self) -> (r: bool)
        ensures
            r == (self@ is Operator),
    {
        matches!(self, Token::Operator(_))
    }

    pub fn is_open_parenthesis(&self) -> (r: bool)
        ensures
            r == (self@ is OpenParenthesis),
    {
        matches!(self, Token::OpenParenthesis)
    }

    pub fn is_close_parenthesis(&self) -> (r: bool)
        ensures
            r == (self@ is CloseParenthesis),
    {
        matches!(self, Token::CloseParenthesis)
    }

    /// A comma reaches the parser as a one-character `Other` token.
    pub fn is_comma(&self) -> (r: bool)
        ensures
            r == (self@ matches TokenV::Other(t) && t == seq![',']),
    {
        match self {
            Token::Other(s) => {
                let st = s.as_str();
                if st.unicode_len() == 1 {
                    let c = st.get_char(0);
                    proof {
                        if c == ',' {
                            assert(s@ =~= seq![',']);
                        }
                    }
                    c == ','
                } else {
                    false
                }
            },
            _ => false,
        }
    }

    /// Token precedence; `Some` exactly for canonical operator tokens.
    pub fn precedence(&self) -> (r: Option<u8>)
        ensures
            r == spec_precedence(self@),
    {
        match self {
            Token::Operator(s) => {
                let st = s.as_str();
                let n = st.unicode_len();
                if n == 1 {
                    let c = st.get_char(0);
                    proof {
                        if c == '+' {
                            assert(s@ =~= seq!['+']);
                        } else if c == '-' {
                            assert(s@ =~= seq!['-']);
                        } else if c == '*' {
                            assert(s@ =~= seq!['*']);
                        } else if c == '/' {
                            assert(s@ =~= seq!['/']);
                        }
                    }
                    if c == '+' || c == '-' {
                        Some(10)
                    } else if c == '*' || c == '/' {
                        Some(20)
                    } else {
                        None
                    }
                } else if n == 2 {
                    let c0 = st.get_char(0);
                    let c1 = st.get_char(1);
                    proof {
                        if c0 == '*' && c1 == '*' {
                            assert(s@ =~= seq!['*', '*']);
                        }
                    }
                    if c0 == '*' && c1 == '*' {
                        Some(30)
                    } else {
                        None
                    }
                } else {
                    None
                }
            },
            _ => None,
        }
    }
}
} // verus!
