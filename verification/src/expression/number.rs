//! Number expression: an exact decimal literal.
//!
//! A literal is kept as its decimal digits (whole part and fractional part),
//! normalized: no spurious leading zero and no trailing fractional zero.
//! `"1.0"` normalizes to `1`, `"0.30"` to `0.3`.

use vstd::prelude::*;
use vstd::slice::slice_subrange;
use vstd::string::*;

use crate::expression::lexer::{is_digit_char, num_shape};
use crate::expression::render::{chars_of, string_from_chars};
use crate::expression::{norm_num, spec_text, ExprV};

verus! {

/// A decimal literal with its digits as written, normalized.
#[derive(Debug)]
pub struct Number {
    /// Digits before the dot; never empty, no spurious leading zero.
    pub whole: String,
    /// Digits after the dot; empty for a whole number, no trailing zero.
    pub frac: String,
}

impl Clone for Number {
    fn clone(&self) -> (r: Self)
        ensures
            r@ == self@,
    {
        Number { whole: self.whole.clone(), frac: self.frac.clone() }
    }
}

impl View for Number {
    type V = ExprV;

    open spec fn view(&self) -> ExprV {
        ExprV::Num { whole: self.whole@, frac: self.frac@ }
    }
}

/// Position of the first `'.'` at or after `i`, or the length when none.
pub open spec fn find_dot(s: Seq<char>, i: int) -> int
    decreases s.len() - i,
{
    if i < 0 || i >= s.len() {
        s.len() as int
    } else if s[i] == '.' {
        i
    } else {
        find_dot(s, i + 1)
    }
}

/// The whole part with leading zeros removed (one digit always remains).
pub open spec fn strip_leading(s: Seq<char>) -> Seq<char>
    decreases s.len(),
{
    if s.len() > 1 && s[0] == '0' {
        strip_leading(s.drop_first())
    } else {
        s
    }
}

/// The fractional part with trailing zeros removed.
pub open spec fn strip_trailing(s: Seq<char>) -> Seq<char>
    decreases s.len(),
{
    if s.len() > 0 && s[s.len() - 1] == '0' {
        strip_trailing(s.drop_last())
    } else {
        s
    }
}

/// The fractional digits of a well-shaped literal (empty when it has none).
pub open spec fn raw_frac(s: Seq<char>) -> Seq<char> {
    let d = find_dot(s, 0);
    if d == s.len() {
        Seq::empty()
    } else {
        s.subrange(d + 1, s.len() as int)
    }
}

pub proof fn lemma_find_dot(s: Seq<char>, i: int)
    requires
        0 <= i <= s.len(),
    ensures
        i <= find_dot(s, i) <= s.len(),
        forall|k: int| i <= k < find_dot(s, i) ==> s[k] != '.',
        find_dot(s, i) < s.len() ==> s[find_dot(s, i)] == '.',
    decreases s.len() - i,
{
    if i < s.len() && s[i] != '.' {
        lemma_find_dot(s, i + 1);
    }
}

/// A scan that stopped at the first dot (or the end) finds exactly it.
pub proof fn lemma_find_dot_at(s: Seq<char>, i: int, j: int)
    requires
        0 <= i <= j <= s.len(),
        forall|k: int| i <= k < j ==> s[k] != '.',
        j == s.len() || s[j] == '.',
    ensures
        find_dot(s, i) == j,
    decreases j - i,
{
    if i < j {
        lemma_find_dot_at(s, i + 1, j);
    }
}

pub proof fn lemma_strip_leading(s: Seq<char>)
    requires
        s.len() >= 1,
        forall|k: int| 0 <= k < s.len() ==> is_digit_char(s[k]),
    ensures
        strip_leading(s).len() >= 1,
        forall|k: int| 0 <= k < strip_leading(s).len() ==> is_digit_char(#[trigger] strip_leading(
            s,
        )[k]),
        strip_leading(s).len() > 1 ==> strip_leading(s)[0] != '0',
    decreases s.len(),
{
    if s.len() > 1 && s[0] == '0' {
        lemma_strip_leading(s.drop_first());
    }
}

pub proof fn lemma_strip_trailing(s: Seq<char>)
    requires
        forall|k: int| 0 <= k < s.len() ==> is_digit_char(s[k]),
    ensures
        forall|k: int|
            0 <= k < strip_trailing(s).len() ==> is_digit_char(#[trigger] strip_trailing(s)[k]),
        strip_trailing(s).len() > 0 ==> strip_trailing(s)[strip_trailing(s).len() - 1] != '0',
    decreases s.len(),
{
    if s.len() > 0 && s[s.len() - 1] == '0' {
        lemma_strip_trailing(s.drop_last());
    }
}

/// Shifting the start of a whole part past one leading zero does not change
/// what stripping leaves.
proof fn lemma_strip_leading_step(s: Seq<char>, i: int, d: int)
    requires
        0 <= i,
        i + 1 < d <= s.len(),
        s[i] == '0',
    ensures
        strip_leading(s.subrange(i, d)) == strip_leading(s.subrange(i + 1, d)),
{
    assert(s.subrange(i, d).drop_first() =~= s.subrange(i + 1, d));
}

proof fn lemma_strip_trailing_step(s: Seq<char>, d: int, j: int)
    requires
        0 <= d <= j - 1,
        j <= s.len(),
        s[j - 1] == '0',
    ensures
        strip_trailing(s.subrange(d, j)) == strip_trailing(s.subrange(d, j - 1)),
{
    assert(s.subrange(d, j).drop_last() =~= s.subrange(d, j - 1));
}

/// The two shape descriptions of a numeric lexeme agree: digits with at most
/// one interior dot.
pub proof fn lemma_num_shape_dot(s: Seq<char>)
    requires
        num_shape(s),
    ensures
        1 <= find_dot(s, 0),
        find_dot(s, 0) <= s.len(),
        forall|k: int| 0 <= k < find_dot(s, 0) ==> is_digit_char(s[k]),
        find_dot(s, 0) < s.len() ==> find_dot(s, 0) <= s.len() - 2,
        forall|k: int| find_dot(s, 0) < k < s.len() ==> is_digit_char(s[k]),
{
    if s.len() >= 1 && (forall|k: int| 0 <= k < s.len() ==> is_digit_char(s[k])) {
        assert forall|k: int| 0 <= k < s.len() implies s[k] != '.' by {
            assert(is_digit_char(s[k]));
        }
        lemma_find_dot_at(s, 0, s.len() as int);
    } else {
        let p = choose|p: int|
            1 <= p <= s.len() - 2 && s[p] == '.' && (forall|k: int|
                0 <= k < s.len() && k != p ==> is_digit_char(s[k]));
        assert forall|k: int| 0 <= k < p implies s[k] != '.' by {
            assert(is_digit_char(s[k]));
        }
        lemma_find_dot_at(s, 0, p);
    }
}

impl Number {
    /// Parses and normalizes a decimal literal; `Some` exactly for lexemes
    /// of the shape `digits` or `digits.digits`.
    pub fn new(s: &str) -> (r: Option<Number>)
        ensures
            match r {
                Some(n) => {
                    &&& num_shape(s@)
                    &&& n.whole@ == strip_leading(s@.subrange(0, find_dot(s@, 0)))
                    &&& n.frac@ == strip_trailing(raw_frac(s@))
                    &&& norm_num(n.whole@, n.frac@)
                },
                None => !num_shape(s@),
            },
    {
        let v = chars_of(s);
        let ghost sv = s@;
        let len = v.len();
        if len == 0 {
            proof {
                assert(!num_shape(sv));
            }
            return None;
        }
        // scan the whole part
        let mut d: usize = 0;
        while d < len && is_digit_exec(v[d])
            invariant
                0 <= d <= len == sv.len(),
                v@ == sv,
                forall|k: int| 0 <= k < d ==> is_digit_char(sv[k]),
            decreases len - d,
        {
            d += 1;
        }
        if d == 0 {
            // no leading digit: not a numeric lexeme
            proof {
                if num_shape(sv) {
                    lemma_num_shape_dot(sv);
                }
            }
            return None;
        }
        if d < len {
            if v[d] != '.' {
                proof {
                    if num_shape(sv) {
                        lemma_num_shape_dot(sv);
                        assert(find_dot(sv, 0) >= d);
                        if find_dot(sv, 0) > d {
                            assert(is_digit_char(sv[d as int]));
                        }
                    }
                }
                return None;
            }
            if d + 1 >= len {
                proof {
                    if num_shape(sv) {
                        lemma_num_shape_dot(sv);
                        lemma_find_dot_at(sv, 0, d as int);
                    }
                }
                return None;
            }
            // all remaining characters must be digits
            let mut t: usize = d + 1;
            while t < len && is_digit_exec(v[t])
                invariant
                    d + 1 <= t <= len == sv.len(),
                    v@ == sv,
                    forall|k: int| d + 1 <= k < t ==> is_digit_char(sv[k]),
                decreases len - t,
            {
                t += 1;
            }
            if t < len {
                proof {
                    if num_shape(sv) {
                        lemma_num_shape_dot(sv);
                        lemma_find_dot_at(sv, 0, d as int);
                    }
                }
                return None;
            }
            proof {
                lemma_find_dot_at(sv, 0, d as int);
                assert(num_shape(sv)) by {
                    assert(1 <= d <= sv.len() - 2 && sv[d as int] == '.' && (forall|k: int|
                        0 <= k < sv.len() && k != d ==> is_digit_char(sv[k])));
                }
            }
            let whole = Self::normalized_whole(&v, d);
            let frac = Self::normalized_frac(&v, d);
            return Some(Number { whole, frac });
        }
        // pure digit run
        proof {
            lemma_find_dot_at(sv, 0, d as int);
            assert(raw_frac(sv) =~= Seq::<char>::empty());
        }
        let whole = Self::normalized_whole(&v, d);
        proof {
            lemma_strip_leading(sv.subrange(0, d as int));
        }
        Some(Number { whole, frac: String::new() })
    }

    /// The whole part `v[0..d]` with leading zeros stripped.
    fn normalized_whole(v: &Vec<char>, d: usize) -> (r: String)
        requires
            1 <= d <= v@.len(),
            forall|k: int| 0 <= k < d ==> is_digit_char(v@[k]),
        ensures
            r@ == strip_leading(v@.subrange(0, d as int)),
            norm_num(r@, Seq::<char>::empty()),
    {
        let ghost sv = v@;
        let mut a: usize = 0;
        while a + 1 < d && v[a] == '0'
            invariant
                0 <= a < d <= sv.len(),
                v@ == sv,
                forall|k: int| 0 <= k < d ==> is_digit_char(sv[k]),
                strip_leading(sv.subrange(0, d as int)) == strip_leading(
                    sv.subrange(a as int, d as int),
                ),
            decreases d - a,
        {
            proof {
                lemma_strip_leading_step(sv, a as int, d as int);
            }
            a += 1;
        }
        proof {
            let part = sv.subrange(a as int, d as int);
            assert(part.len() == d - a);
            if part.len() > 1 {
                assert(part[0] == sv[a as int]);
                assert(part[0] != '0');
            }
            assert(strip_leading(part) == part);
            lemma_strip_leading(sv.subrange(0, d as int));
        }
        string_from_chars(slice_subrange(v.as_slice(), a, d))
    }

    /// The fractional part `v[d+1..]` with trailing zeros stripped.
    fn normalized_frac(v: &Vec<char>, d: usize) -> (r: String)
        requires
            d + 1 <= v@.len(),
            forall|k: int| d + 1 <= k < v@.len() ==> is_digit_char(v@[k]),
        ensures
            r@ == strip_trailing(v@.subrange(d + 1, v@.len() as int)),
            forall|k: int| 0 <= k < r@.len() ==> is_digit_char(r@[k]),
            r@.len() > 0 ==> r@[r@.len() - 1] != '0',
    {
        let ghost sv = v@;
        let len = v.len();
        let mut j: usize = len;
        while j > d + 1 && v[j - 1] == '0'
            invariant
                d + 1 <= j <= len == sv.len(),
                v@ == sv,
                forall|k: int| d + 1 <= k < sv.len() ==> is_digit_char(sv[k]),
                strip_trailing(sv.subrange(d + 1, sv.len() as int)) == strip_trailing(
                    sv.subrange(d + 1, j as int),
                ),
            decreases j,
        {
            proof {
                lemma_strip_trailing_step(sv, d + 1, j as int);
            }
            j -= 1;
        }
        proof {
            let part = sv.subrange(d + 1, j as int);
            if part.len() > 0 {
                assert(part[part.len() - 1] == sv[j - 1]);
            }
            assert(strip_trailing(part) == part);
            lemma_strip_trailing(sv.subrange(d + 1, sv.len() as int));
        }
        string_from_chars(slice_subrange(v.as_slice(), d + 1, j))
    }
}

/// Executable mirror of [`is_digit_char`].
fn is_digit_exec(c: char) -> (r: bool)
    ensures
        r == is_digit_char(c),
{
    let u = c as u32;
    48 <= u && u <= 57
}


/// The tree a numeric lexeme denotes: its digits, normalized.
pub open spec fn num_node_of(s: Seq<char>) -> ExprV {
    ExprV::Num {
        whole: strip_leading(s.subrange(0, find_dot(s, 0))),
        frac: strip_trailing(raw_frac(s)),
    }
}

/// A normalized literal's canonical text parses back to the very same
/// literal node: re-normalizing changes nothing.
pub proof fn lemma_num_text_round_trip(whole: Seq<char>, frac: Seq<char>)
    requires
        norm_num(whole, frac),
    ensures
        num_node_of(spec_text((ExprV::Num { whole, frac }))) == (ExprV::Num { whole, frac }),
{
    let t = spec_text(ExprV::Num { whole, frac });
    if frac.len() == 0 {
        assert(t == whole);
        assert forall|k: int| 0 <= k < t.len() implies t[k] != '.' by {
            assert(is_digit_char(t[k]));
        }
        lemma_find_dot_at(t, 0, t.len() as int);
        assert(t.subrange(0, t.len() as int) =~= t);
        lemma_strip_leading_id(whole);
        assert(raw_frac(t) =~= Seq::<char>::empty());
        lemma_strip_trailing_id(frac);
        assert(num_node_of(t) =~~= (ExprV::Num { whole, frac }));
    } else {
        assert(t == whole + seq!['.'] + frac);
        assert forall|k: int| 0 <= k < whole.len() implies t[k] != '.' by {
            assert(t[k] == whole[k]);
            assert(is_digit_char(whole[k]));
        }
        assert(t[whole.len() as int] == '.');
        lemma_find_dot_at(t, 0, whole.len() as int);
        assert(t.subrange(0, whole.len() as int) =~= whole);
        lemma_strip_leading_id(whole);
        assert(raw_frac(t) =~= frac);
        lemma_strip_trailing_id(frac);
        assert(num_node_of(t) =~~= (ExprV::Num { whole, frac }));
    }
}

/// Stripping leading zeros is the identity on an already-normalized whole
/// part.
proof fn lemma_strip_leading_id(s: Seq<char>)
    requires
        s.len() >= 1,
        s.len() > 1 ==> s[0] != '0',
    ensures
        strip_leading(s) == s,
{
}

/// Stripping trailing zeros is the identity on an already-normalized
/// fractional part.
proof fn lemma_strip_trailing_id(s: Seq<char>)
    requires
        s.len() > 0 ==> s[s.len() - 1] != '0',
    ensures
        strip_trailing(s) == s,
{
}

} // verus!
