//! The URL fragment names a line or an inclusive line range: `L<n>`, or
//! `L<a>-L<b>`. The two bounds are normalised into ascending order, so the
//! order they are written in does not matter.

use vstd::prelude::*;
use crate::digits::{all_digits, decimal_ok, digits_value, is_digit, lemma_digits_value_nonneg};
use crate::digits::parse_decimal;
use crate::scan::{find_char, lemma_find_char_absent, lemma_find_char_witness};
use crate::scan::find_char_from;
use crate::PermalinkError;

verus! {

/// A 1-based inclusive line range; well-formed when `1 <= start <= end`.
#[derive(Clone, Copy, Debug, PartialEq, Eq, Structural)]
pub struct LineRange {
    pub start: usize,
    pub end: usize,
}

impl LineRange {
    pub open spec fn wf(self) -> bool {
        1 <= self.start <= self.end
    }
}

/// A token with its optional leading `L` removed.
pub open spec fn strip_l(t: Seq<char>) -> Seq<char> {
    if t.len() > 0 && t[0] == 'L' {
        t.skip(1)
    } else {
        t
    }
}

/// A token names a line when, after the `L` prefix, a representable
/// positive number remains.
pub open spec fn token_ok(t: Seq<char>) -> bool {
    decimal_ok(strip_l(t)) && digits_value(strip_l(t)) >= 1
}

pub open spec fn token_value(t: Seq<char>) -> int {
    digits_value(strip_l(t))
}

/// What a whole fragment denotes: one token gives the one-line range
/// `[n, n]`; two tokens separated by `-` give the range from the smaller
/// to the larger; anything else denotes nothing.
pub open spec fn fragment_range(f: Seq<char>) -> Option<(int, int)> {
    let i = find_char(f, '-');
    if i == f.len() {
        if token_ok(f) {
            Some((token_value(f), token_value(f)))
        } else {
            None
        }
    } else {
        let t1 = f.take(i);
        let t2 = f.skip(i + 1);
        if find_char(t2, '-') == t2.len() && token_ok(t1) && token_ok(t2) {
            let a = token_value(t1);
            let b = token_value(t2);
            if a <= b {
                Some((a, b))
            } else {
                Some((b, a))
            }
        } else {
            None
        }
    }
}

/// A fragment naming one line, `L` before its digits, denotes the
/// one-line range `[n, n]`.
pub proof fn lemma_fragment_single(d: Seq<char>)
    requires
        all_digits(d),
        d.len() > 0,
        1 <= digits_value(d) <= usize::MAX as int,
    ensures
        fragment_range(seq!['L'] + d) == Some((digits_value(d), digits_value(d))),
{
    let f = seq!['L'] + d;
    assert forall|j: int| 0 <= j < f.len() implies f[j] != '-' by {
        if j >= 1 {
            assert(is_digit(d[j - 1]));
        }
    }
    lemma_find_char_absent(f, '-');
    assert(strip_l(f) =~= d);
}

/// A fragment naming two lines denotes the range from the smaller to the
/// larger, whichever order they are written in.
pub proof fn lemma_fragment_pair(d1: Seq<char>, d2: Seq<char>)
    requires
        all_digits(d1),
        d1.len() > 0,
        1 <= digits_value(d1) <= usize::MAX as int,
        all_digits(d2),
        d2.len() > 0,
        1 <= digits_value(d2) <= usize::MAX as int,
    ensures
        fragment_range(seq!['L'] + d1 + seq!['-'] + seq!['L'] + d2) == Some(
            (
                if digits_value(d1) <= digits_value(d2) {
                    digits_value(d1)
                } else {
                    digits_value(d2)
                },
                if digits_value(d1) <= digits_value(d2) {
                    digits_value(d2)
                } else {
                    digits_value(d1)
                },
            ),
        ),
{
    let f = seq!['L'] + d1 + seq!['-'] + seq!['L'] + d2;
    let i = 1 + d1.len() as int;
    assert(f[i] == '-');
    assert forall|j: int| 0 <= j < i implies f[j] != '-' by {
        if j >= 1 {
            assert(f[j] == d1[j - 1]);
            assert(is_digit(d1[j - 1]));
        }
    }
    lemma_find_char_witness(f, '-', i);
    let t1 = f.take(i);
    let t2 = f.skip(i + 1);
    assert(t1 =~= seq!['L'] + d1);
    assert(t2 =~= seq!['L'] + d2);
    assert forall|j: int| 0 <= j < t2.len() implies t2[j] != '-' by {
        if j >= 1 {
            assert(is_digit(d2[j - 1]));
        }
    }
    lemma_find_char_absent(t2, '-');
    assert(strip_l(t1) =~= d1);
    assert(strip_l(t2) =~= d2);
}

/// A dash-free fragment holding a non-digit after its `L` prefix denotes
/// no line range, so parsing it must fail.
pub proof fn lemma_fragment_non_numeric(f: Seq<char>, i: int)
    requires
        forall|j: int| 0 <= j < f.len() ==> f[j] != '-',
        0 <= i < strip_l(f).len(),
        !is_digit(strip_l(f)[i]),
    ensures
        fragment_range(f) == None::<(int, int)>,
{
    lemma_find_char_absent(f, '-');
    assert(!all_digits(strip_l(f)));
}

/// Reads one token: an optional `L`, then a positive line number.
fn parse_token(t: &str) -> (r: Option<usize>)
    ensures
        token_ok(t@) ==> r == Some(token_value(t@) as usize),
        !token_ok(t@) ==> r is None,
{
    let n = t.unicode_len();
    let rest: &str = if n > 0 && t.get_char(0) == 'L' {
        t.substring_char(1, n)
    } else {
        t
    };
    proof {
        assert(rest@ =~= strip_l(t@));
        if decimal_ok(strip_l(t@)) {
            lemma_digits_value_nonneg(strip_l(t@));
        }
    }
    match parse_decimal(rest) {
        Some(v) => {
            if v >= 1 {
                Some(v)
            } else {
                None
            }
        },
        None => None,
    }
}

/// Reads the line selector out of a URL fragment, normalising the two
/// bounds into ascending order; any other fragment is an invalid line
/// number.
pub fn parse_github_url_line_numbers(fragment: &str) -> (r: Result<LineRange, PermalinkError>)
    ensures
        r == match fragment_range(fragment@) {
            Some((a, b)) => Ok::<LineRange, PermalinkError>(
                LineRange { start: a as usize, end: b as usize },
            ),
            None => Err::<LineRange, PermalinkError>(PermalinkError::InvalidLineNumber),
        },
        r matches Ok(lr) ==> lr.wf(),
{
    let n = fragment.unicode_len();
    let i = find_char_from(fragment, '-', 0);
    proof {
        assert(fragment@.skip(0) =~= fragment@);
    }
    if i == n {
        match parse_token(fragment) {
            Some(v) => Ok(LineRange { start: v, end: v }),
            None => Err(PermalinkError::InvalidLineNumber),
        }
    } else {
        let t1 = fragment.substring_char(0, i);
        let t2 = fragment.substring_char(i + 1, n);
        proof {
            assert(t1@ =~= fragment@.take(i as int));
            assert(t2@ =~= fragment@.skip(i as int + 1));
        }
        let k = find_char_from(fragment, '-', i + 1);
        proof {
            assert(find_char(t2@, '-') == k - (i + 1));
        }
        if k < n {
            return Err(PermalinkError::InvalidLineNumber);
        }
        match (parse_token(t1), parse_token(t2)) {
            (Some(a), Some(b)) => {
                if a <= b {
                    Ok(LineRange { start: a, end: b })
                } else {
                    Ok(LineRange { start: b, end: a })
                }
            },
            _ => Err(PermalinkError::InvalidLineNumber),
        }
    }
}

} // verus!
