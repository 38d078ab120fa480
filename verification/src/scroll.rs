//! Scroll extents read back from a viewer's status line.

use vstd::prelude::*;
use crate::number::{all_digits, digits_number, u64_from_str_radix};
use crate::strings::{chars_of, string_from_chars};

verus! {

/// Unicode `White_Space`, the set that `char::is_whitespace` tests.
pub open spec fn is_space(c: char) -> bool {
    ||| '\t' <= c <= '\r'
    ||| c == ' '
    ||| c == '\u{85}'
    ||| c == '\u{a0}'
    ||| c == '\u{1680}'
    ||| '\u{2000}' <= c <= '\u{200a}'
    ||| c == '\u{2028}'
    ||| c == '\u{2029}'
    ||| c == '\u{202f}'
    ||| c == '\u{205f}'
    ||| c == '\u{3000}'
}

/// See [`is_space`].
pub fn is_space_char(c: char) -> (r: bool)
    ensures
        r == is_space(c),
{
    ('\t' <= c && c <= '\r') || c == ' ' || c == '\u{85}' || c == '\u{a0}' || c == '\u{1680}' || (
    '\u{2000}' <= c && c <= '\u{200a}') || c == '\u{2028}' || c == '\u{2029}' || c == '\u{202f}'
        || c == '\u{205f}' || c == '\u{3000}'
}

/// First index at or after `i` whose character satisfies (`space`) or fails
/// (`!space`) the whitespace test; the length if there is none.
pub open spec fn scan(s: Seq<char>, i: int, space: bool) -> int
    decreases s.len() - i,
{
    if i >= s.len() || is_space(s[i]) == space {
        i
    } else {
        scan(s, i + 1, space)
    }
}

/// Index of the first `/` in `s[a..b]`, if any.
pub open spec fn first_slash(s: Seq<char>, a: int, b: int) -> Option<int>
    decreases b - a,
{
    if a >= b {
        None
    } else if s[a] == '/' {
        Some(a)
    } else {
        first_slash(s, a + 1, b)
    }
}

/// End of the run of ASCII digits in `s[a..b]` that starts at `a`.
pub open spec fn digit_run_end(s: Seq<char>, a: int, b: int) -> int
    decreases b - a,
{
    if a >= b || !('0' <= s[a] <= '9') {
        a
    } else {
        digit_run_end(s, a + 1, b)
    }
}

/// The total that the token `s[a..b]` gives: the digits right after its first
/// `/`, when there are some and they fit in a `u64`.
pub open spec fn token_total(s: Seq<char>, a: int, b: int) -> Option<u64> {
    match first_slash(s, a, b) {
        None => None,
        Some(p) => {
            let e = digit_run_end(s, p + 1, b);
            let ds = s.subrange(p + 1, e);
            if e > p + 1 && digits_number(ds, 10) <= u64::MAX {
                Some(digits_number(ds, 10) as u64)
            } else {
                None
            }
        },
    }
}

/// The first total among the whitespace-separated tokens from `i` on.
pub open spec fn first_total(s: Seq<char>, i: int) -> Option<u64>
    decreases s.len() - i,
{
    let a = scan(s, i, false);
    if a >= s.len() || a < i {
        None
    } else {
        let b = scan(s, a, true);
        match token_total(s, a, b) {
            Some(t) => Some(t),
            None => if i < b <= s.len() {
                first_total(s, b)
            } else {
                None
            },
        }
    }
}

/// The largest display-line anchor for a status such as `JSON  line 221/439 (50%)`:
/// one less than the first total, and at least 1.
pub open spec fn spec_extent_from_status(s: Seq<char>) -> Option<u64> {
    match first_total(s, 0) {
        Some(t) => Some(if t <= 1 { 1 } else { (t - 1) as u64 }),
        None => None,
    }
}

/// `scan` stops at `j` when every character before it fails the test and `j`
/// passes it (or is the end).
pub(crate) proof fn lemma_scan_to(s: Seq<char>, i: int, j: int, space: bool)
    requires
        0 <= i <= j <= s.len(),
        forall|k: int| i <= k < j ==> is_space(#[trigger] s[k]) != space,
        j == s.len() || is_space(s[j]) == space,
    ensures
        scan(s, i, space) == j,
    decreases j - i,
{
    if i < j {
        lemma_scan_to(s, i + 1, j, space);
    }
}

/// The first `/` of `s[a..b]` is at `p` when `s[p]` is one and none comes before.
pub(crate) proof fn lemma_first_slash_at(s: Seq<char>, a: int, p: int, b: int)
    requires
        a <= p < b,
        forall|k: int| a <= k < p ==> #[trigger] s[k] != '/',
        s[p] == '/',
    ensures
        first_slash(s, a, b) == Some(p),
    decreases p - a,
{
    if a < p {
        lemma_first_slash_at(s, a + 1, p, b);
    }
}

/// `s[a..b]` without a `/` has no first `/`.
pub(crate) proof fn lemma_first_slash_none(s: Seq<char>, a: int, b: int)
    requires
        forall|k: int| a <= k < b ==> #[trigger] s[k] != '/',
    ensures
        first_slash(s, a, b) is None,
    decreases b - a,
{
    if a < b {
        lemma_first_slash_none(s, a + 1, b);
    }
}

/// The digit run from `a` ends at `e` when `s[a..e]` are digits and `s[e]` is not
/// one (or `e` is the end of the token).
pub(crate) proof fn lemma_digit_run_to(s: Seq<char>, a: int, e: int, b: int)
    requires
        a <= e <= b,
        forall|k: int| a <= k < e ==> '0' <= #[trigger] s[k] <= '9',
        e == b || !('0' <= s[e] <= '9'),
    ensures
        digit_run_end(s, a, b) == e,
    decreases e - a,
{
    if a < e {
        lemma_digit_run_to(s, a + 1, e, b);
    }
}

proof fn lemma_scan_bounds(s: Seq<char>, i: int, space: bool)
    requires
        0 <= i <= s.len(),
    ensures
        i <= scan(s, i, space) <= s.len(),
        forall|k: int| i <= k < scan(s, i, space) ==> is_space(#[trigger] s[k]) != space,
        scan(s, i, space) < s.len() ==> is_space(s[scan(s, i, space)]) == space,
    decreases s.len() - i,
{
    if i < s.len() && is_space(s[i]) != space {
        lemma_scan_bounds(s, i + 1, space);
    }
}

fn scan_exec(cs: &Vec<char>, i: usize, space: bool) -> (r: usize)
    requires
        i <= cs@.len(),
    ensures
        r == scan(cs@, i as int, space),
{
    let mut j = i;
    proof {
        lemma_scan_bounds(cs@, i as int, space);
    }
    while j < cs.len() && is_space_char(cs[j]) != space
        invariant
            i <= j <= cs@.len(),
            scan(cs@, j as int, space) == scan(cs@, i as int, space),
        decreases cs@.len() - j,
    {
        j = j + 1;
    }
    j
}

proof fn lemma_digit_run(s: Seq<char>, a: int, b: int)
    requires
        0 <= a <= b <= s.len(),
    ensures
        a <= digit_run_end(s, a, b) <= b,
        all_digits(s.subrange(a, digit_run_end(s, a, b)), 10) || digit_run_end(s, a, b) == a,
    decreases b - a,
{
    if a < b && '0' <= s[a] <= '9' {
        lemma_digit_run(s, a + 1, b);
        let e = digit_run_end(s, a, b);
        let ds = s.subrange(a, e);
        assert forall|i: int| 0 <= i < ds.len() implies (#[trigger] crate::number::digit_value(
            ds[i],
            10,
        )) is Some by {
            if i > 0 {
                assert(ds[i] == s.subrange(a + 1, e)[i - 1]);
            }
        }
    }
}

/// The total of the token `cs[a..b]`, parsed with std's integer parser.
fn token_total_exec(cs: &Vec<char>, a: usize, b: usize) -> (r: Option<u64>)
    requires
        a <= b <= cs@.len(),
    ensures
        r == token_total(cs@, a as int, b as int),
{
    let mut p = a;
    while p < b && cs[p] != '/'
        invariant
            a <= p <= b <= cs@.len(),
            first_slash(cs@, p as int, b as int) == first_slash(cs@, a as int, b as int),
        decreases b - p,
    {
        p = p + 1;
    }
    if p >= b {
        return None;
    }
    let mut e = p + 1;
    while e < b && '0' <= cs[e] && cs[e] <= '9'
        invariant
            p + 1 <= e <= b <= cs@.len(),
            digit_run_end(cs@, e as int, b as int) == digit_run_end(cs@, p + 1, b as int),
        decreases b - e,
    {
        e = e + 1;
    }
    if e == p + 1 {
        return None;
    }
    proof {
        lemma_digit_run(cs@, p + 1, b as int);
    }
    let digits = string_from_chars(cs, p + 1, e);
    proof {
        let ds = cs@.subrange(p + 1, e as int);
        assert(crate::number::unsigned_digits(digits@) =~= ds);
    }
    match u64_from_str_radix(digits.as_str(), 10) {
        Ok(v) => Some(v),
        Err(_) => None,
    }
}

/// Reads the total number of display lines from a status such as
/// `JSON  line 221/439 (50%)` (from the first whitespace-separated token whose
/// digits after its first `/` parse) and returns the largest anchor for it:
/// one less than the total, at least 1.
pub fn parse_display_line_extent_from_status(status: &str) -> (r: Option<u64>)
    ensures
        r == spec_extent_from_status(status@),
{
    let cs = chars_of(status);
    let mut i: usize = 0;
    while i < cs.len()
        invariant
            i <= cs@.len(),
            cs@ == status@,
            first_total(cs@, i as int) == first_total(cs@, 0),
        decreases cs@.len() - i,
    {
        let a = scan_exec(&cs, i, false);
        proof {
            lemma_scan_bounds(cs@, i as int, false);
        }
        if a >= cs.len() {
            return None;
        }
        let b = scan_exec(&cs, a, true);
        proof {
            lemma_scan_bounds(cs@, a as int, true);
        }
        proof {
            assert(a < b);
        }
        match token_total_exec(&cs, a, b) {
            Some(t) => {
                let r = if t <= 1 {
                    1
                } else {
                    t - 1
                };
                return Some(r);
            },
            None => {},
        }
        i = b;
    }
    assert(first_total(cs@, i as int) is None);
    None
}

} // verus!
