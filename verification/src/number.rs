//! Unsigned integers written in a radix, as std's integer parser reads them.

use std::num::ParseIntError;
use vstd::prelude::*;
use crate::strings::{decimal, digit_char, digits};

verus! {

/// `n` read as a signed 64-bit number (`n as i64`): values past `i64::MAX` wrap
/// around to negative ones.
pub open spec fn signed_of(n: u64) -> int {
    if n <= i64::MAX {
        n as int
    } else {
        n - 0x1_0000_0000_0000_0000
    }
}

/// See [`signed_of`].
pub fn signed_from(n: u64) -> (r: i64)
    ensures
        r == signed_of(n),
{
    if n <= i64::MAX as u64 {
        n as i64
    } else {
        let m = (u64::MAX - n) as i64;
        -m - 1
    }
}


/// `std::num::ParseIntError`, carried opaquely.
#[verifier::external_type_specification]
#[verifier::external_body]
pub struct ExParseIntError(ParseIntError);

/// The value of `c` as a digit in `radix` (10 or 16), as `char::to_digit` reads it.
pub open spec fn digit_value(c: char, radix: nat) -> Option<nat> {
    if '0' <= c <= '9' && (c as nat) - 48 < radix {
        Some((c as nat - 48) as nat)
    } else if radix == 16 && 'a' <= c <= 'f' {
        Some((c as nat - 87) as nat)
    } else if radix == 16 && 'A' <= c <= 'F' {
        Some((c as nat - 55) as nat)
    } else {
        None
    }
}

/// `s` is a non-empty run of digits in `radix`.
pub open spec fn all_digits(s: Seq<char>, radix: nat) -> bool {
    s.len() > 0 && forall|i: int| 0 <= i < s.len() ==> (#[trigger] digit_value(s[i], radix)) is Some
}

/// The number that the digits `s` denote in `radix`.
pub open spec fn digits_number(s: Seq<char>, radix: nat) -> nat
    decreases s.len(),
{
    if s.len() == 0 {
        0
    } else {
        digits_number(s.drop_last(), radix) * radix + match digit_value(s.last(), radix) {
            Some(d) => d,
            None => 0,
        }
    }
}

/// The digits of an unsigned integer literal: the text after one optional `+`.
pub open spec fn unsigned_digits(s: Seq<char>) -> Seq<char> {
    if s.len() > 0 && s[0] == '+' {
        s.drop_first()
    } else {
        s
    }
}

/// `s` is a `u64` written in `radix`, as std reads it: an optional `+`, then
/// digits only, with a value that fits.
pub open spec fn parses_as_u64(s: Seq<char>, radix: nat) -> bool {
    all_digits(unsigned_digits(s), radix) && digits_number(unsigned_digits(s), radix) <= u64::MAX
}

/// Wraps `u64::from_str_radix`. Its documentation: the text is an optional `+`
/// followed by digits of the radix only (letters of either case above 9), and
/// an error is returned otherwise or when the value does not fit. The contract
/// says exactly that; which kind of error comes back is not stated.
#[verifier::external_body]
pub fn u64_from_str_radix(s: &str, radix: u32) -> (r: Result<u64, ParseIntError>)
    requires
        radix == 10 || radix == 16,
    ensures
        r is Ok <==> parses_as_u64(s@, radix as nat),
        r matches Ok(v) ==> v == digits_number(unsigned_digits(s@), radix as nat),
{
    u64::from_str_radix(s, radix)
}

/// What `{}` writes for an unsigned number reads back as that number: its
/// characters are decimal digits and they denote `n`.
pub proof fn lemma_decimal_reads_back(n: nat)
    ensures
        all_digits(decimal(n), 10),
        digits_number(decimal(n), 10) == n,
        forall|i: int| 0 <= i < decimal(n).len() ==> '0' <= #[trigger] decimal(n)[i] <= '9',
    decreases n,
{
    let s = decimal(n);
    if n < 10 {
        assert(s == seq![digit_char(n, false)]);
        assert(s.drop_last() =~= Seq::<char>::empty());
        assert(digits_number(s.drop_last(), 10) == 0);
        assert(digit_value(s.last(), 10) == Some(n));
        assert(digits_number(s, 10) == digits_number(s.drop_last(), 10) * 10 + n);
    } else {
        let q = n / 10;
        let d = n % 10;
        assert(q < n);
        lemma_decimal_reads_back(q);
        assert(s == digits(q, 10, false).push(digit_char(d, false)));
        assert(s.drop_last() =~= decimal(q));
        assert(digit_value(s.last(), 10) == Some(d));
        assert(n == q * 10 + d);
        assert(digits_number(s, 10) == digits_number(s.drop_last(), 10) * 10 + d);
        assert forall|i: int| 0 <= i < s.len() implies '0' <= #[trigger] s[i] <= '9' by {
            if i < s.len() - 1 {
                assert(s[i] == decimal(q)[i]);
            }
        }
        assert forall|i: int| 0 <= i < s.len() implies (#[trigger] digit_value(s[i], 10)) is Some by {
            assert('0' <= s[i] <= '9');
        }
    }
}

} // verus!
