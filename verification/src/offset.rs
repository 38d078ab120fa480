//! Byte offsets given on the command line: decimal, or hexadecimal after `0x`.

use std::num::ParseIntError;
use vstd::prelude::*;
use crate::number::{digits_number, lemma_decimal_reads_back, parses_as_u64, u64_from_str_radix, unsigned_digits};
use crate::strings::decimal;
use crate::strings::{chars_of, string_from_chars};

verus! {

/// Why an offset was refused; each carries std's parse error.
#[derive(Debug)]
pub enum OffsetError {
    /// After `0x`/`0X`, the rest is not a hexadecimal `u64`.
    InvalidHex(ParseIntError),
    /// The text is not a decimal `u64`.
    InvalidDecimal(ParseIntError),
}

/// `s` starts with `0x` or `0X`.
pub open spec fn hex_prefixed(s: Seq<char>) -> bool {
    s.len() >= 2 && s[0] == '0' && (s[1] == 'x' || s[1] == 'X')
}

/// The digits to parse and their radix.
pub open spec fn offset_digits(s: Seq<char>) -> (Seq<char>, nat) {
    if hex_prefixed(s) {
        (s.skip(2), 16)
    } else {
        (s, 10)
    }
}

/// Parses a byte offset: hexadecimal after a `0x` or `0X` prefix, decimal otherwise.
pub fn parse_offset(s: &str) -> (r: Result<u64, OffsetError>)
    ensures
        r is Ok <==> parses_as_u64(offset_digits(s@).0, offset_digits(s@).1),
        r matches Ok(v) ==> v == digits_number(
            unsigned_digits(offset_digits(s@).0),
            offset_digits(s@).1,
        ),
        r matches Err(e) ==> (e is InvalidHex <==> hex_prefixed(s@)),
{
    let cs = chars_of(s);
    if cs.len() >= 2 && cs[0] == '0' && (cs[1] == 'x' || cs[1] == 'X') {
        let rest = string_from_chars(&cs, 2, cs.len());
        proof {
            assert(rest@ =~= s@.skip(2));
        }
        match u64_from_str_radix(rest.as_str(), 16) {
            Ok(v) => Ok(v),
            Err(e) => Err(OffsetError::InvalidHex(e)),
        }
    } else {
        match u64_from_str_radix(s, 10) {
            Ok(v) => Ok(v),
            Err(e) => Err(OffsetError::InvalidDecimal(e)),
        }
    }
}

/// An offset written in decimal, as `{}` prints it, is read back as itself.
pub proof fn lemma_decimal_offset_reads_back(n: u64)
    ensures
        !hex_prefixed(decimal(n as nat)),
        parses_as_u64(offset_digits(decimal(n as nat)).0, offset_digits(decimal(n as nat)).1),
        digits_number(unsigned_digits(offset_digits(decimal(n as nat)).0), offset_digits(decimal(n as nat)).1)
            == n,
{
    let d = decimal(n as nat);
    lemma_decimal_reads_back(n as nat);
    assert('0' <= d[0] <= '9');
    if d.len() >= 2 {
        assert('0' <= d[1] <= '9');
    }
    assert(unsigned_digits(d) == d);
}

} // verus!
