//! Character-level helpers: UTF-8 widths, building strings, and number formatting.

use vstd::prelude::*;
use vstd::string::*;
use vstd::utf8::*;

verus! {

/// Number of bytes that UTF-8 uses for `c` (what `char::len_utf8` returns).
pub open spec fn utf8_width(c: char) -> nat {
    if (c as u32) < 0x80 {
        1
    } else if (c as u32) < 0x800 {
        2
    } else if (c as u32) < 0x10000 {
        3
    } else {
        4
    }
}

/// Byte length of the UTF-8 encoding of `s`.
pub open spec fn utf8_len(s: Seq<char>) -> nat
    decreases s.len(),
{
    if s.len() == 0 {
        0
    } else {
        utf8_len(s.drop_last()) + utf8_width(s.last())
    }
}

/// The characters that `String::from_utf8_lossy` produces for `bytes`.
pub uninterp spec fn utf8_lossy(bytes: Seq<u8>) -> Seq<char>;

/// Wraps `String::from_utf8_lossy`: decodes `bytes`, replacing each invalid
/// sequence by U+FFFD. The contract names the result and states the documented
/// fact that well-formed UTF-8 decodes to exactly its characters; it does not
/// state which replacement characters appear for malformed input.
#[verifier::external_body]
pub fn lossy_string(bytes: &[u8]) -> (s: String)
    ensures
        s@ == utf8_lossy(bytes@),
        valid_utf8(bytes@) ==> s@ == decode_utf8(bytes@),
{
    String::from_utf8_lossy(bytes).into_owned()
}

/// Wraps `String::push`: appends one character.
#[verifier::external_body]
pub fn push_char(s: &mut String, c: char)
    ensures
        final(s)@ == old(s)@.push(c),
{
    s.push(c);
}

/// Width in bytes of `c` in UTF-8.
pub fn char_utf8_width(c: char) -> (w: u64)
    ensures
        w == utf8_width(c),
{
    let v = c as u32;
    if v < 0x80 {
        1
    } else if v < 0x800 {
        2
    } else if v < 0x10000 {
        3
    } else {
        4
    }
}

/// The characters of `s`, in order.
pub fn chars_of(s: &str) -> (v: Vec<char>)
    ensures
        v@ == s@,
{
    let mut v: Vec<char> = Vec::new();
    for c in it: s.chars()
        invariant
            v@ == it.seq().take(it.index() as int),
    {
        v.push(c);
    }
    v
}


/// The ASCII digit for `d` in base 16 (`0`-`9`, then `a`-`f` or `A`-`F`).
pub open spec fn digit_char(d: nat, upper: bool) -> char {
    if d < 10 {
        (48 + d) as char
    } else if upper {
        (55 + d) as char
    } else {
        (87 + d) as char
    }
}

/// Digits of `n` in base `radix` (10 or 16), most significant first, no leading zeros.
pub open spec fn digits(n: nat, radix: nat, upper: bool) -> Seq<char>
    recommends
        radix >= 2,
    decreases n,
{
    if n < radix || radix < 2 {
        seq![digit_char(n, upper)]
    } else {
        proof {
            assert(n / radix < n) by (nonlinear_arith)
                requires
                    n >= radix,
                    radix >= 2,
            ;
        }
        digits(n / radix, radix, upper).push(digit_char(n % radix, upper))
    }
}

/// `n` in decimal, as `{}` formats an unsigned integer.
pub open spec fn decimal(n: nat) -> Seq<char> {
    digits(n, 10, false)
}

/// `d` left-padded with `0` up to `width` characters (`{:0width$}`).
pub open spec fn zero_pad(d: Seq<char>, width: nat) -> Seq<char> {
    if d.len() >= width {
        d
    } else {
        Seq::new((width - d.len()) as nat, |i: int| '0') + d
    }
}

/// `n` in hexadecimal, zero-padded to `width` (`{:08x}`, `{:02x}`, `{:08X}`).
pub open spec fn hex_padded(n: nat, width: nat, upper: bool) -> Seq<char> {
    zero_pad(digits(n, 16, upper), width)
}

/// The character for digit `d` (below 16).
pub fn digit_to_char(d: u64, upper: bool) -> (c: char)
    requires
        d < 16,
    ensures
        c == digit_char(d as nat, upper),
{
    let v: u32 = if d < 10 {
        48 + d as u32
    } else if upper {
        55 + d as u32
    } else {
        87 + d as u32
    };
    (v as u8) as char
}

/// Appends the base-`radix` digits of `n`.
pub fn push_digits(s: &mut String, n: u64, radix: u64, upper: bool)
    requires
        radix == 10 || radix == 16,
    ensures
        final(s)@ == old(s)@ + digits(n as nat, radix as nat, upper),
    decreases n,
{
    if n >= radix {
        push_digits(s, n / radix, radix, upper);
    }
    push_char(s, digit_to_char(n % radix, upper));
    proof {
        assert((n as nat) % (radix as nat) == (n % radix) as nat);
    }
}

/// Appends `n` in decimal.
pub fn push_decimal(s: &mut String, n: u64)
    ensures
        final(s)@ == old(s)@ + decimal(n as nat),
{
    push_digits(s, n, 10, false);
}

/// Number of digits of `n` in base `radix`.
pub fn digit_count(n: u64, radix: u64) -> (k: u64)
    requires
        radix == 10 || radix == 16,
    ensures
        k == digits(n as nat, radix as nat, false).len(),
        k <= 64,
    decreases n,
{
    if n >= radix {
        let k = digit_count(n / radix, radix);
        proof {
            lemma_digits_len_bound(n as nat, radix as nat);
        }
        k + 1
    } else {
        1
    }
}

proof fn lemma_digits_len_bound(n: nat, radix: nat)
    requires
        radix == 10 || radix == 16,
        n < 0x1_0000_0000_0000_0000,
    ensures
        digits(n, radix, false).len() <= 64,
{
    vstd::arithmetic::power2::lemma2_to64();
    lemma_digits_len_pow(n, radix, 64);
}

/// Fewer than `2^m` means at most `m` digits (for `m >= 1`).
proof fn lemma_digits_len_pow(n: nat, radix: nat, m: nat)
    requires
        radix >= 2,
        m >= 1,
        n < vstd::arithmetic::power2::pow2(m),
    ensures
        digits(n, radix, false).len() <= m,
    decreases m,
{
    if n >= radix {
        vstd::arithmetic::power2::lemma_pow2_unfold(m);
        let p = vstd::arithmetic::power2::pow2((m - 1) as nat);
        assert(n / radix < p) by (nonlinear_arith)
            requires
                n < 2 * p,
                radix >= 2,
        {
            assert(n / radix <= n / 2) by {
                vstd::arithmetic::div_mod::lemma_div_is_ordered_by_denominator(n as int, 2, radix as int);
            }
        }
        if m == 1 {
            assert(vstd::arithmetic::power2::pow2(0) == 1) by {
                vstd::arithmetic::power2::lemma2_to64();
            }
        } else {
            lemma_digits_len_pow(n / radix, radix, (m - 1) as nat);
        }
    }
}

/// Appends `n` in hexadecimal, zero-padded to `width` characters.
pub fn push_hex_padded(s: &mut String, n: u64, width: u64, upper: bool)
    ensures
        final(s)@ == old(s)@ + hex_padded(n as nat, width as nat, upper),
{
    let k = digit_count(n, 16);
    proof {
        lemma_digits_len_case(n as nat, 16, upper);
    }
    let ghost start = s@;
    let mut i: u64 = k;
    while i < width
        invariant
            k <= i <= width || (k > width && i == k),
            s@ == start + Seq::new((i - k) as nat, |j: int| '0'),
        decreases width - i,
    {
        push_char(s, '0');
        i = i + 1;
        proof {
            assert(s@ =~= start + Seq::new((i - k) as nat, |j: int| '0'));
        }
    }
    push_digits(s, n, 16, upper);
    proof {
        if k >= width {
            assert(Seq::new(0nat, |j: int| '0') =~= Seq::<char>::empty());
            assert(s@ =~= old(s)@ + hex_padded(n as nat, width as nat, upper));
        } else {
            assert(s@ =~= old(s)@ + hex_padded(n as nat, width as nat, upper));
        }
    }
}

proof fn lemma_digits_len_case(n: nat, radix: nat, upper: bool)
    requires
        radix >= 2,
    ensures
        digits(n, radix, upper).len() == digits(n, radix, false).len(),
    decreases n,
{
    if n >= radix {
        assert(n / radix < n) by (nonlinear_arith)
            requires
                n >= radix,
                radix >= 2,
        ;
        lemma_digits_len_case(n / radix, radix, upper);
    }
}

/// A string holding `cs[lo..hi]`.
pub fn string_from_chars(cs: &Vec<char>, lo: usize, hi: usize) -> (s: String)
    requires
        lo <= hi <= cs@.len(),
    ensures
        s@ == cs@.subrange(lo as int, hi as int),
{
    let mut s = String::new();
    let mut i = lo;
    while i < hi
        invariant
            lo <= i <= hi <= cs@.len(),
            s@ == cs@.subrange(lo as int, i as int),
        decreases hi - i,
    {
        push_char(&mut s, cs[i]);
        i = i + 1;
        proof {
            assert(s@ =~= cs@.subrange(lo as int, i as int));
        }
    }
    s
}

/// `a + b`, held at `u64::MAX` where it would overflow.
pub open spec fn sat_add(a: int, b: int) -> int {
    if a + b > u64::MAX {
        u64::MAX as int
    } else {
        a + b
    }
}

/// `utf8_len` of a prefix grows by the width of the next character.
pub proof fn lemma_utf8_len_take_succ(s: Seq<char>, i: int)
    requires
        0 <= i < s.len(),
    ensures
        utf8_len(s.take(i + 1)) == utf8_len(s.take(i)) + utf8_width(s[i]),
{
    assert(s.take(i + 1).drop_last() =~= s.take(i));
}

/// `utf8_len` of a concatenation is the sum.
pub proof fn lemma_utf8_len_concat(a: Seq<char>, b: Seq<char>)
    ensures
        utf8_len(a + b) == utf8_len(a) + utf8_len(b),
    decreases b.len(),
{
    if b.len() > 0 {
        assert((a + b).drop_last() =~= a + b.drop_last());
        lemma_utf8_len_concat(a, b.drop_last());
    } else {
        assert(a + b =~= a);
    }
}

/// A byte takes exactly two hex digits.
pub proof fn lemma_hex2_len(b: u8)
    ensures
        hex_padded(b as nat, 2, false).len() == 2,
{
    reveal_with_fuel(digits, 2);
    if (b as nat) >= 16 {
        assert((b as nat) / 16 < 16);
    }
}

/// `s` begins with `prefix`.
pub open spec fn has_prefix(s: Seq<char>, prefix: Seq<char>) -> bool {
    s.len() >= prefix.len() && s.take(prefix.len() as int) == prefix
}

/// Whether `s` begins with `prefix`.
pub fn starts_with(s: &str, prefix: &str) -> (r: bool)
    ensures
        r == has_prefix(s@, prefix@),
{
    let a = chars_of(s);
    let b = chars_of(prefix);
    if a.len() < b.len() {
        return false;
    }
    let mut i: usize = 0;
    while i < b.len()
        invariant
            i <= b@.len() <= a@.len(),
            a@ == s@,
            b@ == prefix@,
            a@.take(i as int) == b@.take(i as int),
        decreases b@.len() - i,
    {
        if a[i] != b[i] {
            assert(a@.take(b@.len() as int)[i as int] != b@[i as int]);
            return false;
        }
        i = i + 1;
        assert(a@.take(i as int) =~= b@.take(i as int));
    }
    assert(b@.take(b@.len() as int) =~= b@);
    true
}

/// Whether `a` and `b` hold the same characters.
pub fn str_equal(a: &str, b: &str) -> (r: bool)
    ensures
        r == (a@ == b@),
{
    let x = chars_of(a);
    let y = chars_of(b);
    if x.len() != y.len() {
        return false;
    }
    let mut i: usize = 0;
    while i < x.len()
        invariant
            i <= x@.len() == y@.len(),
            x@ == a@,
            y@ == b@,
            x@.take(i as int) == y@.take(i as int),
        decreases x@.len() - i,
    {
        if x[i] != y[i] {
            assert(x@[i as int] != y@[i as int]);
            return false;
        }
        i = i + 1;
        assert(x@.take(i as int) =~= y@.take(i as int));
    }
    assert(x@ =~= x@.take(x@.len() as int));
    assert(y@ =~= y@.take(y@.len() as int));
    true
}

} // verus!
