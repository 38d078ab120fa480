//! How content rows are colored: the class of each row (or part of a row) by
//! viewer. The colors themselves are the caller's theme.

use vstd::prelude::*;
use crate::json_tiers::first_char;
use crate::number::{digits_number, parses_as_u64, u64_from_str_radix, unsigned_digits};
use crate::scroll::{is_space, is_space_char};
use crate::strings::{chars_of, has_prefix, starts_with, str_equal, string_from_chars};

verus! {

/// Which styling a viewer's rows get.
#[derive(Debug, Clone, Copy, PartialEq, Eq, Structural)]
pub enum ContentStyle {
    Hex,
    Json,
    Text,
}

/// Rows of the viewer named `Hex` are styled as hex, of `JSON` as JSON, of any
/// other viewer as text.
pub fn content_style(viewer_name: &str) -> (s: ContentStyle)
    ensures
        s == if viewer_name@ == "Hex"@ {
            ContentStyle::Hex
        } else if viewer_name@ == "JSON"@ {
            ContentStyle::Json
        } else {
            ContentStyle::Text
        },
{
    if str_equal(viewer_name, "Hex") {
        ContentStyle::Hex
    } else if str_equal(viewer_name, "JSON") {
        ContentStyle::Json
    } else {
        ContentStyle::Text
    }
}

/// `s` without its leading whitespace (`str::trim_start`).
pub open spec fn trim_start_chars(s: Seq<char>) -> Seq<char> {
    s.skip(lead_space(s, 0))
}

/// Index of the first character at or after `i` that is not whitespace.
pub open spec fn lead_space(s: Seq<char>, i: int) -> int
    decreases s.len() - i,
{
    if i < 0 || i >= s.len() || !is_space(s[i]) {
        i
    } else {
        lead_space(s, i + 1)
    }
}

proof fn lemma_lead_space(s: Seq<char>, i: int)
    requires
        0 <= i <= s.len(),
    ensures
        i <= lead_space(s, i) <= s.len(),
    decreases s.len() - i,
{
    if i < s.len() && is_space(s[i]) {
        lemma_lead_space(s, i + 1);
    }
}

/// `s` without its leading whitespace.
pub fn trim_start(s: &str) -> (r: String)
    ensures
        r@ == trim_start_chars(s@),
{
    let cs = chars_of(s);
    let mut i: usize = 0;
    while i < cs.len() && is_space_char(cs[i])
        invariant
            i <= cs@.len(),
            cs@ == s@,
            lead_space(cs@, i as int) == lead_space(cs@, 0),
        decreases cs@.len() - i,
    {
        i = i + 1;
    }
    let r = string_from_chars(&cs, i, cs.len());
    proof {
        assert(r@ =~= trim_start_chars(s@));
    }
    r
}

/// The class of a text row.
#[derive(Debug, Clone, Copy, PartialEq, Eq, Structural)]
pub enum TextClass {
    /// A viewer's own message, such as `(empty file)`.
    System,
    /// A comment line (`//`, `#` or `--`).
    Comment,
    Body,
}

/// A text row is a viewer message when it starts (after whitespace) with `(`,
/// a comment when it starts with `//`, `#` or `--`, body text otherwise.
pub open spec fn spec_text_class(line: Seq<char>) -> TextClass {
    let t = trim_start_chars(line);
    if has_prefix(t, "("@) {
        TextClass::System
    } else if has_prefix(t, "//"@) || has_prefix(t, "#"@) || has_prefix(t, "--"@) {
        TextClass::Comment
    } else {
        TextClass::Body
    }
}

/// See [`spec_text_class`].
pub fn text_class(line: &str) -> (c: TextClass)
    ensures
        c == spec_text_class(line@),
{
    let t = trim_start(line);
    if starts_with(t.as_str(), "(") {
        TextClass::System
    } else if starts_with(t.as_str(), "//") || starts_with(t.as_str(), "#") || starts_with(
        t.as_str(),
        "--",
    ) {
        TextClass::Comment
    } else {
        TextClass::Body
    }
}

/// How a JSON row is styled.
#[derive(Debug, Clone, PartialEq, Eq)]
pub enum JsonRowStyle {
    /// A row starting with a bracket.
    Bracket,
    /// A viewer's own message.
    System,
    /// A key (up to and with the first `:`) and its value.
    KeyValue(String, String),
    Body,
}

/// A JSON row is a bracket row when it starts (after whitespace) with a bracket
/// or brace, a viewer message when it starts with `(`, a key and value when it
/// holds a `:` (split just after the first one), body text otherwise.
pub open spec fn spec_json_row_style(line: Seq<char>, style: JsonRowStyle) -> bool {
    let t = trim_start_chars(line);
    if has_prefix(t, "{"@) || has_prefix(t, "}"@) || has_prefix(t, "["@) || has_prefix(t, "]"@) {
        style == JsonRowStyle::Bracket
    } else if has_prefix(t, "("@) {
        style == JsonRowStyle::System
    } else {
        match first_char(line, ':', 0) {
            Some(i) => style matches JsonRowStyle::KeyValue(k, v) && k@ == line.take(i + 1) && v@
                == line.skip(i + 1),
            None => style == JsonRowStyle::Body,
        }
    }
}

/// See [`spec_json_row_style`].
pub fn json_row_style(line: &str) -> (s: JsonRowStyle)
    ensures
        spec_json_row_style(line@, s),
{
    let t = trim_start(line);
    let ts = t.as_str();
    if starts_with(ts, "{") || starts_with(ts, "}") || starts_with(ts, "[") || starts_with(ts, "]") {
        return JsonRowStyle::Bracket;
    }
    if starts_with(ts, "(") {
        return JsonRowStyle::System;
    }
    let cs = chars_of(line);
    let mut i: usize = 0;
    while i < cs.len() && cs[i] != ':'
        invariant
            i <= cs@.len(),
            cs@ == line@,
            first_char(cs@, ':', i as int) == first_char(cs@, ':', 0),
        decreases cs@.len() - i,
    {
        i = i + 1;
    }
    if i < cs.len() {
        let k = string_from_chars(&cs, 0, i + 1);
        let v = string_from_chars(&cs, i + 1, cs.len());
        proof {
            assert(k@ =~= line@.take(i + 1));
            assert(v@ =~= line@.skip(i + 1));
        }
        JsonRowStyle::KeyValue(k, v)
    } else {
        JsonRowStyle::Body
    }
}

/// The class of a byte shown in a hex row.
#[derive(Debug, Clone, Copy, PartialEq, Eq, Structural)]
pub enum ByteClass {
    Null,
    Printable,
    NonPrintable,
}

/// Zero bytes, printable ASCII, and the rest.
pub open spec fn spec_byte_class(b: u8) -> ByteClass {
    if b == 0 {
        ByteClass::Null
    } else if 0x20 <= b <= 0x7e {
        ByteClass::Printable
    } else {
        ByteClass::NonPrintable
    }
}

/// The byte a hex cell shows: its hex value when that is a byte, 0 otherwise.
pub open spec fn spec_cell_byte(cell: Seq<char>) -> u8 {
    if parses_as_u64(cell, 16) && digits_number(unsigned_digits(cell), 16) <= 255 {
        digits_number(unsigned_digits(cell), 16) as u8
    } else {
        0
    }
}

/// The class of a hex cell's byte.
pub fn cell_class(cell: &str) -> (c: ByteClass)
    ensures
        c == spec_byte_class(spec_cell_byte(cell@)),
{
    let b: u8 = match u64_from_str_radix(cell, 16) {
        Ok(v) => if v <= 255 {
            v as u8
        } else {
            0
        },
        Err(_) => 0,
    };
    if b == 0 {
        ByteClass::Null
    } else if 0x20 <= b && b <= 0x7e {
        ByteClass::Printable
    } else {
        ByteClass::NonPrintable
    }
}

/// A hex row cut into its parts.
#[derive(Debug)]
pub struct HexRowParts {
    /// The address, before the first `: `.
    pub address: String,
    /// The whitespace-separated cells between `: ` and ` |`, with their classes.
    pub cells: Vec<(String, ByteClass)>,
    /// The ASCII column, after the first ` |`.
    pub ascii: String,
}

/// Index of the first occurrence of `pat` in `s` from `i` on.
pub open spec fn find_pattern(s: Seq<char>, pat: Seq<char>, i: int) -> Option<int>
    decreases s.len() - i,
{
    if i < 0 || i + pat.len() > s.len() {
        None
    } else if pat.len() == 0 || s.subrange(i, i + pat.len()) == pat {
        Some(i)
    } else {
        find_pattern(s, pat, i + 1)
    }
}

proof fn lemma_find_pattern(s: Seq<char>, pat: Seq<char>, i: int)
    requires
        0 <= i,
    ensures
        find_pattern(s, pat, i) matches Some(j) ==> i <= j && j + pat.len() <= s.len(),
    decreases s.len() - i,
{
    if i + pat.len() <= s.len() && pat.len() > 0 && s.subrange(i, i + pat.len()) != pat {
        lemma_find_pattern(s, pat, i + 1);
    }
}

/// Index of the first occurrence of the two characters `a`, `b` in `cs` from `i` on.
fn find_pair(cs: &Vec<char>, a: char, b: char, i: usize) -> (r: Option<usize>)
    requires
        i <= cs@.len(),
    ensures
        r == (match find_pattern(cs@, seq![a, b], i as int) {
            Some(j) => Some(j as usize),
            None => None,
        }),
{
    let n = cs.len();
    let mut j = i;
    while n > 0 && j < n - 1 && !(cs[j] == a && cs[j + 1] == b)
        invariant
            i <= j <= n == cs@.len(),
            find_pattern(cs@, seq![a, b], j as int) == find_pattern(cs@, seq![a, b], i as int),
        decreases n - j,
    {
        proof {
            assert(cs@.subrange(j as int, j + 2) != seq![a, b]) by {
                if cs@.subrange(j as int, j + 2) == seq![a, b] {
                    assert(cs@.subrange(j as int, j + 2)[0] == cs@[j as int]);
                    assert(cs@.subrange(j as int, j + 2)[1] == cs@[j + 1]);
                }
            }
        }
        j = j + 1;
    }
    if n > 0 && j < n - 1 {
        proof {
            assert(cs@.subrange(j as int, j + 2) =~= seq![a, b]);
        }
        Some(j)
    } else {
        None
    }
}

/// The whitespace-separated words of `s` from index `i` on (`str::split_whitespace`).
pub open spec fn words_from(s: Seq<char>, i: int) -> Seq<Seq<char>>
    decreases s.len() - i,
{
    if i < 0 || i >= s.len() {
        seq![]
    } else {
        let a = lead_space(s, i);
        if a >= s.len() || a < i {
            seq![]
        } else {
            let e = crate::scroll::scan(s, a, true);
            if e <= a || e > s.len() {
                seq![]
            } else {
                seq![s.subrange(a, e)] + words_from(s, e)
            }
        }
    }
}

/// A hex row's parts: address, cells and ASCII column, when the row has both a
/// `: ` and, after it, a ` |`.
pub open spec fn spec_hex_row_parts(line: Seq<char>, parts: Option<HexRowParts>) -> bool {
    match find_pattern(line, seq![':', ' '], 0) {
        None => parts is None,
        Some(i) => {
            let rest = line.skip(i + 2);
            match find_pattern(rest, seq![' ', '|'], 0) {
                None => parts is None,
                Some(j) => parts matches Some(p) && p.address@ == line.take(i) && p.ascii@
                    == rest.skip(j + 2) && p.cells@.map_values(|c: (String, ByteClass)| c.0@)
                    == words_from(rest.take(j), 0) && forall|k: int|
                    0 <= k < p.cells@.len() ==> (#[trigger] p.cells@[k]).1 == spec_byte_class(
                        spec_cell_byte(p.cells@[k].0@),
                    ),
            }
        },
    }
}

/// The cells of a hex column: its words, each with its byte class.
fn hex_cells(cs: &Vec<char>) -> (r: Vec<(String, ByteClass)>)
    ensures
        r@.map_values(|c: (String, ByteClass)| c.0@) == words_from(cs@, 0),
        forall|k: int|
            0 <= k < r@.len() ==> (#[trigger] r@[k]).1 == spec_byte_class(spec_cell_byte(r@[k].0@)),
{
    let n = cs.len();
    let mut r: Vec<(String, ByteClass)> = Vec::new();
    let mut i: usize = 0;
    let ghost mut done: Seq<Seq<char>> = seq![];
    while i < n
        invariant
            i <= n == cs@.len(),
            words_from(cs@, 0) == done + words_from(cs@, i as int),
            r@.map_values(|c: (String, ByteClass)| c.0@) == done,
            forall|k: int|
                0 <= k < r@.len() ==> (#[trigger] r@[k]).1 == spec_byte_class(
                    spec_cell_byte(r@[k].0@),
                ),
        decreases n - i,
    {
        let mut a = i;
        while a < n && is_space_char(cs[a])
            invariant
                i <= a <= n == cs@.len(),
                lead_space(cs@, a as int) == lead_space(cs@, i as int),
            decreases n - a,
        {
            a = a + 1;
        }
        if a >= n {
            proof {
                assert(words_from(cs@, i as int) =~= Seq::<Seq<char>>::empty());
                assert(words_from(cs@, n as int) =~= Seq::<Seq<char>>::empty());
            }
            i = n;
        } else {
            let mut e = a;
            while e < n && !is_space_char(cs[e])
                invariant
                    a <= e <= n == cs@.len(),
                    crate::scroll::scan(cs@, e as int, true) == crate::scroll::scan(cs@, a as int, true),
                decreases n - e,
            {
                e = e + 1;
            }
            proof {
                lemma_lead_space(cs@, i as int);
                assert(e > a) by {
                    assert(!is_space(cs@[a as int]));
                }
            }
            let w = string_from_chars(cs, a, e);
            let class = cell_class(w.as_str());
            let ghost before = r@;
            r.push((w, class));
            proof {
                assert(words_from(cs@, i as int) == seq![cs@.subrange(a as int, e as int)] + words_from(
                    cs@,
                    e as int,
                ));
                let nd = done.push(cs@.subrange(a as int, e as int));
                assert(words_from(cs@, 0) =~= nd + words_from(cs@, e as int));
                assert(r@ == before.push((w, class)));
                assert(r@.map_values(|c: (String, ByteClass)| c.0@) =~= nd);
                done = nd;
            }
            i = e;
        }
    }
    proof {
        assert(words_from(cs@, n as int) =~= Seq::<Seq<char>>::empty());
        assert(done =~= words_from(cs@, 0));
    }
    r
}

/// See [`spec_hex_row_parts`].
pub fn hex_row_parts(line: &str) -> (r: Option<HexRowParts>)
    ensures
        spec_hex_row_parts(line@, r),
{
    let cs = chars_of(line);
    let n = cs.len();
    let i = match find_pair(&cs, ':', ' ', 0) {
        Some(i) => i,
        None => return None,
    };
    proof {
        lemma_find_pattern(cs@, seq![':', ' '], 0);
        assert(seq![':', ' '].len() == 2);
    }
    let rest_s = string_from_chars(&cs, i + 2, n);
    let rest = chars_of(rest_s.as_str());
    proof {
        assert(rest@ =~= line@.skip(i + 2));
    }
    let j = match find_pair(&rest, ' ', '|', 0) {
        Some(j) => j,
        None => return None,
    };
    proof {
        lemma_find_pattern(rest@, seq![' ', '|'], 0);
        assert(seq![' ', '|'].len() == 2);
    }
    let address = string_from_chars(&cs, 0, i);
    let hex_s = string_from_chars(&rest, 0, j);
    let hex = chars_of(hex_s.as_str());
    let ascii = string_from_chars(&rest, j + 2, rest.len());
    let cells = hex_cells(&hex);
    proof {
        assert(address@ =~= line@.take(i as int));
        assert(hex@ =~= rest@.take(j as int));
        assert(ascii@ =~= rest@.skip(j + 2));
    }
    Some(HexRowParts { address, cells, ascii })
}

} // verus!
