//! The JSON viewer: pretty lines of a file, and the mapping between display
//! lines and source bytes that keeps viewers in sync.

use vstd::prelude::*;
use crate::dump::DumpOptions;
use crate::file_info::PreliminaryDetection;
use crate::json_tiers::{first_char, lemma_first_char_bounds, first_start_after, spec_line_index_for_byte, json_pretty_text, json_reformat, json_valid, split_lines, text_lines};
use crate::probe::slice_range;
use crate::text_slice::min_int;
use crate::scroll::{
    first_total, is_space, is_space_char, lemma_digit_run_to, lemma_first_slash_at, lemma_first_slash_none,
    lemma_scan_to, spec_extent_from_status, token_total,
};
use crate::number::{lemma_decimal_reads_back, signed_from, signed_of};
use crate::strings::{chars_of, decimal, lossy_string, push_decimal, str_equal, string_from_chars, utf8_lossy};
use crate::view::ViewAnchor;
use crate::viewer::ViewerPriority;

verus! {

/// The JSON viewer's logic over a file's bytes: its display lines, and the map
/// between display lines and source bytes.
pub struct JsonViewerLogic;

/// The line shown above raw content that is not JSON.
pub open spec fn not_json_banner() -> Seq<char> {
    "(not valid JSON — showing raw)\n"@
}

/// The text the JSON viewer shows for a file: serde_json's pretty text, or the
/// raw content under a banner when it is not JSON.
pub open spec fn spec_pretty_text(d: Seq<u8>) -> Seq<char> {
    if json_valid(d) {
        json_pretty_text(d)
    } else {
        not_json_banner() + utf8_lossy(d)
    }
}

/// The JSON viewer's display lines for a file.
pub open spec fn spec_pretty_lines(d: Seq<u8>) -> Seq<Seq<char>> {
    if d.len() == 0 {
        seq!["(empty file)"@]
    } else {
        text_lines(spec_pretty_text(d))
    }
}

impl JsonViewerLogic {
    /// The JSON viewer's display lines for the file's bytes `data`.
    pub fn pretty_lines(&self, data: &[u8]) -> (r: Vec<String>)
        ensures
            r.deep_view() == spec_pretty_lines(data@),
    {
        if data.len() == 0 {
            let mut r: Vec<String> = Vec::new();
            r.push("(empty file)".to_owned());
            proof {
                assert(r.deep_view() =~= seq!["(empty file)"@]);
            }
            return r;
        }
        let reformatted = json_reformat(data);
        Self::lines_from_reformatted(data, &reformatted)
    }

    /// The display lines for the file's bytes `data`, given what reformatting
    /// them gave: the pretty text line by line, or the raw content under a
    /// banner when they did not hold JSON.
    pub fn lines_from_reformatted(data: &[u8], reformatted: &Result<String, String>) -> (r: Vec<String>)
        ensures
            r.deep_view() == text_lines(
                match reformatted {
                    Ok(t) => t@,
                    Err(_) => not_json_banner() + utf8_lossy(data@),
                },
            ),
    {
        match reformatted {
            Ok(t) => split_lines(t.as_str()),
            Err(_) => {
                let mut t = "(not valid JSON — showing raw)\n".to_owned();
                let raw = lossy_string(data);
                t.append(raw.as_str());
                proof {
                    reveal_strlit("(not valid JSON — showing raw)\n");
                }
                split_lines(t.as_str())
            },
        }
    }
}

/// First index at or after `i` whose character is not whitespace (or the length).
pub open spec fn skip_space(s: Seq<char>, i: int) -> int
    decreases s.len() - i,
{
    if i < 0 || i >= s.len() || !is_space(s[i]) {
        i
    } else {
        skip_space(s, i + 1)
    }
}

/// End (exclusive) of `[lo, j)` once trailing whitespace is cut.
pub open spec fn cut_space(s: Seq<char>, lo: int, j: int) -> int
    decreases j - lo,
{
    if j <= lo || j > s.len() || !is_space(s[j - 1]) {
        j
    } else {
        cut_space(s, lo, j - 1)
    }
}

/// `s` without leading and trailing whitespace (`str::trim`).
pub open spec fn trim_chars(s: Seq<char>) -> Seq<char> {
    let a = skip_space(s, 0);
    s.subrange(a, cut_space(s, a, s.len() as int))
}

proof fn lemma_skip_space(s: Seq<char>, i: int)
    requires
        0 <= i <= s.len(),
    ensures
        i <= skip_space(s, i) <= s.len(),
    decreases s.len() - i,
{
    if i < s.len() && is_space(s[i]) {
        lemma_skip_space(s, i + 1);
    }
}

proof fn lemma_cut_space(s: Seq<char>, lo: int, j: int)
    requires
        0 <= lo <= j <= s.len(),
    ensures
        lo <= cut_space(s, lo, j) <= j,
    decreases j - lo,
{
    if j > lo && is_space(s[j - 1]) {
        lemma_cut_space(s, lo, j - 1);
    }
}

/// The token of a pretty line that is looked for in the raw file: its first
/// quoted string with the quotes, or else its first 48 characters (trimmed).
pub open spec fn spec_search_token(line: Seq<char>) -> Seq<char> {
    let t = trim_chars(line);
    let head = t.take(if t.len() < 48 { t.len() as int } else { 48 });
    if t.len() == 0 {
        Seq::empty()
    } else {
        match first_char(t, '"', 0) {
            Some(a) => match first_char(t, '"', a + 1) {
                Some(b) => t.subrange(a, b + 1),
                None => head,
            },
            None => head,
        }
    }
}

/// Index of the first `c` in `cs[i..]`, if any.
fn find_char(cs: &Vec<char>, c: char, i: usize) -> (r: Option<usize>)
    requires
        i <= cs@.len(),
    ensures
        r == (match first_char(cs@, c, i as int) {
            Some(j) => Some(j as usize),
            None => None,
        }),
{
    let mut j = i;
    while j < cs.len() && cs[j] != c
        invariant
            i <= j <= cs@.len(),
            first_char(cs@, c, j as int) == first_char(cs@, c, i as int),
        decreases cs@.len() - j,
    {
        j = j + 1;
    }
    if j < cs.len() {
        Some(j)
    } else {
        None
    }
}

/// See [`spec_search_token`].
pub fn extract_search_token(line: &str) -> (r: String)
    ensures
        r@ == spec_search_token(line@),
{
    let all = chars_of(line);
    let mut a: usize = 0;
    while a < all.len() && is_space_char(all[a])
        invariant
            a <= all@.len(),
            skip_space(all@, a as int) == skip_space(all@, 0),
        decreases all@.len() - a,
    {
        a = a + 1;
    }
    let mut b: usize = all.len();
    while b > a && is_space_char(all[b - 1])
        invariant
            a <= b <= all@.len(),
            cut_space(all@, a as int, b as int) == cut_space(all@, a as int, all@.len() as int),
        decreases b - a,
    {
        b = b - 1;
    }
    let tv = string_from_chars(&all, a, b);
    let t = chars_of(tv.as_str());
    proof {
        assert(t@ == trim_chars(line@));
    }
    if t.len() == 0 {
        return String::new();
    }
    let n48 = if t.len() < 48 {
        t.len()
    } else {
        48
    };
    proof {
        lemma_first_char_bounds(t@, '"', 0);
    }
    match find_char(&t, '"', 0) {
        Some(q1) => {
            proof {
                lemma_first_char_bounds(t@, '"', q1 + 1);
            }
            match find_char(&t, '"', q1 + 1) {
                Some(q2) => string_from_chars(&t, q1, q2 + 1),
                None => string_from_chars(&t, 0, n48),
            }
        },
        None => string_from_chars(&t, 0, n48),
    }
}

/// Index of the first occurrence of `needle` in `hay` from `i` on.
pub open spec fn first_match(hay: Seq<u8>, needle: Seq<u8>, i: int) -> Option<int>
    decreases hay.len() - i,
{
    if i < 0 || i + needle.len() > hay.len() {
        None
    } else if needle.len() == 0 || hay.subrange(i, i + needle.len()) == needle {
        Some(i)
    } else {
        first_match(hay, needle, i + 1)
    }
}

/// Where `needle` first occurs in `hay`; never for an empty needle.
pub open spec fn spec_find_substring(hay: Seq<u8>, needle: Seq<u8>) -> Option<int> {
    if needle.len() == 0 || hay.len() < needle.len() {
        None
    } else {
        first_match(hay, needle, 0)
    }
}

proof fn lemma_first_match_bounds(hay: Seq<u8>, needle: Seq<u8>, i: int)
    requires
        0 <= i,
    ensures
        first_match(hay, needle, i) matches Some(j) ==> i <= j && j + needle.len() <= hay.len(),
    decreases hay.len() - i,
{
    if i + needle.len() <= hay.len() && needle.len() > 0 && hay.subrange(i, i + needle.len())
        != needle {
        lemma_first_match_bounds(hay, needle, i + 1);
    }
}

/// See [`spec_find_substring`].
pub fn find_substring(haystack: &[u8], needle: &[u8]) -> (r: Option<usize>)
    ensures
        r == (match spec_find_substring(haystack@, needle@) {
            Some(j) => Some(j as usize),
            None => None,
        }),
{
    let n = needle.len();
    let h = haystack.len();
    if n == 0 || h < n {
        return None;
    }
    let mut i: usize = 0;
    while i <= h - n
        invariant
            n == needle@.len() > 0,
            h == haystack@.len() >= n,
            i <= h - n + 1,
            first_match(haystack@, needle@, i as int) == first_match(haystack@, needle@, 0),
        decreases h - i,
    {
        let mut k: usize = 0;
        while k < n && haystack[i + k] == needle[k]
            invariant
                k <= n,
                i + n <= h,
                n == needle@.len(),
                h == haystack@.len(),
                haystack@.subrange(i as int, i + k) == needle@.take(k as int),
            decreases n - k,
        {
            k = k + 1;
            proof {
                assert(haystack@.subrange(i as int, i + k) =~= needle@.take(k as int));
            }
        }
        if k == n {
            proof {
                assert(needle@.take(n as int) =~= needle@);
            }
            return Some(i);
        }
        proof {
            assert(haystack@.subrange(i as int, i + n)[k as int] != needle@[k as int]);
        }
        i = i + 1;
    }
    None
}

/// UTF-8 bytes of a string.
pub open spec fn utf8_of(s: Seq<char>) -> Seq<u8> {
    vstd::utf8::encode_utf8(s)
}

/// Where a pretty line is found in the raw file from `from` on: at its search
/// token when that token (of two bytes or more) occurs there; else at `from`
/// (clamped to the last byte).
pub open spec fn spec_find_line_in_source(file: Seq<u8>, line: Seq<char>, from: int) -> int {
    let needle = utf8_of(spec_search_token(line));
    let fallback = if from < file.len() - 1 {
        from
    } else if file.len() == 0 {
        0
    } else {
        file.len() - 1
    };
    if needle.len() < 2 {
        fallback
    } else {
        match spec_find_substring(file.subrange(from, file.len() as int), needle) {
            Some(pos) => from + pos,
            None => fallback,
        }
    }
}

/// See [`spec_find_line_in_source`].
pub fn find_display_line_in_source(file: &[u8], display_line: &str, search_from: usize) -> (r: usize)
    requires
        search_from <= file@.len(),
    ensures
        r == spec_find_line_in_source(file@, display_line@, search_from as int),
        ({
            let tok = utf8_of(spec_search_token(display_line@));
            tok.len() >= 2 && (exists|k: int| search_from <= k && #[trigger] occurs_at(file@, tok, k))
                ==> search_from <= r && occurs_at(file@, tok, r as int) && forall|m: int|
                search_from <= m < r ==> !occurs_at(file@, tok, m)
        }),
{
    proof {
        let tok = utf8_of(spec_search_token(display_line@));
        if tok.len() >= 2 && (exists|k: int| search_from <= k && #[trigger] occurs_at(file@, tok, k)) {
            let k = choose|k: int| search_from <= k && #[trigger] occurs_at(file@, tok, k);
            lemma_line_found_at_first_occurrence(file@, display_line@, search_from as int, k);
        }
    }
    let token = extract_search_token(display_line);
    let needle = token.as_str().as_bytes();
    let fallback = if file.len() == 0 {
        0
    } else if search_from < file.len() - 1 {
        search_from
    } else {
        file.len() - 1
    };
    if needle.len() < 2 {
        return fallback;
    }
    let rest = slice_range(file, search_from, file.len());
    match find_substring(rest, needle) {
        Some(pos) => {
            proof {
                lemma_first_match_bounds(rest@, needle@, 0);
            }
            search_from + pos
        },
        None => fallback,
    }
}

/// Source offsets of pretty lines `i..` when the search resumes at `from`: each
/// line is placed where it is found (never before `from`), and the search for the
/// next one resumes one byte later.
pub open spec fn offsets_from(raw: Seq<u8>, lines: Seq<Seq<char>>, i: int, from: int) -> Seq<u64>
    decreases lines.len() - i,
{
    if i < 0 || i >= lines.len() {
        seq![]
    } else {
        let found = spec_find_line_in_source(raw, lines[i], from);
        let off = if found < from { from } else { found };
        let next = if off + 1 < raw.len() { off + 1 } else { raw.len() as int };
        seq![off as u64] + offsets_from(raw, lines, i + 1, next)
    }
}

/// Source offset of each display line of a file (`[0]` when there are no lines).
pub open spec fn spec_line_byte_offsets(raw: Seq<u8>) -> Seq<u64> {
    let lines = spec_pretty_lines(raw);
    if lines.len() == 0 {
        seq![0u64]
    } else {
        offsets_from(raw, lines, 0, 0)
    }
}

proof fn lemma_find_line_bounds(file: Seq<u8>, line: Seq<char>, from: int)
    requires
        file.len() <= u64::MAX,
        0 <= from <= file.len(),
    ensures
        0 <= spec_find_line_in_source(file, line, from) <= file.len(),
{
    let needle = utf8_of(spec_search_token(line));
    if needle.len() >= 2 {
        lemma_first_match_bounds(file.subrange(from, file.len() as int), needle, 0);
    }
}

/// Offsets found from `from` on never go back and stay within the file.
proof fn lemma_offsets_sorted(raw: Seq<u8>, lines: Seq<Seq<char>>, i: int, from: int)
    requires
        raw.len() <= u64::MAX,
        0 <= i,
        0 <= from <= raw.len(),
    ensures
        forall|a: int, b: int|
            0 <= a <= b < offsets_from(raw, lines, i, from).len() ==> from <= #[trigger] offsets_from(
                raw,
                lines,
                i,
                from,
            )[a] <= #[trigger] offsets_from(raw, lines, i, from)[b] <= raw.len(),
        offsets_from(raw, lines, i, from).len() == if i < lines.len() { lines.len() - i } else { 0 },
    decreases lines.len() - i,
{
    if i < lines.len() {
        lemma_find_line_bounds(raw, lines[i], from);
        let found = spec_find_line_in_source(raw, lines[i], from);
        let off = if found < from { from } else { found };
        let next = if off + 1 < raw.len() { off + 1 } else { raw.len() as int };
        lemma_offsets_sorted(raw, lines, i + 1, next);
        let s = offsets_from(raw, lines, i, from);
        let t = offsets_from(raw, lines, i + 1, next);
        assert(s == seq![off as u64] + t);
        assert(s[0] == off as u64);
        assert(from <= off <= raw.len());
        assert(next >= off);
        assert forall|a: int, b: int| 0 <= a <= b < s.len() implies from <= #[trigger] s[a]
            <= #[trigger] s[b] <= raw.len() by {
            if a > 0 {
                assert(s[a] == t[a - 1]);
                assert(s[b] == t[b - 1]);
            } else if b > 0 {
                assert(s[b] == t[b - 1]);
                assert(next <= t[b - 1]);
            }
        }
    }
}

/// The display-line offsets of a file never decrease and never pass its end.
pub proof fn lemma_line_byte_offsets_sorted(raw: Seq<u8>)
    requires
        raw.len() <= u64::MAX,
    ensures
        spec_line_byte_offsets(raw).len() >= 1,
        forall|a: int, b: int|
            0 <= a <= b < spec_line_byte_offsets(raw).len() ==> #[trigger] spec_line_byte_offsets(
                raw,
            )[a] <= #[trigger] spec_line_byte_offsets(raw)[b] <= raw.len(),
{
    let lines = spec_pretty_lines(raw);
    if lines.len() > 0 {
        lemma_offsets_sorted(raw, lines, 0, 0);
    }
}

impl JsonViewerLogic {
    /// Source offset of each display line of the file's bytes `raw`.
    pub fn line_byte_offsets(&self, raw: &[u8]) -> (r: Vec<u64>)
        ensures
            r@ == spec_line_byte_offsets(raw@),
    {
        let lines = self.pretty_lines(raw);
        let mut offsets: Vec<u64> = Vec::new();
        if lines.len() == 0 {
            offsets.push(0);
            proof {
                assert(offsets@ =~= seq![0u64]);
            }
            return offsets;
        }
        let ghost ls = lines.deep_view();
        let raw_len: usize = raw.len();
        assert(raw_len == raw@.len() && raw@.len() <= u64::MAX);
        let mut search_from: usize = 0;
        let mut i: usize = 0;
        proof {
            assert(offsets@ + offsets_from(raw@, ls, 0, 0) =~= offsets_from(raw@, ls, 0, 0));
        }
        while i < lines.len()
            invariant
                i <= lines@.len() == ls.len(),
                ls == lines.deep_view(),
                ls == spec_pretty_lines(raw@),
                raw@.len() <= u64::MAX,
                search_from <= raw@.len(),
                offsets@ + offsets_from(raw@, ls, i as int, search_from as int) == offsets_from(
                    raw@,
                    ls,
                    0,
                    0,
                ),
            decreases lines@.len() - i,
        {
            let found = find_display_line_in_source(raw, lines[i].as_str(), search_from);
            proof {
                lemma_find_line_bounds(raw@, ls[i as int], search_from as int);
                assert(lines[i as int]@ == ls[i as int]);
            }
            let off = if found < search_from {
                search_from
            } else {
                found
            };
            let next = if raw.len() > 0 && off < raw.len() - 1 {
                off + 1
            } else {
                raw.len()
            };
            let ghost before = offsets@;
            offsets.push(off as u64);
            proof {
                assert(offsets_from(raw@, ls, i as int, search_from as int) == seq![off as u64]
                    + offsets_from(raw@, ls, i + 1, next as int));
                assert(offsets@ + offsets_from(raw@, ls, i + 1, next as int) =~= before
                    + offsets_from(raw@, ls, i as int, search_from as int));
            }
            search_from = next;
            i = i + 1;
        }
        proof {
            assert(offsets_from(raw@, ls, i as int, search_from as int) =~= Seq::<u64>::empty());
            assert(offsets@ =~= offsets_from(raw@, ls, 0, 0));
        }
        offsets
    }
}

/// The source byte of display line `line`: the offset of that line, or of the
/// last line for a line past the end.
pub open spec fn spec_byte_at_line(offsets: Seq<u64>, line: u64) -> u64 {
    if line < offsets.len() {
        offsets[line as int]
    } else {
        offsets[offsets.len() - 1]
    }
}

/// The display line holding source byte `byte`: the last line whose offset is at
/// or before it (0 when the first offset is already past it).
pub open spec fn spec_line_at_byte(offsets: Seq<u64>, byte: u64) -> int {
    spec_line_index_for_byte(offsets, byte) as int
}

/// In sorted offsets, the last offset at or before `byte` ends the leading run of
/// offsets at or before it.
proof fn lemma_last_at_or_before(offsets: Seq<u64>, byte: u64, i: int, k: int)
    requires
        sorted(offsets),
        0 <= i <= k < offsets.len(),
        offsets[k] <= byte,
        k + 1 == offsets.len() || offsets[k + 1] > byte,
    ensures
        first_start_after(offsets, byte, i) == k + 1,
    decreases k - i,
{
    assert(offsets[i] <= offsets[k]);
    if i < k {
        lemma_last_at_or_before(offsets, byte, i + 1, k);
    } else {
        assert(first_start_after(offsets, byte, k + 1) == k + 1);
    }
}

/// Offsets that never decrease.
pub open spec fn sorted(offsets: Seq<u64>) -> bool {
    forall|a: int, b: int| 0 <= a <= b < offsets.len() ==> #[trigger] offsets[a] <= #[trigger] offsets[b]
}

/// The source byte of display line `line` among `offsets`.
pub fn byte_at_line(offsets: &Vec<u64>, line: u64) -> (r: u64)
    requires
        offsets@.len() >= 1,
    ensures
        r == spec_byte_at_line(offsets@, line),
{
    let last = offsets.len() - 1;
    let idx = if line < last as u64 {
        line as usize
    } else {
        last
    };
    offsets[idx]
}

/// The display line holding source byte `byte` among sorted `offsets`, found by
/// binary search.
pub fn line_at_byte(offsets: &Vec<u64>, byte: u64) -> (r: u64)
    requires
        sorted(offsets@),
    ensures
        r == spec_line_at_byte(offsets@, byte),
        offsets@.len() > 0 && byte >= offsets@[0] ==> offsets@[r as int] <= byte && (r + 1
            == offsets@.len() || offsets@[r + 1] > byte),
{
    if offsets.len() == 0 {
        return 0;
    }
    if byte < offsets[0] {
        return 0;
    }
    let n = offsets.len();
    let mut lo: usize = 0;
    let mut hi: usize = n - 1;
    while lo < hi
        invariant
            lo <= hi < n == offsets@.len(),
            sorted(offsets@),
            offsets@[lo as int] <= byte,
            hi + 1 == offsets@.len() || offsets@[hi + 1] > byte,
        decreases hi - lo,
    {
        let mid = lo + (hi - lo + 1) / 2;
        if offsets[mid] <= byte {
            lo = mid;
        } else {
            hi = mid - 1;
        }
    }
    proof {
        lemma_last_at_or_before(offsets@, byte, 0, lo as int);
    }
    lo as u64
}

/// Mapping a display line to its source byte and back gives the same line,
/// for a line that is the last of those starting at that byte.
pub proof fn lemma_line_byte_round_trip(offsets: Seq<u64>, line: u64)
    requires
        sorted(offsets),
        line < offsets.len(),
        line + 1 == offsets.len() || offsets[line + 1] > offsets[line as int],
    ensures
        spec_line_at_byte(offsets, spec_byte_at_line(offsets, line)) == line,
{
    let b = offsets[line as int];
    assert(offsets[0] <= b);
    lemma_last_at_or_before(offsets, b, 0, line as int);
}

/// A display line that starts before the end of the file starts strictly before
/// the next one: the search for each line resumes one byte after the last.
proof fn lemma_offsets_strict(raw: Seq<u8>, lines: Seq<Seq<char>>, i: int, from: int)
    requires
        raw.len() <= u64::MAX,
        0 <= i,
        0 <= from <= raw.len(),
    ensures
        forall|a: int|
            0 <= a && a + 1 < offsets_from(raw, lines, i, from).len() && #[trigger] offsets_from(
                raw,
                lines,
                i,
                from,
            )[a] < raw.len() ==> offsets_from(raw, lines, i, from)[a] < offsets_from(
                raw,
                lines,
                i,
                from,
            )[a + 1],
    decreases lines.len() - i,
{
    if i < lines.len() {
        lemma_find_line_bounds(raw, lines[i], from);
        let found = spec_find_line_in_source(raw, lines[i], from);
        let off = if found < from { from } else { found };
        let next = if off + 1 < raw.len() { off + 1 } else { raw.len() as int };
        lemma_offsets_strict(raw, lines, i + 1, next);
        lemma_offsets_sorted(raw, lines, i + 1, next);
        let s = offsets_from(raw, lines, i, from);
        let t = offsets_from(raw, lines, i + 1, next);
        assert(s == seq![off as u64] + t);
        assert forall|a: int| 0 <= a && a + 1 < s.len() && #[trigger] s[a] < raw.len() implies s[a]
            < s[a + 1] by {
            if a == 0 {
                assert(s[0] == off as u64);
                assert(s[1] == t[0]);
                assert(next <= t[0]);
            } else {
                assert(s[a] == t[a - 1]);
                assert(s[a + 1] == t[a]);
            }
        }
    }
}

/// Mapping a display line of a file to its source byte and back gives the same
/// line, for every line that starts before the end of the file.
pub proof fn lemma_display_line_round_trip(raw: Seq<u8>, line: u64)
    requires
        raw.len() <= u64::MAX,
        line < spec_line_byte_offsets(raw).len(),
        spec_byte_at_line(spec_line_byte_offsets(raw), line) < raw.len(),
    ensures
        spec_line_at_byte(
            spec_line_byte_offsets(raw),
            spec_byte_at_line(spec_line_byte_offsets(raw), line),
        ) == line,
{
    let offsets = spec_line_byte_offsets(raw);
    lemma_line_byte_offsets_sorted(raw);
    let lines = spec_pretty_lines(raw);
    if lines.len() > 0 {
        lemma_offsets_strict(raw, lines, 0, 0);
    }
    assert(sorted(offsets));
    if line + 1 < offsets.len() {
        assert(offsets[line as int] < raw.len());
        assert(offsets[line as int] < offsets[line + 1]);
    }
    lemma_line_byte_round_trip(offsets, line);
}

impl JsonViewerLogic {
    /// The source byte of display line `line` of the file's bytes `raw`.
    pub fn byte_at_display_line(&self, raw: &[u8], line: u64) -> (r: u64)
        ensures
            r == spec_byte_at_line(spec_line_byte_offsets(raw@), line),
    {
        let offsets = self.line_byte_offsets(raw);
        let raw_len: usize = raw.len();
        proof {
            assert(raw_len == raw@.len() && raw@.len() <= u64::MAX);
            lemma_line_byte_offsets_sorted(raw@);
        }
        byte_at_line(&offsets, line)
    }
}

impl JsonViewerLogic {
    /// The display line of the file's bytes `raw` holding source byte `byte`.
    pub fn display_line_at_byte(&self, raw: &[u8], byte: u64) -> (r: u64)
        ensures
            r == spec_line_at_byte(spec_line_byte_offsets(raw@), byte),
    {
        let offsets = self.line_byte_offsets(raw);
        let raw_len: usize = raw.len();
        proof {
            assert(raw_len == raw@.len() && raw@.len() <= u64::MAX);
            lemma_line_byte_offsets_sorted(raw@);
        }
        line_at_byte(&offsets, byte)
    }
}

/// Number of display lines, at least 1.
pub open spec fn spec_line_count(raw: Seq<u8>) -> nat {
    let n = spec_pretty_lines(raw).len();
    if n >= 1 { n } else { 1 }
}

impl JsonViewerLogic {
    /// See [`spec_line_count`].
    pub fn line_count(&self, raw: &[u8]) -> (r: usize)
        ensures
            r == spec_line_count(raw@),
    {
        let n = self.pretty_lines(raw).len();
        if n >= 1 {
            n
        } else {
            1
        }
    }
}

/// Up to `max_rows` display lines from `start`; an end marker past the end.
pub open spec fn spec_render_lines_at(raw: Seq<u8>, start: u64, max_rows: u16) -> Seq<Seq<char>> {
    let all = spec_pretty_lines(raw);
    if start >= all.len() || max_rows == 0 {
        seq!["(end of file)"@]
    } else {
        all.subrange(
            start as int,
            if start + max_rows < all.len() { start + max_rows } else { all.len() as int },
        )
    }
}

impl JsonViewerLogic {
    /// See [`spec_render_lines_at`].
    pub fn render_lines_at(&self, raw: &[u8], start_offset: u64, max_rows: u16) -> (r: Vec<String>)
        ensures
            r.deep_view() == spec_render_lines_at(raw@, start_offset, max_rows),
    {
        let all = self.pretty_lines(raw);
        let n = all.len();
        let mut r: Vec<String> = Vec::new();
        if start_offset >= n as u64 || max_rows == 0 {
            r.push("(end of file)".to_owned());
            proof {
                assert(r.deep_view() =~= seq!["(end of file)"@]);
            }
            return r;
        }
        let start = start_offset as usize;
        let end = if (max_rows as usize) < n - start {
            start + max_rows as usize
        } else {
            n
        };
        let mut i = start;
        while i < end
            invariant
                start <= i <= end <= n == all@.len(),
                r.deep_view() == all.deep_view().subrange(start as int, i as int),
            decreases end - i,
        {
            let line = all[i].clone();
            let ghost before = r.deep_view();
            r.push(line);
            proof {
                assert(r.deep_view() =~= before.push(all.deep_view()[i as int]));
            }
            i = i + 1;
            proof {
                assert(r.deep_view() =~= all.deep_view().subrange(start as int, i as int));
            }
        }
        r
    }
}

/// A display line moved by `delta`, within `[0, line_count - 1]`.
pub open spec fn spec_advance_lines_at(raw: Seq<u8>, current: u64, delta: i64) -> u64 {
    let t = signed_of(current) + delta;
    let max = spec_line_count(raw) - 1;
    if t < 0 {
        0
    } else if t > max {
        max as u64
    } else {
        t as u64
    }
}

impl JsonViewerLogic {
    /// See [`spec_advance_lines_at`]. The position is read as a signed number, and
    /// its sum with `delta` must fit in `i64`.
    pub fn advance_lines_at(&self, raw: &[u8], current: u64, delta: i64) -> (r: u64)
        requires
            i64::MIN <= signed_of(current) + delta <= i64::MAX,
        ensures
            r == spec_advance_lines_at(raw@, current, delta),
    {
        let total = self.line_count(raw);
        let max_pos = (total - 1) as u64;
        let t: i64 = signed_from(current) + delta;
        let new_pos: u64 = if t < 0 {
            0
        } else {
            t as u64
        };
        if new_pos > max_pos {
            max_pos
        } else {
            new_pos
        }
    }
}

/// `JSON  line {position + 1}/{total} ({pct}%)`.
pub open spec fn spec_json_line_status(position: u64, total: nat, pct: u32) -> Seq<char> {
    "JSON  line "@ + decimal((position + 1) as nat) + "/"@ + decimal(total) + " ("@ + decimal(
        pct as nat,
    ) + "%)"@
}

/// A host reading this viewer's status line for its display-line extent gets
/// one less than the line count (at least 1): what the status prints, the
/// extent parser reads back.
pub proof fn lemma_status_gives_extent(position: u64, total: nat, pct: u32)
    requires
        total <= u64::MAX,
    ensures
        spec_extent_from_status(spec_json_line_status(position, total, pct)) == Some(
            if total <= 1 {
                1u64
            } else {
                (total - 1) as u64
            },
        ),
{
    reveal_strlit("JSON  line ");
    reveal_strlit("/");
    reveal_strlit(" (");
    reveal_strlit("%)");
    let d1 = decimal((position + 1) as nat);
    let d2 = decimal(total);
    let d3 = decimal(pct as nat);
    lemma_decimal_reads_back((position + 1) as nat);
    lemma_decimal_reads_back(total);
    lemma_decimal_reads_back(pct as nat);
    let head = "JSON  line "@;
    let s = spec_json_line_status(position, total, pct);
    assert(s == head + d1 + "/"@ + d2 + " ("@ + d3 + "%)"@);
    let m1 = d1.len() as int;
    let m2 = d2.len() as int;
    let slash = 11 + m1;
    let end = 12 + m1 + m2;
    assert(head.len() == 11);
    assert(forall|k: int| 0 <= k < 11 ==> s[k] == #[trigger] head[k]);
    assert(forall|k: int| 11 <= k < slash ==> #[trigger] s[k] == d1[k - 11]);
    assert(s[slash] == '/');
    assert(forall|k: int| slash < k < end ==> #[trigger] s[k] == d2[k - slash - 1]);
    assert(s[end] == ' ');
    // "JSON"
    lemma_scan_to(s, 0, 0, false);
    lemma_scan_to(s, 0, 4, true);
    lemma_first_slash_none(s, 0, 4);
    // "line"
    lemma_scan_to(s, 4, 6, false);
    lemma_scan_to(s, 6, 10, true);
    lemma_first_slash_none(s, 6, 10);
    // "<line>/<total>"
    lemma_scan_to(s, 10, 11, false);
    assert forall|k: int| 11 <= k < end implies !is_space(#[trigger] s[k]) by {
        if k < slash {
            assert('0' <= d1[k - 11] <= '9');
        } else if k > slash {
            assert('0' <= d2[k - slash - 1] <= '9');
        }
    }
    lemma_scan_to(s, 11, end, true);
    assert forall|k: int| 11 <= k < slash implies #[trigger] s[k] != '/' by {
        assert('0' <= d1[k - 11] <= '9');
    }
    lemma_first_slash_at(s, 11, slash, end);
    assert forall|k: int| slash + 1 <= k < end implies '0' <= #[trigger] s[k] <= '9' by {
        assert('0' <= d2[k - slash - 1] <= '9');
    }
    lemma_digit_run_to(s, slash + 1, end, end);
    assert(s.subrange(slash + 1, end) =~= d2);
    assert(token_total(s, 11, end) == Some(total as u64));
    assert(first_total(s, 10) == Some(total as u64));
    assert(token_total(s, 6, 10) is None);
    assert(first_total(s, 4) == first_total(s, 10));
    assert(token_total(s, 0, 4) is None);
    assert(first_total(s, 0) == first_total(s, 4));
}

impl JsonViewerLogic {
    /// The JSON viewer's status line for a display line, given its percentage.
    pub fn status_at(&self, raw: &[u8], position: u64, pct: u32) -> (s: String)
        requires
            position < u64::MAX,
        ensures
            s@ == spec_json_line_status(position, spec_line_count(raw@), pct),
    {
        let total = self.line_count(raw);
        let mut s = "JSON  line ".to_owned();
        push_decimal(&mut s, position + 1);
        s.append("/");
        push_decimal(&mut s, total as u64);
        s.append(" (");
        push_decimal(&mut s, pct as u64);
        s.append("%)");
        s
    }
}

/// Whether an optional string holds exactly `lit`.
fn option_is(o: &Option<String>, lit: &str) -> (r: bool)
    ensures
        r == (o matches Some(s) && s@ == lit@),
{
    match o {
        Some(s) => str_equal(s.as_str(), lit),
        None => false,
    }
}

/// How much the JSON viewer wants a file: preferred for a `json` extension or the
/// JSON MIME type, not at all otherwise.
pub open spec fn spec_json_priority(prelim: PreliminaryDetection) -> ViewerPriority {
    if (prelim.extension matches Some(e) && e@ == "json"@) || (prelim.mime_type matches Some(m)
        && m@ == "application/json"@) {
        ViewerPriority::Preferred
    } else {
        ViewerPriority::NoMatch
    }
}

/// See [`spec_json_priority`].
pub fn json_priority(prelim: &PreliminaryDetection) -> (p: ViewerPriority)
    ensures
        p == spec_json_priority(*prelim),
{
    if option_is(&prelim.extension, "json") || option_is(&prelim.mime_type, "application/json") {
        ViewerPriority::Preferred
    } else {
        ViewerPriority::NoMatch
    }
}

/// The source byte of an anchor in the JSON viewer: a byte anchor clamped to the
/// last byte; a display line through its offset, clamped the same way.
pub open spec fn spec_json_source_byte(size: u64, anchor: ViewAnchor, raw: Seq<u8>) -> Option<u64> {
    let last: u64 = if size == 0 { 0 } else { (size - 1) as u64 };
    match anchor {
        ViewAnchor::Byte(b) => Some(if b < last { b } else { last }),
        ViewAnchor::DisplayLine(line) => {
            let b = spec_byte_at_line(spec_line_byte_offsets(raw), line);
            Some(if b < last { b } else { last })
        },
        ViewAnchor::Frame(_) => None,
    }
}

/// See [`spec_json_source_byte`].
pub fn json_source_byte(size: u64, anchor: ViewAnchor, raw: &[u8]) -> (r: Option<u64>)
    ensures
        r == spec_json_source_byte(size, anchor, raw@),
{
    let last = if size == 0 {
        0
    } else {
        size - 1
    };
    match anchor {
        ViewAnchor::Byte(b) => Some(if b < last { b } else { last }),
        ViewAnchor::DisplayLine(line) => {
            let b = JsonViewerLogic.byte_at_display_line(raw, line);
            Some(if b < last { b } else { last })
        },
        ViewAnchor::Frame(_) => None,
    }
}

/// The dump covers these display lines: from the offset, `length` of them or to the end.
pub open spec fn json_dump_end(n: int, opts: DumpOptions) -> int {
    match opts.length {
        Some(l) => if opts.offset + l < n { opts.offset + l } else { n },
        None => n,
    }
}

/// The dump of display lines: the selected ones, each followed by a newline.
pub open spec fn spec_json_dump(lines: Seq<Seq<char>>, opts: DumpOptions) -> Seq<char> {
    lines_with_newlines(lines.subrange(opts.offset as int, json_dump_end(lines.len() as int, opts)))
}

/// Each line followed by a newline, all joined.
pub open spec fn lines_with_newlines(ls: Seq<Seq<char>>) -> Seq<char>
    decreases ls.len(),
{
    if ls.len() == 0 {
        Seq::empty()
    } else {
        lines_with_newlines(ls.drop_last()) + ls.last().push('\n')
    }
}

/// The dump of display lines `lines` for `opts`; the offset must be a line index
/// within them.
pub fn dump_lines(lines: &Vec<String>, opts: &DumpOptions) -> (s: String)
    requires
        opts.offset <= lines@.len(),
        opts.length matches Some(l) ==> opts.offset + l <= usize::MAX,
    ensures
        s@ == spec_json_dump(lines.deep_view(), *opts),
{
    let n = lines.len();
    let start = opts.offset as usize;
    let end: usize = match opts.length {
        Some(l) => if (l as u128) < (n - start) as u128 {
            start + l as usize
        } else {
            n
        },
        None => n,
    };
    let mut s = String::new();
    let mut i = start;
    while i < end
        invariant
            start <= i <= end <= n == lines@.len(),
            s@ == lines_with_newlines(lines.deep_view().subrange(start as int, i as int)),
        decreases end - i,
    {
        s.append(lines[i].as_str());
        crate::strings::push_char(&mut s, '\n');
        i = i + 1;
        proof {
            let sub = lines.deep_view().subrange(start as int, i as int);
            assert(sub.drop_last() =~= lines.deep_view().subrange(start as int, i - 1));
        }
    }
    s
}

/// The JSON viewer's dump of the file's bytes `raw`; `None` when the offset lies
/// past the display lines (or the end of the range does not fit in `usize`).
pub fn json_dump(raw: &[u8], opts: &DumpOptions) -> (r: Option<String>)
    ensures
        r is Some <==> (opts.offset <= spec_pretty_lines(raw@).len() && (opts.length matches Some(l)
            ==> opts.offset + l <= usize::MAX)),
        r matches Some(s) ==> s@ == spec_json_dump(spec_pretty_lines(raw@), *opts),
{
    let lines = JsonViewerLogic.pretty_lines(raw);
    if opts.offset > lines.len() as u64 {
        return None;
    }
    match opts.length {
        Some(l) => {
            if l > usize::MAX as u64 - opts.offset {
                return None;
            }
        },
        None => {},
    }
    Some(dump_lines(&lines, opts))
}

/// `needle` occurs in `file` at byte `k`.
pub open spec fn occurs_at(file: Seq<u8>, needle: Seq<u8>, k: int) -> bool {
    0 <= k && k + needle.len() <= file.len() && file.subrange(k, k + needle.len()) == needle
}

/// The first occurrence found from `i` on is an occurrence, and no earlier one
/// from `i` on exists; one exists whenever `needle` occurs at or after `i`.
proof fn lemma_first_match_is_first(hay: Seq<u8>, needle: Seq<u8>, i: int, k: int)
    requires
        0 <= i <= k,
        needle.len() > 0,
        occurs_at(hay, needle, k),
    ensures
        first_match(hay, needle, i) matches Some(j) && i <= j <= k && occurs_at(hay, needle, j)
            && forall|m: int| i <= m < j ==> !occurs_at(hay, needle, m),
    decreases k - i,
{
    if hay.subrange(i, i + needle.len()) != needle {
        lemma_first_match_is_first(hay, needle, i + 1, k);
    }
}

/// A display line is placed at the first occurrence of its search token at or
/// after the resume position `from`, when the token (of two bytes or more)
/// occurs there: the offset holds the token, lies at or after `from`, and no
/// earlier position from `from` on holds it. For a pretty key line this is the
/// index of the key's opening quote in the source.
pub proof fn lemma_line_found_at_first_occurrence(file: Seq<u8>, line: Seq<char>, from: int, k: int)
    requires
        0 <= from <= k,
        utf8_of(spec_search_token(line)).len() >= 2,
        occurs_at(file, utf8_of(spec_search_token(line)), k),
    ensures
        ({
            let needle = utf8_of(spec_search_token(line));
            let r = spec_find_line_in_source(file, line, from);
            &&& from <= r <= k
            &&& occurs_at(file, needle, r)
            &&& forall|m: int| from <= m < r ==> !occurs_at(file, needle, m)
        }),
{
    let needle = utf8_of(spec_search_token(line));
    let n = needle.len() as int;
    let hay = file.subrange(from, file.len() as int);
    assert(hay.subrange(k - from, k - from + n) =~= file.subrange(k, k + n));
    lemma_first_match_is_first(hay, needle, 0, k - from);
    let j = first_match(hay, needle, 0)->0;
    assert(hay.subrange(j, j + n) =~= file.subrange(from + j, from + j + n));
    assert forall|m: int| from <= m < from + j implies !occurs_at(file, needle, m) by {
        assert(!occurs_at(hay, needle, m - from));
        if m + n <= file.len() {
            assert(hay.subrange(m - from, m - from + n) =~= file.subrange(m, m + n));
        }
    }
}

/// Each display line's offset is the first occurrence of its search token at or
/// after where the search resumed (the start for the first line, one byte past
/// the previous line's offset for the others), when the token (of two bytes or
/// more) occurs there.
pub proof fn lemma_offsets_follow_tokens(raw: Seq<u8>, lines: Seq<Seq<char>>, i: int, from: int)
    requires
        raw.len() <= u64::MAX,
        0 <= i,
        0 <= from <= raw.len(),
    ensures
        ({
            let s = offsets_from(raw, lines, i, from);
            forall|a: int, k: int|
                #![trigger s[a], occurs_at(raw, utf8_of(spec_search_token(lines[i + a])), k)]
                0 <= a < s.len() && utf8_of(spec_search_token(lines[i + a])).len() >= 2 && (if a == 0 {
                    from
                } else {
                    min_int(s[a - 1] + 1, raw.len() as int)
                }) <= k && occurs_at(raw, utf8_of(spec_search_token(lines[i + a])), k) ==> {
                    let res = if a == 0 { from } else { min_int(s[a - 1] + 1, raw.len() as int) };
                    let tok = utf8_of(spec_search_token(lines[i + a]));
                    &&& res <= s[a] <= k
                    &&& occurs_at(raw, tok, s[a] as int)
                    &&& forall|m: int| res <= m < s[a] ==> !occurs_at(raw, tok, m)
                }
        }),
    decreases lines.len() - i,
{
    if 0 <= i < lines.len() {
        lemma_find_line_bounds(raw, lines[i], from);
        let found = spec_find_line_in_source(raw, lines[i], from);
        let off = if found < from { from } else { found };
        let next = if off + 1 < raw.len() { off + 1 } else { raw.len() as int };
        lemma_offsets_follow_tokens(raw, lines, i + 1, next);
        lemma_offsets_sorted(raw, lines, i + 1, next);
        let s = offsets_from(raw, lines, i, from);
        let t = offsets_from(raw, lines, i + 1, next);
        assert(s == seq![off as u64] + t);
        assert forall|a: int, k: int|
            #![trigger s[a], occurs_at(raw, utf8_of(spec_search_token(lines[i + a])), k)]
            0 <= a < s.len() && utf8_of(spec_search_token(lines[i + a])).len() >= 2 && (if a == 0 {
                from
            } else {
                min_int(s[a - 1] + 1, raw.len() as int)
            }) <= k && occurs_at(raw, utf8_of(spec_search_token(lines[i + a])), k) implies {
                let res = if a == 0 { from } else { min_int(s[a - 1] + 1, raw.len() as int) };
                let tok = utf8_of(spec_search_token(lines[i + a]));
                &&& res <= s[a] <= k
                &&& occurs_at(raw, tok, s[a] as int)
                &&& forall|m: int| res <= m < s[a] ==> !occurs_at(raw, tok, m)
            } by {
            if a == 0 {
                lemma_line_found_at_first_occurrence(raw, lines[i], from, k);
                assert(s[0] == off as u64);
            } else {
                assert(s[a] == t[a - 1]);
                assert(lines[i + a] == lines[(i + 1) + (a - 1)]);
                if a >= 2 {
                    assert(s[a - 1] == t[a - 2]);
                } else {
                    assert(s[0] == off as u64);
                    assert(min_int(off + 1, raw.len() as int) == next);
                }
                assert(t[a - 1] == s[a]);
            }
        }
    }
}

} // verus!
