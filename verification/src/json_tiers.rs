//! Tiered JSON viewing: a small document pretty-printed, NDJSON one record per
//! line, and raw lines for large or invalid files.

use vstd::prelude::*;
use crate::probe::slice_range;
use crate::strings::{decimal, lossy_string, push_decimal, str_equal, utf8_lossy};
use crate::text_slice::{
    first_newline, lemma_line_span_bounds, line_content_end, spec_line_span,
};

verus! {

/// Files larger than this are shown raw.
pub const SMALL_FILE_LIMIT: u64 = 2097152;

/// `bytes` hold one JSON value: `serde_json::from_slice::<serde_json::Value>`
/// succeeds on them (surrounding whitespace allowed).
pub uninterp spec fn json_valid(bytes: Seq<u8>) -> bool;

/// The text of two serde_json calls in a row: `serde_json::to_string_pretty` of
/// the `serde_json::Value` that `serde_json::from_slice` reads from `bytes`. The
/// value itself never reaches the library, so the pair is named as one.
pub uninterp spec fn json_pretty_text(bytes: Seq<u8>) -> Seq<char>;

/// The message (`to_string` of the error) with which
/// `serde_json::from_slice::<serde_json::Value>` refuses `bytes`.
pub uninterp spec fn json_error_text(bytes: Seq<u8>) -> Seq<char>;

/// Wraps `serde_json::from_slice::<serde_json::Value>` followed by
/// `serde_json::to_string_pretty`: reads a JSON value from the bytes and prints it
/// pretty. The contract names the printed text and the error message; it states
/// that the call succeeds exactly on the bytes that hold a JSON value (printing a
/// `Value` cannot fail: its map keys are strings).
#[verifier::external_body]
pub fn json_reformat(bytes: &[u8]) -> (r: Result<String, String>)
    ensures
        r is Ok <==> json_valid(bytes@),
        r matches Ok(s) ==> s@ == json_pretty_text(bytes@),
        r matches Err(e) ==> e@ == json_error_text(bytes@),
{
    match serde_json::from_slice::<serde_json::Value>(bytes) {
        Ok(v) => serde_json::to_string_pretty(&v).map_err(|e| e.to_string()),
        Err(e) => Err(e.to_string()),
    }
}

/// How the JSON viewer shows a file.
#[derive(Clone, Copy, Debug, PartialEq, Eq, Structural)]
pub enum JsonTier {
    /// One small JSON value, pretty-printed.
    SmallPretty,
    /// One JSON value per line, each pretty-printed.
    Ndjson,
    /// A large file, shown raw.
    LargeRaw,
    /// A small file that is not JSON, shown raw with the parse error.
    InvalidRaw,
}

/// ASCII whitespace (`u8::is_ascii_whitespace`): space, tab, line feed, form feed,
/// carriage return.
pub open spec fn is_ascii_ws(b: u8) -> bool {
    b == 32u8 || b == 9u8 || b == 10u8 || b == 12u8 || b == 13u8
}

/// First index at or after `i` holding a byte that is not whitespace (or the length).
pub open spec fn trim_start_at(d: Seq<u8>, i: int) -> int
    decreases d.len() - i,
{
    if i >= d.len() || !is_ascii_ws(d[i]) {
        i
    } else {
        trim_start_at(d, i + 1)
    }
}

/// End (exclusive) of the bytes in `[lo, j)` once whitespace is cut from the end.
pub open spec fn trim_end_at(d: Seq<u8>, lo: int, j: int) -> int
    decreases j - lo,
{
    if j <= lo || !is_ascii_ws(d[j - 1]) {
        j
    } else {
        trim_end_at(d, lo, j - 1)
    }
}

/// `d` without leading and trailing ASCII whitespace.
pub open spec fn spec_trim(d: Seq<u8>) -> Seq<u8> {
    let s = trim_start_at(d, 0);
    d.subrange(s, trim_end_at(d, s, d.len() as int))
}

proof fn lemma_trim_start(d: Seq<u8>, i: int)
    requires
        0 <= i <= d.len(),
    ensures
        i <= trim_start_at(d, i) <= d.len(),
    decreases d.len() - i,
{
    if i < d.len() && is_ascii_ws(d[i]) {
        lemma_trim_start(d, i + 1);
    }
}

proof fn lemma_trim_end(d: Seq<u8>, lo: int, j: int)
    requires
        0 <= lo <= j <= d.len(),
    ensures
        lo <= trim_end_at(d, lo, j) <= j,
    decreases j - lo,
{
    if j > lo && is_ascii_ws(d[j - 1]) {
        lemma_trim_end(d, lo, j - 1);
    }
}

/// Whether `b` is ASCII whitespace.
pub fn ascii_ws(b: u8) -> (r: bool)
    ensures
        r == is_ascii_ws(b),
{
    b == 32u8 || b == 9u8 || b == 10u8 || b == 12u8 || b == 13u8
}

/// `data` without leading and trailing ASCII whitespace.
pub fn trim_bytes(data: &[u8]) -> (r: &[u8])
    ensures
        r@ == spec_trim(data@),
{
    let mut s: usize = 0;
    while s < data.len() && ascii_ws(data[s])
        invariant
            s <= data@.len(),
            trim_start_at(data@, s as int) == trim_start_at(data@, 0),
        decreases data@.len() - s,
    {
        s = s + 1;
    }
    let mut e: usize = data.len();
    while e > s && ascii_ws(data[e - 1])
        invariant
            s <= e <= data@.len(),
            trim_end_at(data@, s as int, e as int) == trim_end_at(data@, s as int, data@.len() as int),
        decreases e - s,
    {
        e = e - 1;
    }
    slice_range(data, s, e)
}

/// Start of the line after the one at `p` and end of the content of the line at `p`.
fn line_bounds(data: &[u8], p: usize) -> (r: (usize, usize))
    requires
        p < data@.len(),
    ensures
        r.0 == line_content_end(data@, p as int),
        r.1 == p + spec_line_span(data@, p as int),
        p <= r.0 <= r.1 <= data@.len(),
        p < r.1,
{
    proof {
        lemma_line_span_bounds(data@, p as int);
    }
    let mut i = p;
    while i < data.len() && data[i] != 10u8
        invariant
            p <= i <= data@.len(),
            first_newline(data@, i as int) == first_newline(data@, p as int),
        decreases data@.len() - i,
    {
        i = i + 1;
    }
    if i < data.len() {
        (i, i + 1)
    } else {
        (i, i)
    }
}

/// The starts of the lines (newline included) from position `p` on, as
/// `split_inclusive` on `\n` cuts them.
pub open spec fn chunk_starts(d: Seq<u8>, p: int) -> Seq<int>
    decreases d.len() - p,
{
    if p < 0 || p >= d.len() {
        seq![]
    } else {
        proof {
            lemma_line_span_bounds(d, p);
        }
        seq![p] + chunk_starts(d, p + spec_line_span(d, p))
    }
}

/// The line (newline included) that starts at `p`.
pub open spec fn chunk_at(d: Seq<u8>, p: int) -> Seq<u8> {
    d.subrange(p, p + spec_line_span(d, p))
}

/// The trimmed, non-empty records of NDJSON data from `p` on, with their starts.
pub open spec fn records_from(d: Seq<u8>, p: int) -> Seq<(int, Seq<u8>)>
    decreases d.len() - p,
{
    if p < 0 || p >= d.len() {
        seq![]
    } else {
        proof {
            lemma_line_span_bounds(d, p);
        }
        let t = spec_trim(d.subrange(p, line_content_end(d, p)));
        let rest = records_from(d, p + spec_line_span(d, p));
        if t.len() > 0 {
            seq![(p, t)] + rest
        } else {
            rest
        }
    }
}

/// Data is NDJSON: at least two non-blank lines, each holding one JSON value.
pub open spec fn spec_is_ndjson(d: Seq<u8>) -> bool {
    let rs = records_from(d, 0);
    rs.len() >= 2 && forall|i: int| 0 <= i < rs.len() ==> json_valid(#[trigger] rs[i].1)
}

/// Data is one JSON document: not blank, and holding a JSON value.
pub open spec fn spec_is_json_document(d: Seq<u8>) -> bool {
    spec_trim(d).len() > 0 && json_valid(spec_trim(d))
}

/// Whether `data` is one JSON document.
pub fn is_valid_json_document(data: &[u8]) -> (r: bool)
    ensures
        r == spec_is_json_document(data@),
{
    let t = trim_bytes(data);
    if t.len() == 0 {
        return false;
    }
    json_reformat(t).is_ok()
}

/// Whether `data` is NDJSON.
pub fn is_ndjson(data: &[u8]) -> (r: bool)
    ensures
        r == spec_is_ndjson(data@),
        r ==> forall|p: int|
            #![trigger trimmed_line(data@, p)]
            is_line_start(data@, p) && trimmed_line(data@, p).len() > 0 ==> json_valid(
                trimmed_line(data@, p),
            ),
{
    proof {
        assert forall|p: int|
            #![trigger trimmed_line(data@, p)]
            is_line_start(data@, p) && trimmed_line(data@, p).len() > 0 && spec_is_ndjson(data@)
                implies json_valid(trimmed_line(data@, p)) by {
            if !json_valid(trimmed_line(data@, p)) {
                lemma_bad_line_rules_out_ndjson(data@, 0, p);
            }
        }
    }
    let mut p: usize = 0;
    let mut count: usize = 0;
    let mut all_valid = true;
    let ghost full = records_from(data@, 0);
    proof {
        assert(full.subrange(0, full.len() as int) =~= full);
    }
    while p < data.len()
        invariant
            p <= data@.len(),
            full == records_from(data@, 0),
            count <= full.len(),
            count <= p,
            full.subrange(count as int, full.len() as int) == records_from(data@, p as int),
            all_valid <==> forall|i: int| 0 <= i < count ==> json_valid(#[trigger] full[i].1),
        decreases data@.len() - p,
    {
        let (ce, next) = line_bounds(data, p);
        let t = trim_bytes(slice_range(data, p, ce));
        proof {
            lemma_line_span_bounds(data@, p as int);
            assert(t@ == spec_trim(data@.subrange(p as int, line_content_end(data@, p as int))));
        }
        if t.len() > 0 {
            proof {
                assert(records_from(data@, p as int) == seq![(p as int, t@)] + records_from(
                    data@,
                    next as int,
                ));
                let tail = full.subrange(count as int, full.len() as int);
                assert(tail[0] == full[count as int]);
                assert(full.subrange(count + 1, full.len() as int) =~= tail.skip(1));
                assert(tail.skip(1) =~= records_from(data@, next as int));
            }
            let ok = json_reformat(t).is_ok();
            proof {
                assert(full[count as int].1 == t@);
                if all_valid && ok {
                    assert forall|i: int| 0 <= i < count + 1 implies json_valid(
                        #[trigger] full[i].1,
                    ) by {
                        if i < count {
                        }
                    }
                }
            }
            all_valid = all_valid && ok;
            count = count + 1;
        } else {
            proof {
                assert(records_from(data@, p as int) == records_from(data@, next as int));
            }
        }
        p = next;
    }
    proof {
        assert(full.subrange(count as int, full.len() as int).len() == 0);
    }
    count >= 2 && all_valid
}

/// The tier for a file of `size` bytes holding `data`: raw above the size limit,
/// then NDJSON, then a pretty document, and raw with an error otherwise.
pub open spec fn spec_detect_tier(size: u64, data: Seq<u8>) -> JsonTier {
    if size > SMALL_FILE_LIMIT {
        JsonTier::LargeRaw
    } else if spec_is_ndjson(data) {
        JsonTier::Ndjson
    } else if spec_is_json_document(data) {
        JsonTier::SmallPretty
    } else {
        JsonTier::InvalidRaw
    }
}

/// Chooses the tier from the file size and the content shape.
pub fn detect_tier(size: u64, data: &[u8]) -> (t: JsonTier)
    ensures
        t == spec_detect_tier(size, data@),
        t == JsonTier::Ndjson ==> forall|p: int|
            #![trigger trimmed_line(data@, p)]
            is_line_start(data@, p) && trimmed_line(data@, p).len() > 0 ==> json_valid(
                trimmed_line(data@, p),
            ),
{
    if size > SMALL_FILE_LIMIT {
        return JsonTier::LargeRaw;
    }
    if is_ndjson(data) {
        return JsonTier::Ndjson;
    }
    if is_valid_json_document(data) {
        return JsonTier::SmallPretty;
    }
    JsonTier::InvalidRaw
}

/// The lines of a text as `str::lines` cuts them: at each `\n`, dropping one `\r`
/// before it; the text after the last `\n` is a line when it is not empty.
pub open spec fn text_lines(s: Seq<char>) -> Seq<Seq<char>>
    decreases s.len(),
{
    if s.len() == 0 {
        seq![]
    } else {
        match first_char(s, '\n', 0) {
            Some(i) => {
                proof {
                    lemma_first_char_bounds(s, '\n', 0);
                }
                let head = s.take(i);
                let line = if head.len() > 0 && head.last() == '\r' {
                    head.drop_last()
                } else {
                    head
                };
                seq![line] + text_lines(s.skip(i + 1))
            },
            None => seq![s],
        }
    }
}

/// Index of the first `c` in `s[i..)`, if any.
pub open spec fn first_char(s: Seq<char>, c: char, i: int) -> Option<int>
    decreases s.len() - i,
{
    if i < 0 || i >= s.len() {
        None
    } else if s[i] == c {
        Some(i)
    } else {
        first_char(s, c, i + 1)
    }
}

pub proof fn lemma_first_char_bounds(s: Seq<char>, c: char, i: int)
    requires
        0 <= i,
    ensures
        first_char(s, c, i) matches Some(j) ==> i <= j < s.len() && s[j] == c,
        first_char(s, c, i) is None ==> forall|k: int| i <= k < s.len() ==> s[k] != c,
    decreases s.len() - i,
{
    if i < s.len() && s[i] != c {
        lemma_first_char_bounds(s, c, i + 1);
    }
}

/// The lines of `s`, as `str::lines` gives them.
pub fn split_lines(s: &str) -> (r: Vec<String>)
    ensures
        r.deep_view() == text_lines(s@),
{
    let cs = crate::strings::chars_of(s);
    let mut r: Vec<String> = Vec::new();
    let mut p: usize = 0;
    let n = cs.len();
    proof {
        assert(cs@.skip(0) =~= cs@);
    }
    while p < n
        invariant
            p <= n == cs@.len(),
            cs@ == s@,
            r.deep_view() + text_lines(cs@.skip(p as int)) == text_lines(s@),
        decreases n - p,
    {
        let ghost rest = cs@.skip(p as int);
        let mut q = p;
        while q < n && cs[q] != '\n'
            invariant
                p <= q <= n == cs@.len(),
                rest == cs@.skip(p as int),
                first_char(rest, '\n', (q - p) as int) == first_char(rest, '\n', 0),
            decreases n - q,
        {
            q = q + 1;
        }
        proof {
            lemma_first_char_bounds(rest, '\n', 0);
        }
        let mut e = q;
        if q < n && e > p && cs[e - 1] == '\r' {
            e = e - 1;
        }
        let line = crate::strings::string_from_chars(&cs, p, e);
        let ghost before = r.deep_view();
        r.push(line);
        proof {
            assert(r.deep_view() =~= before.push(line@));
        }
        if q < n {
            proof {
                assert(first_char(rest, '\n', 0) == Some((q - p) as int));
                assert(rest.take((q - p) as int) =~= cs@.subrange(p as int, q as int));
                assert(rest.skip((q - p) + 1) =~= cs@.skip(q + 1));
                assert(line@ =~= (if rest.take((q - p) as int).len() > 0 && rest.take(
                    (q - p) as int,
                ).last() == '\r' {
                    rest.take((q - p) as int).drop_last()
                } else {
                    rest.take((q - p) as int)
                }));
                assert(r.deep_view() + text_lines(cs@.skip(q + 1)) =~= text_lines(s@));
            }
            p = q + 1;
        } else {
            proof {
                assert(first_char(rest, '\n', 0) is None);
                assert(line@ =~= rest);
                assert(cs@.skip(n as int) =~= Seq::<char>::empty());
                assert(r.deep_view() + text_lines(cs@.skip(n as int)) =~= text_lines(s@));
            }
            p = n;
        }
    }
    proof {
        assert(cs@.skip(n as int) =~= Seq::<char>::empty());
        assert(r.deep_view() =~= text_lines(s@));
    }
    r
}

/// The display model of a JSON file, built once per file.
#[derive(Debug)]
pub struct JsonFileCache {
    pub tier: JsonTier,
    /// Lines shown in the viewport.
    pub display_lines: Vec<String>,
    /// Source byte offset of the start of each display line.
    pub line_start_bytes: Vec<u64>,
    /// The parse error, for the invalid tier.
    pub parse_error: Option<String>,
}

/// A copy of `v`, string by string.
pub fn copy_strings(v: &Vec<String>) -> (r: Vec<String>)
    ensures
        r@ == v@,
{
    let mut r: Vec<String> = Vec::new();
    let mut i: usize = 0;
    while i < v.len()
        invariant
            i <= v@.len(),
            r@ == v@.take(i as int),
        decreases v@.len() - i,
    {
        r.push(v[i].clone());
        i = i + 1;
        proof {
            assert(r@ =~= v@.take(i as int));
        }
    }
    proof {
        assert(v@.take(v@.len() as int) =~= v@);
    }
    r
}

/// A copy of `v`.
pub fn copy_u64s(v: &Vec<u64>) -> (r: Vec<u64>)
    ensures
        r@ == v@,
{
    let mut r: Vec<u64> = Vec::new();
    let mut i: usize = 0;
    while i < v.len()
        invariant
            i <= v@.len(),
            r@ == v@.take(i as int),
        decreases v@.len() - i,
    {
        r.push(v[i]);
        i = i + 1;
        proof {
            assert(r@ =~= v@.take(i as int));
        }
    }
    proof {
        assert(v@.take(v@.len() as int) =~= v@);
    }
    r
}

/// Index of the first entry of `starts` from `i` on that lies past `byte` (or the length).
pub open spec fn first_start_after(starts: Seq<u64>, byte: u64, i: int) -> int
    decreases starts.len() - i,
{
    if i < 0 || i >= starts.len() || starts[i] > byte {
        i
    } else {
        first_start_after(starts, byte, i + 1)
    }
}

/// The display line for a source byte: the last line of the leading run of line
/// starts at or before `byte` (0 when the first start is already past it).
pub open spec fn spec_line_index_for_byte(starts: Seq<u64>, byte: u64) -> u64 {
    let j = first_start_after(starts, byte, 0);
    if j <= 0 {
        0
    } else {
        (j - 1) as u64
    }
}

impl JsonFileCache {
    /// Two caches hold the same model.
    pub open spec fn same_as(self, other: JsonFileCache) -> bool {
        &&& self.tier == other.tier
        &&& self.display_lines@ == other.display_lines@
        &&& self.line_start_bytes@ == other.line_start_bytes@
        &&& self.parse_error == other.parse_error
    }

    /// A copy of this cache.
    pub fn duplicate(&self) -> (r: JsonFileCache)
        ensures
            r.same_as(*self),
    {
        let parse_error = match &self.parse_error {
            Some(e) => Some(e.clone()),
            None => None,
        };
        let r = JsonFileCache {
            tier: self.tier,
            display_lines: copy_strings(&self.display_lines),
            line_start_bytes: copy_u64s(&self.line_start_bytes),
            parse_error,
        };
        proof {
            assert(r.display_lines@ =~= self.display_lines@);
            assert(r.line_start_bytes@ =~= self.line_start_bytes@);
        }
        r
    }

    /// Number of display lines.
    pub fn line_count(&self) -> (n: u64)
        ensures
            n == self.display_lines@.len(),
    {
        self.display_lines.len() as u64
    }

    /// The display line for a source byte (see [`spec_line_index_for_byte`]).
    pub fn line_index_for_byte(&self, byte: u64) -> (r: u64)
        ensures
            r == spec_line_index_for_byte(self.line_start_bytes@, byte),
    {
        let starts = &self.line_start_bytes;
        let mut j: usize = 0;
        while j < starts.len() && starts[j] <= byte
            invariant
                j <= starts@.len(),
                first_start_after(starts@, byte, j as int) == first_start_after(starts@, byte, 0),
            decreases starts@.len() - j,
        {
            j = j + 1;
        }
        if j == 0 {
            0
        } else {
            (j - 1) as u64
        }
    }

    /// The source byte of a display line; 0 for a line past the end.
    pub fn byte_for_line_index(&self, line: u64) -> (r: u64)
        ensures
            r == (if line < self.line_start_bytes@.len() {
                self.line_start_bytes@[line as int]
            } else {
                0
            }),
    {
        if line < self.line_start_bytes.len() as u64 {
            self.line_start_bytes[line as usize]
        } else {
            0
        }
    }

    /// Up to `max_rows` display lines from `start_line`; an end marker past the end.
    pub fn viewport_lines(&self, start_line: u64, max_rows: u16) -> (r: Vec<String>)
        ensures
            r.deep_view() == (if start_line >= self.display_lines@.len() {
                seq!["(end of JSON view)"@]
            } else {
                self.display_lines.deep_view().subrange(
                    start_line as int,
                    if start_line + max_rows < self.display_lines@.len() {
                        start_line + max_rows
                    } else {
                        self.display_lines@.len() as int
                    },
                )
            }),
    {
        let n = self.display_lines.len();
        if start_line >= n as u64 {
            let mut r: Vec<String> = Vec::new();
            r.push("(end of JSON view)".to_owned());
            proof {
                assert(r.deep_view() =~= seq!["(end of JSON view)"@]);
            }
            return r;
        }
        let start = start_line as usize;
        let end = if (max_rows as usize) < n - start {
            start + max_rows as usize
        } else {
            n
        };
        let mut r: Vec<String> = Vec::new();
        let mut i = start;
        while i < end
            invariant
                start <= i <= end <= n == self.display_lines@.len(),
                r@ == self.display_lines@.subrange(start as int, i as int),
            decreases end - i,
        {
            r.push(self.display_lines[i].clone());
            i = i + 1;
            proof {
                assert(r@ =~= self.display_lines@.subrange(start as int, i as int));
            }
        }
        proof {
            assert(r.deep_view() =~= self.display_lines.deep_view().subrange(start as int, end as int));
        }
        r
    }

    /// Moves a display line by `delta`, within `[0, line_count - 1]`.
    pub fn advance_line(&self, current_line: u64, delta: i64) -> (r: u64)
        ensures
            r == ({
                let max: int = if self.display_lines@.len() == 0 {
                    0
                } else {
                    self.display_lines@.len() - 1
                };
                let t = current_line + delta;
                if delta >= 0 {
                    if t > max { max } else { t }
                } else {
                    if t < 0 { 0 } else { t }
                }
            }),
    {
        let n = self.display_lines.len() as u64;
        let max = if n == 0 {
            0
        } else {
            n - 1
        };
        if delta >= 0 {
            let d = delta as u64;
            if d > max || current_line > max - d {
                max
            } else {
                current_line + d
            }
        } else {
            let d: u64 = if delta == i64::MIN {
                (i64::MAX as u64) + 1
            } else {
                (-delta) as u64
            };
            if d > current_line {
                0
            } else {
                current_line - d
            }
        }
    }
}

/// Raw display lines: each line of the data (newline included) decoded lossily.
pub open spec fn raw_display_lines(d: Seq<u8>) -> Seq<Seq<char>> {
    chunk_starts(d, 0).map_values(|p: int| utf8_lossy(chunk_at(d, p)))
}

/// Source offsets of the lines of the data; `[0]` for empty data.
pub open spec fn spec_line_starts(d: Seq<u8>) -> Seq<u64> {
    if chunk_starts(d, 0).len() == 0 {
        seq![0u64]
    } else {
        chunk_starts(d, 0).map_values(|p: int| p as u64)
    }
}

/// Raw lines and their starts, walked together.
fn raw_lines_and_starts(data: &[u8]) -> (r: (Vec<String>, Vec<u64>))
    ensures
        r.0.deep_view() == raw_display_lines(data@),
        r.1@ == chunk_starts(data@, 0).map_values(|p: int| p as u64),
{
    let mut lines: Vec<String> = Vec::new();
    let mut starts: Vec<u64> = Vec::new();
    let mut p: usize = 0;
    let ghost mut done: Seq<int> = seq![];
    while p < data.len()
        invariant
            p <= data@.len(),
            chunk_starts(data@, 0) == done + chunk_starts(data@, p as int),
            lines.deep_view() == done.map_values(|q: int| utf8_lossy(chunk_at(data@, q))),
            starts@ == done.map_values(|q: int| q as u64),
        decreases data@.len() - p,
    {
        let (_ce, next) = line_bounds(data, p);
        let chunk = slice_range(data, p, next);
        let text = lossy_string(chunk);
        let ghost before = lines.deep_view();
        lines.push(text);
        proof {
            assert(lines.deep_view() =~= before.push(text@));
        }
        starts.push(p as u64);
        proof {
            lemma_line_span_bounds(data@, p as int);
            assert(chunk_starts(data@, p as int) == seq![p as int] + chunk_starts(data@, next as int));
            assert(chunk@ == chunk_at(data@, p as int));
            let nd = done.push(p as int);
            assert(chunk_starts(data@, 0) =~= nd + chunk_starts(data@, next as int));
            assert(lines.deep_view() =~= nd.map_values(|q: int| utf8_lossy(chunk_at(data@, q))));
            assert(starts@ =~= nd.map_values(|q: int| q as u64));
            done = nd;
        }
        p = next;
    }
    proof {
        assert(chunk_starts(data@, p as int) =~= Seq::<int>::empty());
        assert(done =~= chunk_starts(data@, 0));
    }
    (lines, starts)
}

/// Source offsets of the lines of `data` (`[0]` for empty data).
pub fn line_starts_from_chunks(data: &[u8]) -> (r: Vec<u64>)
    ensures
        r@ == spec_line_starts(data@),
{
    let (_lines, mut starts) = raw_lines_and_starts(data);
    if starts.len() == 0 {
        starts.push(0);
        proof {
            assert(starts@ =~= seq![0u64]);
        }
    }
    starts
}

/// The raw model: the lines as they are, with their source offsets.
pub fn build_raw_cache(data: &[u8], tier: JsonTier, parse_error: Option<String>) -> (c: JsonFileCache)
    ensures
        c.tier == tier,
        c.display_lines.deep_view() == raw_display_lines(data@),
        c.line_start_bytes@ == spec_line_starts(data@),
        c.parse_error == parse_error,
{
    let (display_lines, _s) = raw_lines_and_starts(data);
    let line_start_bytes = line_starts_from_chunks(data);
    JsonFileCache { tier, display_lines, line_start_bytes, parse_error }
}

/// An NDJSON record as shown: pretty-printed when it is JSON, as it is otherwise.
pub open spec fn spec_format_record(t: Seq<u8>) -> Seq<char> {
    if json_valid(t) {
        json_pretty_text(t)
    } else {
        utf8_lossy(t)
    }
}

/// See [`spec_format_record`].
pub fn format_ndjson_line(line: &[u8]) -> (s: String)
    ensures
        s@ == spec_format_record(line@),
{
    match json_reformat(line) {
        Ok(s) => s,
        Err(_) => lossy_string(line),
    }
}

/// NDJSON display lines: each record formatted; one empty line when there are none.
pub open spec fn ndjson_display_lines(d: Seq<u8>) -> Seq<Seq<char>> {
    let rs = records_from(d, 0);
    if rs.len() == 0 {
        seq![Seq::empty()]
    } else {
        rs.map_values(|r: (int, Seq<u8>)| spec_format_record(r.1))
    }
}

/// NDJSON line starts: the source offset of each record; `[0]` when there are none.
pub open spec fn ndjson_line_starts(d: Seq<u8>) -> Seq<u64> {
    let rs = records_from(d, 0);
    if rs.len() == 0 {
        seq![0u64]
    } else {
        rs.map_values(|r: (int, Seq<u8>)| r.0 as u64)
    }
}

/// The NDJSON model: one display line per non-blank source line, keeping its offset.
pub fn build_ndjson_cache(data: &[u8]) -> (c: JsonFileCache)
    ensures
        c.tier == JsonTier::Ndjson,
        c.display_lines.deep_view() == ndjson_display_lines(data@),
        c.line_start_bytes@ == ndjson_line_starts(data@),
        c.parse_error is None,
{
    let mut lines: Vec<String> = Vec::new();
    let mut starts: Vec<u64> = Vec::new();
    let mut p: usize = 0;
    let ghost mut done: Seq<(int, Seq<u8>)> = seq![];
    while p < data.len()
        invariant
            p <= data@.len(),
            records_from(data@, 0) == done + records_from(data@, p as int),
            lines.deep_view() == done.map_values(|r: (int, Seq<u8>)| spec_format_record(r.1)),
            starts@ == done.map_values(|r: (int, Seq<u8>)| r.0 as u64),
        decreases data@.len() - p,
    {
        let (ce, next) = line_bounds(data, p);
        let t = trim_bytes(slice_range(data, p, ce));
        proof {
            lemma_line_span_bounds(data@, p as int);
        }
        if t.len() > 0 {
            let text = format_ndjson_line(t);
            let ghost before = lines.deep_view();
            lines.push(text);
            proof {
                assert(lines.deep_view() =~= before.push(text@));
            }
            starts.push(p as u64);
            proof {
                assert(records_from(data@, p as int) == seq![(p as int, t@)] + records_from(
                    data@,
                    next as int,
                ));
                let nd = done.push((p as int, t@));
                assert(records_from(data@, 0) =~= nd + records_from(data@, next as int));
                assert(lines.deep_view() =~= nd.map_values(
                    |r: (int, Seq<u8>)| spec_format_record(r.1),
                ));
                assert(starts@ =~= nd.map_values(|r: (int, Seq<u8>)| r.0 as u64));
                done = nd;
            }
        } else {
            proof {
                assert(records_from(data@, p as int) == records_from(data@, next as int));
            }
        }
        p = next;
    }
    proof {
        assert(records_from(data@, p as int) =~= Seq::<(int, Seq<u8>)>::empty());
        assert(done =~= records_from(data@, 0));
    }
    if lines.len() == 0 {
        lines.push(String::new());
        starts.push(0);
        proof {
            assert(lines.deep_view() =~= seq![Seq::<char>::empty()]);
            assert(starts@ =~= seq![0u64]);
        }
    }
    JsonFileCache { tier: JsonTier::Ndjson, display_lines: lines, line_start_bytes: starts, parse_error: None }
}

/// Offsets of the pretty lines: spread evenly over the file, line `i` of `count`
/// at `i * (size - 1) / count`.
pub open spec fn spread_starts(count: nat, size: nat) -> Seq<u64> {
    Seq::new(
        count,
        |i: int| ((i * (if size == 0 { 0 } else { size - 1 })) / (count as int)) as u64,
    )
}

/// The pretty model of a small document: serde_json's pretty text, line by line,
/// with offsets spread over the file; the parse error when it is not JSON.
pub fn build_small_pretty_cache(data: &[u8]) -> (r: Result<JsonFileCache, String>)
    ensures
        r is Ok <==> json_valid(spec_trim(data@)),
        r matches Ok(c) ==> {
            &&& c.tier == JsonTier::SmallPretty
            &&& c.display_lines.deep_view() == text_lines(json_pretty_text(spec_trim(data@)))
            &&& c.line_start_bytes@ == spread_starts(
                if c.display_lines@.len() == 0 { 1 } else { c.display_lines@.len() },
                data@.len(),
            )
            &&& c.parse_error is None
        },
        r matches Err(e) ==> e@ == json_error_text(spec_trim(data@)),
{
    let trimmed = trim_bytes(data);
    match json_reformat(trimmed) {
        Ok(pretty) => Ok(pretty_cache_from_text(pretty.as_str(), data.len())),
        Err(e) => Err(e),
    }
}

/// The pretty model of a document of `file_len` bytes whose pretty text is
/// `pretty`: its lines, with offsets spread over the file.
pub fn pretty_cache_from_text(pretty: &str, file_len: usize) -> (c: JsonFileCache)
    ensures
        c.tier == JsonTier::SmallPretty,
        c.display_lines.deep_view() == text_lines(pretty@),
        c.line_start_bytes@ == spread_starts(
            if c.display_lines@.len() == 0 { 1 } else { c.display_lines@.len() },
            file_len as nat,
        ),
        c.parse_error is None,
{
    let display_lines = split_lines(pretty);
    let count: u64 = if display_lines.len() == 0 {
        1
    } else {
        display_lines.len() as u64
    };
    let last: u64 = if file_len == 0 {
        0
    } else {
        file_len as u64 - 1
    };
    let mut starts: Vec<u64> = Vec::new();
    let mut i: u64 = 0;
    while i < count
        invariant
            i <= count,
            count >= 1,
            last == (if file_len == 0 { 0 } else { file_len - 1 }),
            starts@ == spread_starts(count as nat, file_len as nat).take(i as int),
        decreases count - i,
    {
        proof {
            assert((i as int) * (last as int) / (count as int) <= last) by (nonlinear_arith)
                requires
                    i < count,
                    count >= 1,
            ;
            assert((i as int) * (last as int) <= u128::MAX) by (nonlinear_arith)
                requires
                    i <= u64::MAX,
                    last <= u64::MAX,
            ;
        }
        let v: u128 = (i as u128) * (last as u128) / (count as u128);
        starts.push(v as u64);
        i = i + 1;
        proof {
            assert(starts@ =~= spread_starts(count as nat, file_len as nat).take(i as int));
        }
    }
    proof {
        assert(spread_starts(count as nat, file_len as nat).take(count as int) =~= spread_starts(
            count as nat,
            file_len as nat,
        ));
    }
    JsonFileCache {
        tier: JsonTier::SmallPretty,
        display_lines,
        line_start_bytes: starts,
        parse_error: None,
    }
}

/// The message for data that is not JSON: serde_json's error, or a generic text
/// when the data parses after all.
pub open spec fn spec_parse_error_message(d: Seq<u8>) -> Seq<char> {
    if json_valid(spec_trim(d)) {
        "invalid JSON"@
    } else {
        json_error_text(spec_trim(d))
    }
}

/// See [`spec_parse_error_message`].
pub fn parse_error_message(data: &[u8]) -> (s: String)
    ensures
        s@ == spec_parse_error_message(data@),
{
    match json_reformat(trim_bytes(data)) {
        Ok(_) => "invalid JSON".to_owned(),
        Err(e) => e,
    }
}

/// `c` is the model built for a file of `size` bytes holding `d`: the tier's
/// lines and offsets, and the parse error for the invalid tier.
pub open spec fn spec_is_built_cache(c: JsonFileCache, size: u64, d: Seq<u8>) -> bool {
    &&& c.tier == spec_detect_tier(size, d)
    &&& match c.tier {
        JsonTier::LargeRaw => {
            &&& c.display_lines.deep_view() == raw_display_lines(d)
            &&& c.line_start_bytes@ == spec_line_starts(d)
            &&& c.parse_error is None
        },
        JsonTier::InvalidRaw => {
            &&& c.display_lines.deep_view() == raw_display_lines(d)
            &&& c.line_start_bytes@ == spec_line_starts(d)
            &&& c.parse_error matches Some(e) && e@ == spec_parse_error_message(d)
        },
        JsonTier::Ndjson => {
            &&& c.display_lines.deep_view() == ndjson_display_lines(d)
            &&& c.line_start_bytes@ == ndjson_line_starts(d)
            &&& c.parse_error is None
        },
        JsonTier::SmallPretty => {
            &&& c.display_lines.deep_view() == text_lines(json_pretty_text(spec_trim(d)))
            &&& c.line_start_bytes@ == spread_starts(
                if c.display_lines@.len() == 0 { 1 } else { c.display_lines@.len() },
                d.len(),
            )
            &&& c.parse_error is None
        },
    }
}

/// The display lines of the tier that a file of `size` bytes holding `d` gets.
pub open spec fn tier_display_lines(size: u64, d: Seq<u8>) -> Seq<Seq<char>> {
    match spec_detect_tier(size, d) {
        JsonTier::Ndjson => ndjson_display_lines(d),
        JsonTier::SmallPretty => text_lines(json_pretty_text(spec_trim(d))),
        _ => raw_display_lines(d),
    }
}

/// The line offsets of the tier that a file of `size` bytes holding `d` gets.
pub open spec fn tier_line_starts(size: u64, d: Seq<u8>) -> Seq<u64> {
    match spec_detect_tier(size, d) {
        JsonTier::Ndjson => ndjson_line_starts(d),
        JsonTier::SmallPretty => spread_starts(
            if tier_display_lines(size, d).len() == 0 { 1 } else { tier_display_lines(size, d).len() },
            d.len(),
        ),
        _ => spec_line_starts(d),
    }
}

/// The parse error kept for a file: the message for the invalid tier, none otherwise.
pub open spec fn tier_parse_error(size: u64, d: Seq<u8>) -> Option<Seq<char>> {
    match spec_detect_tier(size, d) {
        JsonTier::InvalidRaw => Some(spec_parse_error_message(d)),
        _ => None,
    }
}

/// Builds the display model for a file of `size` bytes holding `data`.
pub fn build_cache(size: u64, data: &[u8]) -> (c: JsonFileCache)
    ensures
        spec_is_built_cache(c, size, data@),
        c.tier == spec_detect_tier(size, data@),
        c.display_lines.deep_view() == tier_display_lines(size, data@),
        c.display_lines@.len() == tier_display_lines(size, data@).len(),
        c.line_start_bytes@ == tier_line_starts(size, data@),
        c.parse_error.is_some() == tier_parse_error(size, data@).is_some(),
        c.parse_error matches Some(e) ==> tier_parse_error(size, data@) == Some(e@),
{
    let tier = detect_tier(size, data);
    match tier {
        JsonTier::LargeRaw => build_raw_cache(data, tier, None),
        JsonTier::InvalidRaw => {
            let err = parse_error_message(data);
            build_raw_cache(data, tier, Some(err))
        },
        JsonTier::Ndjson => build_ndjson_cache(data),
        JsonTier::SmallPretty => match build_small_pretty_cache(data) {
            Ok(cache) => cache,
            Err(err) => build_raw_cache(data, JsonTier::InvalidRaw, Some(err)),
        },
    }
}

/// The JSON viewer's status line for a tier, given the byte position as a
/// percentage of the file.
pub open spec fn spec_json_status(
    tier: JsonTier,
    info_size: u64,
    line: u64,
    line_count: u64,
    byte: u64,
    parse_error: Option<Seq<char>>,
    pct: u32,
) -> Seq<char> {
    let tail = decimal(byte as nat) + " / "@ + decimal(info_size as nat) + " B ("@ + decimal(
        pct as nat,
    ) + "%)"@;
    let count: nat = if line_count >= 1 { line_count as nat } else { 1 };
    match tier {
        JsonTier::SmallPretty => "JSON pretty  line "@ + decimal((line + 1) as nat) + "/"@
            + decimal(count) + " @ "@ + tail,
        JsonTier::Ndjson => "JSON ndjson  line "@ + decimal((line + 1) as nat) + "/"@ + decimal(
            count,
        ) + " @ "@ + tail,
        JsonTier::LargeRaw => "JSON raw  "@ + tail,
        JsonTier::InvalidRaw => "JSON invalid ("@ + (match parse_error {
            Some(e) => e,
            None => "invalid JSON"@,
        }) + ")  "@ + tail,
    }
}

/// The tiers whose status numbers the display line from 1.
pub open spec fn numbers_lines(tier: JsonTier) -> bool {
    tier == JsonTier::SmallPretty || tier == JsonTier::Ndjson
}

/// See [`numbers_lines`].
pub fn tier_numbers_lines(tier: JsonTier) -> (b: bool)
    ensures
        b == numbers_lines(tier),
{
    match tier {
        JsonTier::SmallPretty | JsonTier::Ndjson => true,
        _ => false,
    }
}

/// See [`spec_json_status`]. A line past `u64::MAX - 1` cannot be numbered from 1,
/// which only the tiers that number lines do.
pub fn status_for_tier(
    tier: JsonTier,
    info_size: u64,
    line: u64,
    line_count: u64,
    byte: u64,
    parse_error: Option<&str>,
    pct: u32,
) -> (s: String)
    requires
        line < u64::MAX || !numbers_lines(tier),
    ensures
        s@ == spec_json_status(
            tier,
            info_size,
            line,
            line_count,
            byte,
            match parse_error {
                Some(e) => Some(e@),
                None => None,
            },
            pct,
        ),
{
    let count = if line_count >= 1 {
        line_count
    } else {
        1
    };
    let mut s = match tier {
        JsonTier::SmallPretty => "JSON pretty  line ".to_owned(),
        JsonTier::Ndjson => "JSON ndjson  line ".to_owned(),
        JsonTier::LargeRaw => "JSON raw  ".to_owned(),
        JsonTier::InvalidRaw => "JSON invalid (".to_owned(),
    };
    match tier {
        JsonTier::SmallPretty | JsonTier::Ndjson => {
            push_decimal(&mut s, line + 1);
            s.append("/");
            push_decimal(&mut s, count);
            s.append(" @ ");
        },
        JsonTier::LargeRaw => {},
        JsonTier::InvalidRaw => {
            match parse_error {
                Some(e) => s.append(e),
                None => s.append("invalid JSON"),
            }
            s.append(")  ");
        },
    }
    push_decimal(&mut s, byte);
    s.append(" / ");
    push_decimal(&mut s, info_size);
    s.append(" B (");
    push_decimal(&mut s, pct as u64);
    s.append("%)");
    s
}

/// The rows a file's tier model shows from display line `start`, at most
/// `max_rows`; an end marker past the end.
pub open spec fn spec_tier_viewport(d: Seq<u8>, start: u64, max_rows: u16) -> Seq<Seq<char>> {
    let lines = tier_display_lines(d.len() as u64, d);
    if start >= lines.len() {
        seq!["(end of JSON view)"@]
    } else {
        lines.subrange(
            start as int,
            if start + max_rows < lines.len() { start + max_rows } else { lines.len() as int },
        )
    }
}

/// A display line of a file's tier model moved by `delta`, within its lines.
pub open spec fn spec_tier_advance(d: Seq<u8>, current: u64, delta: i64) -> u64 {
    let n = tier_display_lines(d.len() as u64, d).len();
    let max: int = if n == 0 { 0 } else { n - 1 };
    let t = current + delta;
    if delta >= 0 {
        if t > max { max as u64 } else { t as u64 }
    } else {
        if t < 0 { 0 } else { t as u64 }
    }
}

/// The source byte shown in a tier status for display line `position`.
pub open spec fn spec_tier_status_byte(d: Seq<u8>, position: u64) -> u64 {
    let starts = tier_line_starts(d.len() as u64, d);
    if position < starts.len() {
        starts[position as int]
    } else {
        0
    }
}

/// A file's tier status for display line `position`, given its percentage.
pub open spec fn spec_tier_status(d: Seq<u8>, position: u64, pct: u32) -> Seq<char> {
    spec_json_status(
        spec_detect_tier(d.len() as u64, d),
        d.len() as u64,
        position,
        tier_display_lines(d.len() as u64, d).len() as u64,
        spec_tier_status_byte(d, position),
        tier_parse_error(d.len() as u64, d),
        pct,
    )
}

/// The rows of the tier model of the file's bytes `data` from display line `start`.
pub fn tier_viewport(data: &[u8], start: u64, max_rows: u16) -> (r: Vec<String>)
    ensures
        r.deep_view() == spec_tier_viewport(data@, start, max_rows),
{
    let c = build_cache(data.len() as u64, data);
    c.viewport_lines(start, max_rows)
}

/// A display line of the tier model of `data` moved by `delta`.
pub fn tier_advance(data: &[u8], current: u64, delta: i64) -> (r: u64)
    ensures
        r == spec_tier_advance(data@, current, delta),
        delta < 0 ==> r <= current,
        current + delta < 0 ==> r == 0,
        delta >= 0 ==> r <= current + delta,
{
    let c = build_cache(data.len() as u64, data);
    proof {
        lemma_tier_advance_direction(data@, current, delta);
        assert(c.display_lines.deep_view().len() == c.display_lines@.len());
    }
    c.advance_line(current, delta)
}

/// Moving a display line goes the way `delta` points and no further: up never
/// moves down and stops at the first line, and down never moves past
/// `current + delta` nor up past the last line; a move that stays within the
/// lines lands exactly `delta` away.
pub proof fn lemma_tier_advance_direction(d: Seq<u8>, current: u64, delta: i64)
    ensures
        ({
            let r = spec_tier_advance(d, current, delta);
            let n = tier_display_lines(d.len() as u64, d).len();
            &&& delta < 0 ==> r <= current
            &&& current + delta < 0 ==> r == 0
            &&& n <= u64::MAX && delta >= 0 ==> r <= current + delta
            &&& n <= u64::MAX && delta >= 0 && current <= n - 1 ==> r >= current
            &&& n <= u64::MAX && 0 <= current + delta < n ==> r == current + delta
        }),
{
}

/// The source byte shown in the tier status of `data` for display line `position`.
pub fn tier_status_byte(data: &[u8], position: u64) -> (r: u64)
    ensures
        r == spec_tier_status_byte(data@, position),
{
    let c = build_cache(data.len() as u64, data);
    c.byte_for_line_index(position)
}

/// The tier status of `data` for display line `position`, given its percentage.
pub fn tier_status(data: &[u8], position: u64, pct: u32) -> (s: String)
    requires
        position < u64::MAX || !numbers_lines(spec_detect_tier(data@.len() as u64, data@)),
    ensures
        s@ == spec_tier_status(data@, position, pct),
{
    let c = build_cache(data.len() as u64, data);
    let byte = c.byte_for_line_index(position);
    let count = c.line_count();
    match &c.parse_error {
        Some(e) => status_for_tier(c.tier, data.len() as u64, position, count, byte, Some(e.as_str()), pct),
        None => status_for_tier(c.tier, data.len() as u64, position, count, byte, None, pct),
    }
}

/// Display models kept per file path. The entries are a list of (path, model)
/// pairs looked up by their first match, rather than a hash map keyed by path
/// behind a lock: vstd specifies `Vec` fully, while a map keyed by a path, and a
/// lock, leave what a lookup returns unproved. A caller that shares the cache
/// across threads puts its own lock around it; updates go through `&mut`.
pub struct JsonTierCache {
    entries: Vec<(String, JsonFileCache)>,
}

impl JsonTierCache {
    /// The model kept for `path`, if any (the first entry with that path).
    pub closed spec fn spec_lookup(&self, path: Seq<char>) -> Option<JsonFileCache> {
        lookup_entry(self.entries@, path)
    }

    /// An empty cache.
    pub fn new() -> (c: Self)
        ensures
            forall|p: Seq<char>| (#[trigger] c.spec_lookup(p)) is None,
    {
        JsonTierCache { entries: Vec::new() }
    }

    /// The model for `path`: the kept one if there is one (the data is then not
    /// read), else one built from `data` and kept for next time.
    pub fn get_or_build(&mut self, path: &str, size: u64, data: &[u8]) -> (c: JsonFileCache)
        ensures
            old(self).spec_lookup(path@) matches Some(k) ==> c.same_as(k) && final(self).spec_lookup(
                path@,
            ) == Some(k),
            old(self).spec_lookup(path@) is None ==> (spec_is_built_cache(c, size, data@) && (
            final(self).spec_lookup(path@) matches Some(k) && c.same_as(k))),
            forall|p: Seq<char>| p != path@ ==> #[trigger] final(self).spec_lookup(p) == old(
                self,
            ).spec_lookup(p),
    {
        let mut i: usize = 0;
        proof {
            assert(self.entries@.skip(0) =~= self.entries@);
        }
        while i < self.entries.len()
            invariant
                i <= self.entries@.len(),
                lookup_entry(self.entries@, path@) == lookup_entry(
                    self.entries@.skip(i as int),
                    path@,
                ),
            decreases self.entries@.len() - i,
        {
            proof {
                let rest = self.entries@.skip(i as int);
                assert(rest[0] == self.entries@[i as int]);
                assert(rest.skip(1) =~= self.entries@.skip(i + 1));
            }
            if str_equal(self.entries[i].0.as_str(), path) {
                return self.entries[i].1.duplicate();
            }
            i = i + 1;
        }
        proof {
            assert(self.entries@.skip(i as int) =~= Seq::<(String, JsonFileCache)>::empty());
        }
        let built = build_cache(size, data);
        let kept = built.duplicate();
        let ghost before = self.entries@;
        let entry = (path.to_owned(), kept);
        let ghost e = entry;
        self.entries.push(entry);
        proof {
            lemma_lookup_push(before, path@, e);
            assert(self.entries@ == before.push(e));
        }
        built
    }

    /// Forgets every kept model.
    pub fn clear(&mut self)
        ensures
            forall|p: Seq<char>| (#[trigger] final(self).spec_lookup(p)) is None,
    {
        self.entries = Vec::new();
    }
}

/// The first entry for `path`.
pub open spec fn lookup_entry(es: Seq<(String, JsonFileCache)>, path: Seq<char>) -> Option<JsonFileCache>
    decreases es.len(),
{
    if es.len() == 0 {
        None
    } else if es[0].0@ == path {
        Some(es[0].1)
    } else {
        lookup_entry(es.skip(1), path)
    }
}

proof fn lemma_lookup_push(es: Seq<(String, JsonFileCache)>, path: Seq<char>, e: (String, JsonFileCache))
    requires
        lookup_entry(es, path) is None,
        e.0@ == path,
    ensures
        lookup_entry(es.push(e), path) == Some(e.1),
        forall|p: Seq<char>| p != path ==> #[trigger] lookup_entry(es.push(e), p) == lookup_entry(es, p),
    decreases es.len(),
{
    reveal_with_fuel(lookup_entry, 2);
    if es.len() > 0 {
        assert(es.push(e).skip(1) =~= es.skip(1).push(e));
        assert(es.push(e)[0] == es[0]);
        lemma_lookup_push(es.skip(1), path, e);
        assert forall|p: Seq<char>| p != path implies #[trigger] lookup_entry(es.push(e), p)
            == lookup_entry(es, p) by {
            assert(es.push(e).skip(1) =~= es.skip(1).push(e));
            assert(lookup_entry(es.skip(1).push(e), p) == lookup_entry(es.skip(1), p));
        }
    } else {
        assert(es.push(e).skip(1) =~= Seq::<(String, JsonFileCache)>::empty());
        assert forall|p: Seq<char>| p != path implies #[trigger] lookup_entry(es.push(e), p)
            == lookup_entry(es, p) by {
            assert(es.push(e)[0] == e);
        }
    }
}

/// The lines of `d` from `p` on, newline included, joined.
pub open spec fn chunks_joined(d: Seq<u8>, p: int) -> Seq<u8>
    decreases d.len() - p,
{
    if p < 0 || p >= d.len() {
        seq![]
    } else {
        proof {
            lemma_line_span_bounds(d, p);
        }
        chunk_at(d, p) + chunks_joined(d, p + spec_line_span(d, p))
    }
}

/// The raw display lines are the file's lines, newline included, each decoded:
/// line `i` is the decoding of the `i`-th line's bytes, and those bytes joined
/// give the whole file back, so no byte is lost or shown twice.
pub proof fn lemma_raw_lines_cover_the_file(d: Seq<u8>)
    ensures
        raw_display_lines(d).len() == chunk_starts(d, 0).len(),
        forall|i: int|
            0 <= i < raw_display_lines(d).len() ==> #[trigger] raw_display_lines(d)[i] == utf8_lossy(
                chunk_at(d, chunk_starts(d, 0)[i]),
            ),
        chunks_joined(d, 0) == d,
{
    lemma_chunks_join_to_rest(d, 0);
    assert(d.subrange(0, d.len() as int) =~= d);
}

proof fn lemma_chunks_join_to_rest(d: Seq<u8>, p: int)
    requires
        0 <= p <= d.len(),
    ensures
        chunks_joined(d, p) == d.subrange(p, d.len() as int),
    decreases d.len() - p,
{
    if p < d.len() {
        lemma_line_span_bounds(d, p);
        let q = p + spec_line_span(d, p);
        lemma_chunks_join_to_rest(d, q);
        assert(d.subrange(p, d.len() as int) =~= chunk_at(d, p) + d.subrange(q, d.len() as int));
    } else {
        assert(d.subrange(p, d.len() as int) =~= Seq::<u8>::empty());
    }
}

/// A line that starts at `p`: the first line, or one just after a newline.
pub open spec fn is_line_start(d: Seq<u8>, p: int) -> bool {
    0 <= p < d.len() && (p == 0 || d[p - 1] == 10u8)
}

/// The line at `p` without its newline and without surrounding whitespace.
pub open spec fn trimmed_line(d: Seq<u8>, p: int) -> Seq<u8> {
    spec_trim(d.subrange(p, line_content_end(d, p)))
}

/// NDJSON means every line: data with a non-blank line that does not hold a
/// JSON value is not NDJSON, and the tier chosen for it is not the NDJSON one.
pub proof fn lemma_bad_line_rules_out_ndjson(d: Seq<u8>, size: u64, p: int)
    requires
        is_line_start(d, p),
        trimmed_line(d, p).len() > 0,
        !json_valid(trimmed_line(d, p)),
    ensures
        !spec_is_ndjson(d),
        spec_detect_tier(size, d) != JsonTier::Ndjson,
{
    lemma_line_has_record(d, 0, p);
    let rs = records_from(d, 0);
    let k = choose|k: int| 0 <= k < rs.len() && rs[k] == (p, trimmed_line(d, p));
    assert(!json_valid(rs[k].1));
}

/// Every non-blank line at or after a line start `q` has its record among the
/// records from `q`.
proof fn lemma_line_has_record(d: Seq<u8>, q: int, p: int)
    requires
        0 <= q <= p,
        q == 0 || d[q - 1] == 10u8,
        is_line_start(d, p),
        trimmed_line(d, p).len() > 0,
    ensures
        exists|k: int| 0 <= k < records_from(d, q).len() && records_from(d, q)[k] == (p, trimmed_line(d, p)),
    decreases p - q,
{
    lemma_line_span_bounds(d, q);
    let t = spec_trim(d.subrange(q, line_content_end(d, q)));
    let next = q + spec_line_span(d, q);
    let rest = records_from(d, next);
    if q == p {
        assert(records_from(d, q) == seq![(p, t)] + rest);
        assert(records_from(d, q)[0] == (p, trimmed_line(d, p)));
    } else {
        crate::text_slice::lemma_first_newline_le_pub(d, q, p - 1);
        assert(next <= p);
        assert(d[next - 1] == 10u8);
        lemma_line_has_record(d, next, p);
        let k = choose|k: int| 0 <= k < rest.len() && rest[k] == (p, trimmed_line(d, p));
        if t.len() > 0 {
            assert(records_from(d, q) == seq![(q, t)] + rest);
            assert(records_from(d, q)[k + 1] == rest[k]);
        } else {
            assert(records_from(d, q) == rest);
        }
    }
}

} // verus!
