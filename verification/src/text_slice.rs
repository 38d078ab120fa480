//! Text rendering and scrolling over an in-memory byte slice (the host's file map).
//!
//! Positions are byte offsets into the file. A logical line is the bytes up to
//! and including a `\n` (or up to the end of the data); its content is decoded
//! lossily, without the newline and without one trailing `\r`. A logical line
//! is shown as one or more display rows of at most `width` characters.

use vstd::prelude::*;
use crate::strings::{
    char_utf8_width, chars_of, lemma_utf8_len_concat, lemma_utf8_len_take_succ, lossy_string,
    sat_add, string_from_chars,
    utf8_len, utf8_lossy, utf8_width, decimal, push_decimal,
};
use crate::file_info::ContentKind;
use vstd::utf8::{decode_utf8, encode_scalar, encode_utf8, valid_utf8};
use crate::viewer::ViewerPriority;

verus! {

/// Index of the last `\n` in `data[lo..hi)`, if any.
pub open spec fn last_newline(data: Seq<u8>, lo: int, hi: int) -> Option<int>
    decreases hi - lo,
{
    if hi <= lo {
        None
    } else if data[hi - 1] == 10u8 {
        Some(hi - 1)
    } else {
        last_newline(data, lo, hi - 1)
    }
}

/// Index of the first `\n` in `data[i..)`, if any.
pub open spec fn first_newline(data: Seq<u8>, i: int) -> Option<int>
    decreases data.len() - i,
{
    if i < 0 || i >= data.len() {
        None
    } else if data[i] == 10u8 {
        Some(i)
    } else {
        first_newline(data, i + 1)
    }
}

pub open spec fn min_int(a: int, b: int) -> int {
    if a < b {
        a
    } else {
        b
    }
}

/// The start of the logical line holding `offset`: just after the last newline
/// before `min(offset, len)`, or 0 when there is none.
pub open spec fn spec_snap_line_start(data: Seq<u8>, offset: int) -> int {
    match last_newline(data, 0, min_int(offset, data.len() as int)) {
        Some(i) => i + 1,
        None => 0,
    }
}

/// Bytes taken by the logical line at `start`, newline included (0 past the end).
pub open spec fn spec_line_span(data: Seq<u8>, start: int) -> int {
    if start < 0 || start >= data.len() {
        0
    } else {
        match first_newline(data, start) {
            Some(i) => i - start + 1,
            None => data.len() - start,
        }
    }
}

/// End (exclusive) of the content of the logical line at `start`.
pub open spec fn line_content_end(data: Seq<u8>, start: int) -> int {
    match first_newline(data, start) {
        Some(i) => i,
        None => data.len() as int,
    }
}

/// `s` without one trailing carriage return.
pub open spec fn strip_cr(s: Seq<char>) -> Seq<char> {
    if s.len() > 0 && s.last() == '\r' {
        s.drop_last()
    } else {
        s
    }
}

/// Content of the logical line at `start` (empty past the end).
pub open spec fn spec_line_text(data: Seq<u8>, start: int) -> Seq<char> {
    if start < 0 || start >= data.len() {
        Seq::empty()
    } else {
        strip_cr(utf8_lossy(data.subrange(start, line_content_end(data, start))))
    }
}

/// Start of the logical line before the position `from` (0 when there is none).
pub open spec fn spec_previous_line_start(data: Seq<u8>, from: int) -> int {
    if from == 0 || data.len() == 0 {
        0
    } else {
        match last_newline(data, 0, min_int(from - 1, data.len() as int)) {
            Some(i) => i + 1,
            None => 0,
        }
    }
}

/// Number of characters of `s` whose first byte lies before byte `n`.
pub open spec fn chars_starting_before(s: Seq<char>, n: int) -> nat
    decreases s.len(),
{
    if s.len() == 0 || n <= 0 {
        0
    } else {
        1 + chars_starting_before(s.drop_first(), n - utf8_width(s[0]))
    }
}

/// Display row (of `width` characters) holding byte `n` of a line.
pub open spec fn spec_visual_row(s: Seq<char>, n: int, width: nat) -> nat {
    if width == 0 {
        0
    } else {
        chars_starting_before(s, n) / width
    }
}

/// Byte offset, within a line, of the first character of display row `row`
/// (the whole line where it has fewer rows).
pub open spec fn spec_row_byte_offset(s: Seq<char>, row: nat, width: nat) -> int {
    if width == 0 || row == 0 {
        0
    } else {
        sat_add(utf8_len(s.take(min_int(s.len() as int, (row * width) as int))) as int, 0)
    }
}

/// The byte offset where the first `k` characters of `s` end starts character `k`:
/// exactly `k` characters start before it.
pub proof fn lemma_chars_before_prefix_end(s: Seq<char>, k: int)
    requires
        0 <= k <= s.len(),
    ensures
        chars_starting_before(s, utf8_len(s.take(k)) as int) == k,
    decreases s.len(),
{
    if k > 0 {
        let t = s.drop_first();
        lemma_chars_before_prefix_end(t, k - 1);
        assert(s.take(k) =~= seq![s[0]] + t.take(k - 1));
        lemma_utf8_len_concat(seq![s[0]], t.take(k - 1));
        assert(utf8_len(seq![s[0]]) == utf8_width(s[0])) by {
            assert(seq![s[0]].drop_last() =~= Seq::<char>::empty());
            reveal_with_fuel(utf8_len, 2);
        }
    }
}

/// A row's first character is `row * width` characters in: a prefix of that
/// many characters is no longer in bytes than the whole line.
proof fn lemma_utf8_len_prefix_le(s: Seq<char>, k: int)
    requires
        0 <= k <= s.len(),
    ensures
        utf8_len(s.take(k)) <= utf8_len(s),
{
    lemma_utf8_len_concat(s.take(k), s.skip(k));
    assert(s.take(k) + s.skip(k) =~= s);
}

/// Round trip of the two maps between display rows and bytes of a line: the
/// row holding the byte where row `row` starts is `row` again, for every row
/// that starts at a character of the line (and a line whose length in bytes
/// fits in a `u64`).
pub proof fn lemma_visual_row_of_row_start(s: Seq<char>, row: nat, width: nat)
    requires
        width > 0,
        row * width < s.len(),
        utf8_len(s) <= u64::MAX,
    ensures
        spec_visual_row(s, spec_row_byte_offset(s, row, width), width) == row,
{
    let k = (row * width) as int;
    if row > 0 {
        lemma_utf8_len_prefix_le(s, k);
        assert(min_int(s.len() as int, k) == k);
        assert(spec_row_byte_offset(s, row, width) == utf8_len(s.take(k)));
    }
    lemma_chars_before_prefix_end(s, k);
    assert(s.take(0) =~= Seq::<char>::empty());
    assert(k / (width as int) == row) by (nonlinear_arith)
        requires
            k == row * width,
            width > 0,
    ;
}

/// Display rows of `s`: consecutive runs of `width` characters, the last one
/// shorter; a line of at most `width` characters (or width 0) is one row.
pub open spec fn wrap_rows(s: Seq<char>, width: nat) -> Seq<Seq<char>>
    decreases s.len(),
{
    if width == 0 || s.len() <= width {
        seq![s]
    } else {
        seq![s.take(width as int)] + wrap_rows(s.skip(width as int), width)
    }
}

/// Snap byte offset to the start of the containing logical line (scan backward for `\n`).
pub fn snap_line_start(data: &[u8], offset: u64) -> (r: u64)
    ensures
        r == spec_snap_line_start(data@, offset as int),
        r <= min_int(offset as int, data@.len() as int),
        r == 0 || data@[r - 1] == 10u8,
        forall|k: int| r <= k < min_int(offset as int, data@.len() as int) ==> data@[k] != 10u8,
{
    proof {
        lemma_snap_is_line_start(data@, offset as int);
    }
    let len = data.len() as u64;
    let o = if offset < len {
        offset
    } else {
        len
    };
    let mut i = o;
    while i > 0
        invariant
            i <= o <= len,
            len == data@.len(),
            o == min_int(offset as int, len as int),
            data@.len() <= usize::MAX,
            last_newline(data@, 0, o as int) == last_newline(data@, 0, i as int),
        decreases i,
    {
        let j = (i - 1) as usize;
        assert(j == i - 1);
        if data[j] == 10u8 {
            assert(last_newline(data@, 0, i as int) == Some(i - 1));
            proof {
                lemma_snap_is_line_start(data@, offset as int);
            }
            return i;
        }
        i = i - 1;
    }
    0
}

/// The logical line at `line_start` with its trailing `\r` removed, and the number of
/// bytes it takes including its newline (0 when `line_start` is at or past the end).
pub fn read_logical_line(data: &[u8], line_start: u64) -> (r: (String, u64))
    ensures
        r.0@ == spec_line_text(data@, line_start as int),
        r.1 == spec_line_span(data@, line_start as int),
{
    let size = data.len() as u64;
    if line_start >= size {
        return (String::new(), 0);
    }
    let start = line_start as usize;
    let mut i = start;
    while i < data.len() && data[i] != 10u8
        invariant
            start <= i <= data@.len(),
            first_newline(data@, start as int) == first_newline(data@, i as int),
        decreases data@.len() - i,
    {
        i = i + 1;
    }
    let content_end = i;
    let len_incl: u64 = if i < data.len() {
        (i - start + 1) as u64
    } else {
        (data.len() - start) as u64
    };
    let raw = lossy_string(&data[start..content_end]);
    (strip_trailing_cr(raw), len_incl)
}

/// `s` without one trailing carriage return.
pub fn strip_trailing_cr(s: String) -> (r: String)
    ensures
        r@ == strip_cr(s@),
{
    let cs = chars_of(s.as_str());
    if cs.len() > 0 && cs[cs.len() - 1] == '\r' {
        string_from_chars(&cs, 0, cs.len() - 1)
    } else {
        s
    }
}

/// Byte offset of the line start immediately before `from`.
pub fn previous_line_start(data: &[u8], from: u64) -> (r: u64)
    ensures
        r == spec_previous_line_start(data@, from as int),
{
    if from == 0 || data.len() == 0 {
        return 0;
    }
    let len = data.len() as u64;
    let hi = if from - 1 < len {
        from - 1
    } else {
        len
    };
    let mut i = hi;
    while i > 0
        invariant
            i <= hi <= len,
            len == data@.len(),
            from != 0,
            len > 0,
            hi == min_int(from - 1, len as int),
            data@.len() <= usize::MAX,
            last_newline(data@, 0, hi as int) == last_newline(data@, 0, i as int),
        decreases i,
    {
        let j = (i - 1) as usize;
        assert(j == i - 1);
        if data[j] == 10u8 {
            assert(last_newline(data@, 0, i as int) == Some(i - 1));
            return i;
        }
        i = i - 1;
    }
    0
}

/// Display row (0-based) holding byte `byte_offset_in_line` of a line of text wrapped
/// to `width` columns (one column per character).
pub fn visual_row_index_for_byte(line_content: &str, byte_offset_in_line: u64, width: u16) -> (r:
    usize)
    ensures
        r == spec_visual_row(line_content@, byte_offset_in_line as int, width as nat),
{
    if width == 0 {
        return 0;
    }
    let cs = chars_of(line_content);
    let mut rem = byte_offset_in_line;
    let mut i: usize = 0;
    assert(cs@.skip(0) =~= cs@);
    while i < cs.len() && rem > 0
        invariant
            i <= cs@.len(),
            chars_starting_before(cs@, byte_offset_in_line as int) == i + chars_starting_before(
                cs@.skip(i as int),
                rem as int,
            ),
        decreases cs@.len() - i,
    {
        let w = char_utf8_width(cs[i]);
        proof {
            let rest = cs@.skip(i as int);
            assert(rest.drop_first() =~= cs@.skip(i + 1));
            assert(rest[0] == cs@[i as int]);
            assert(chars_starting_before(rest, rem as int) == 1 + chars_starting_before(
                rest.drop_first(),
                rem - w,
            ));
            if w >= rem {
                assert(chars_starting_before(rest.drop_first(), rem - w) == 0);
                assert(chars_starting_before(rest.drop_first(), 0) == 0);
            }
        }
        rem = if w >= rem {
            0
        } else {
            rem - w
        };
        i = i + 1;
    }
    i / (width as usize)
}

/// Byte offset, within a line, where display row `row_index` starts.
pub fn byte_offset_of_visual_row(line_content: &str, row_index: usize, width: u16) -> (r: u64)
    ensures
        r == spec_row_byte_offset(line_content@, row_index as nat, width as nat),
{
    if width == 0 || row_index == 0 {
        return 0;
    }
    let cs = chars_of(line_content);
    let w = width as usize;
    let mut row: usize = 0;
    let mut col: usize = 0;
    let mut bytes: u64 = 0;
    let mut i: usize = 0;
    while i < cs.len() && row < row_index
        invariant
            i <= cs@.len(),
            w == width,
            w > 0,
            col < w,
            row <= row_index,
            i == row * w + col,
            row == row_index ==> col == 0,
            bytes == sat_add(utf8_len(cs@.take(i as int)) as int, 0),
        decreases cs@.len() - i,
    {
        let cw = char_utf8_width(cs[i]);
        proof {
            lemma_utf8_len_take_succ(cs@, i as int);
        }
        bytes = if bytes > u64::MAX - cw {
            u64::MAX
        } else {
            bytes + cw
        };
        proof {
            assert((row + 1) * w == row * w + w) by (nonlinear_arith);
        }
        col = col + 1;
        if col >= w {
            row = row + 1;
            col = 0;
        }
        i = i + 1;
    }
    proof {
        let n = cs@.len() as int;
        let lim = (row_index * w) as int;
        if i < n {
            assert(row == row_index);
            assert(i == lim);
        } else {
            assert(row * w + col <= row_index * w) by (nonlinear_arith)
                requires
                    row < row_index || (row == row_index && col == 0),
                    col < w,
            ;
        }
        assert(min_int(n, lim) == i);
    }
    bytes
}

/// Split `s` into display rows of at most `width` characters (one column per character).
pub fn wrap_to_width(s: &str, width: u16) -> (rows: Vec<String>)
    ensures
        rows.deep_view() == wrap_rows(s@, width as nat),
{
    let cs = chars_of(s);
    let n = cs.len();
    let w = width as usize;
    if w == 0 || n <= w {
        let mut out: Vec<String> = Vec::new();
        out.push(s.to_owned());
        proof {
            assert(out.deep_view() =~= seq![s@]);
        }
        return out;
    }
    let mut out: Vec<String> = Vec::new();
    let mut k: usize = 0;
    proof {
        assert(cs@.skip(0) =~= cs@);
        assert(out.deep_view() + wrap_rows(cs@, w as nat) =~= wrap_rows(cs@, w as nat));
    }
    while n - k > w
        invariant
            k <= n,
            n == cs@.len(),
            w == width,
            w > 0,
            out.deep_view() + wrap_rows(cs@.skip(k as int), w as nat) == wrap_rows(cs@, w as nat),
        decreases n - k,
    {
        let row = string_from_chars(&cs, k, k + w);
        let ghost rest = cs@.skip(k as int);
        proof {
            assert(rest.take(w as int) =~= cs@.subrange(k as int, k + w));
            assert(rest.skip(w as int) =~= cs@.skip(k + w));
        }
        let ghost before = out.deep_view();
        out.push(row);
        proof {
            assert(out.deep_view() =~= before.push(cs@.subrange(k as int, k + w)));
            assert(out.deep_view() + wrap_rows(cs@.skip(k + w), w as nat) =~= before
                + wrap_rows(rest, w as nat));
        }
        k = k + w;
    }
    let last = string_from_chars(&cs, k, n);
    let ghost before = out.deep_view();
    out.push(last);
    proof {
        assert(cs@.skip(k as int) =~= cs@.subrange(k as int, n as int));
        assert(out.deep_view() =~= before + wrap_rows(cs@.skip(k as int), w as nat));
    }
    out
}

/// `a - b`, held at 0 (`u64::saturating_sub`).
pub open spec fn sat_sub(a: int, b: int) -> int {
    if a > b {
        a - b
    } else {
        0
    }
}

/// The first `n` elements of `s` (all of `s` when it is shorter).
pub open spec fn prefix<T>(s: Seq<T>, n: int) -> Seq<T> {
    s.take(min_int(n, s.len() as int))
}

/// Position after scrolling one display row down from `cur`.
pub open spec fn spec_advance_one(data: Seq<u8>, fs: int, cur: int, w: nat) -> int {
    if cur >= fs {
        fs
    } else {
        let ls = spec_snap_line_start(data, cur);
        let content = spec_line_text(data, ls);
        let next_line = min_int(ls + spec_line_span(data, ls), fs);
        let rows = wrap_rows(content, w);
        if content.len() == 0 || rows.len() <= 1 {
            next_line
        } else {
            let row = spec_visual_row(content, sat_sub(cur, ls), w);
            if row + 1 < rows.len() {
                sat_add(ls, spec_row_byte_offset(content, row + 1, w))
            } else {
                next_line
            }
        }
    }
}

/// Position after scrolling one display row up from `cur`.
pub open spec fn spec_retreat_one(data: Seq<u8>, cur: int, w: nat) -> int {
    if cur == 0 {
        0
    } else {
        let ls = spec_snap_line_start(data, cur);
        let content = spec_line_text(data, ls);
        let row = spec_visual_row(content, sat_sub(cur, ls), w);
        if row > 0 {
            sat_add(ls, spec_row_byte_offset(content, (row - 1) as nat, w))
        } else if ls == 0 {
            0
        } else {
            let pls = spec_previous_line_start(data, ls);
            let pc = spec_line_text(data, pls);
            sat_add(pls, spec_row_byte_offset(pc, (wrap_rows(pc, w).len() - 1) as nat, w))
        }
    }
}

/// Position after `steps` single-row moves in one direction, stopping early at
/// the start (moving up) or at `fs` (moving down).
pub open spec fn spec_scroll_steps(
    data: Seq<u8>,
    fs: int,
    pos: int,
    steps: nat,
    forward: bool,
    w: nat,
) -> int
    decreases steps,
{
    if steps == 0 {
        pos
    } else {
        let p = if forward {
            spec_advance_one(data, fs, pos, w)
        } else {
            spec_retreat_one(data, pos, w)
        };
        if (!forward && p == 0) || (forward && p >= fs) {
            p
        } else {
            spec_scroll_steps(data, fs, p, (steps - 1) as nat, forward, w)
        }
    }
}

pub open spec fn abs_int(x: int) -> nat {
    if x < 0 {
        (-x) as nat
    } else {
        x as nat
    }
}

/// Position after scrolling `delta` display rows (down when positive), within `[0, fs]`.
pub open spec fn spec_advance_lines(data: Seq<u8>, fs: int, cur: int, delta: int, w: nat) -> int {
    if delta == 0 {
        cur
    } else {
        min_int(spec_scroll_steps(data, fs, min_int(cur, fs), abs_int(delta), delta > 0, w), fs)
    }
}

/// Display rows of every logical line from `ls` on, stopping after the line that
/// reaches `fs`.
pub open spec fn rows_of_lines(data: Seq<u8>, fs: int, ls: int, w: nat) -> Seq<Seq<char>>
    decreases data.len() - ls,
{
    if ls < 0 || ls >= data.len() {
        seq![]
    } else {
        let next = ls + spec_line_span(data, ls);
        let rows = wrap_rows(spec_line_text(data, ls), w);
        if next >= fs {
            rows
        } else {
            proof {
                lemma_line_span_bounds(data, ls);
            }
            rows + rows_of_lines(data, fs, next, w)
        }
    }
}

/// Rows after the logical line at `ls` (nothing once `ls` reaches `fs`).
pub open spec fn rows_after(data: Seq<u8>, fs: int, ls: int, w: nat) -> Seq<Seq<char>> {
    if ls >= fs {
        seq![]
    } else {
        rows_of_lines(data, fs, ls, w)
    }
}

/// Every display row from position `start` on: the rows of its line from the row
/// holding `start`, then the rows of the following lines.
pub open spec fn spec_text_rows(data: Seq<u8>, fs: int, start: int, w: nat) -> Seq<Seq<char>> {
    let cur = min_int(start, fs);
    let ls = spec_snap_line_start(data, cur);
    if ls >= data.len() {
        seq![]
    } else {
        let content = spec_line_text(data, ls);
        let rows = wrap_rows(content, w);
        let skip = if cur > ls {
            spec_visual_row(content, cur - ls, w) as int
        } else {
            0
        };
        rows.skip(min_int(skip, rows.len() as int)) + rows_after(
            data,
            fs,
            ls + spec_line_span(data, ls),
            w,
        )
    }
}

/// What the text viewer shows from `start`: at most `max_rows` display rows, or a
/// placeholder for an empty file or a position past the last row.
pub open spec fn spec_render_rows(
    data: Seq<u8>,
    fs: int,
    start: int,
    max_rows: nat,
    w: nat,
) -> Seq<Seq<char>> {
    if fs == 0 || data.len() == 0 {
        seq!["(empty file)"@]
    } else {
        let shown = prefix(spec_text_rows(data, fs, start, w), max_rows as int);
        if shown.len() == 0 {
            prefix(seq!["(end of file)"@], max_rows as int)
        } else {
            shown
        }
    }
}

proof fn lemma_first_newline_bounds(data: Seq<u8>, i: int)
    ensures
        first_newline(data, i) matches Some(j) ==> 0 <= i <= j < data.len() && data[j] == 10u8,
    decreases data.len() - i,
{
    if 0 <= i < data.len() && data[i] != 10u8 {
        lemma_first_newline_bounds(data, i + 1);
    }
}

/// A logical line inside the data takes at least one byte and ends within the data.
pub proof fn lemma_line_span_bounds(data: Seq<u8>, ls: int)
    requires
        0 <= ls < data.len(),
    ensures
        1 <= spec_line_span(data, ls) <= data.len() - ls,
        ls <= line_content_end(data, ls) <= data.len(),
{
    lemma_first_newline_bounds(data, ls);
}

/// Wrapping always yields at least one row.
pub proof fn lemma_wrap_rows_nonempty(s: Seq<char>, w: nat)
    ensures
        wrap_rows(s, w).len() >= 1,
    decreases s.len(),
{
    if !(w == 0 || s.len() <= w) {
        lemma_wrap_rows_nonempty(s.skip(w as int), w);
    }
}

/// The line start found for a position lies neither after the position nor
/// after the end of the data.
pub proof fn lemma_snap_le(data: Seq<u8>, offset: int)
    requires
        offset >= 0,
    ensures
        0 <= spec_snap_line_start(data, offset) <= min_int(offset, data.len() as int),
{
    lemma_last_newline_bounds(data, 0, min_int(offset, data.len() as int));
}

/// What `snap_line_start` finds is the start of the logical line holding the
/// position: no later than the position (or the end of the data), just after a
/// newline unless it is 0, with no newline between it and the position.
pub proof fn lemma_snap_is_line_start(data: Seq<u8>, offset: int)
    requires
        offset >= 0,
    ensures
        0 <= spec_snap_line_start(data, offset) <= min_int(offset, data.len() as int),
        spec_snap_line_start(data, offset) == 0 || data[spec_snap_line_start(data, offset) - 1]
            == 10u8,
        forall|k: int|
            spec_snap_line_start(data, offset) <= k < min_int(offset, data.len() as int)
                ==> data[k] != 10u8,
{
    let m = min_int(offset, data.len() as int);
    lemma_last_newline_bounds(data, 0, m);
    lemma_last_newline_is_last(data, 0, m);
}

proof fn lemma_last_newline_bounds(data: Seq<u8>, lo: int, hi: int)
    ensures
        last_newline(data, lo, hi) matches Some(j) ==> lo <= j < hi && data[j] == 10u8,
    decreases hi - lo,
{
    if hi > lo && data[hi - 1] != 10u8 {
        lemma_last_newline_bounds(data, lo, hi - 1);
    }
}

/// One display row down from `current` (at most `file_size`).
pub fn advance_one_visual_row(data: &[u8], file_size: u64, current: u64, width: u16) -> (r: u64)
    ensures
        r == spec_advance_one(data@, file_size as int, current as int, width as nat),
{
    if current >= file_size {
        return file_size;
    }
    let line_start = snap_line_start(data, current);
    let (line_content, line_len_incl_nl) = read_logical_line(data, line_start);
    let dlen = data.len();
    proof {
        lemma_snap_le(data@, current as int);
        if line_start < data@.len() {
            lemma_line_span_bounds(data@, line_start as int);
        }
        assert(line_start + line_len_incl_nl <= dlen || line_len_incl_nl == 0);
    }
    let next_line = if line_start + line_len_incl_nl < file_size {
        line_start + line_len_incl_nl
    } else {
        file_size
    };
    if line_content.as_str().is_empty() {
        return next_line;
    }
    let wrapped = wrap_to_width(line_content.as_str(), width);
    if wrapped.len() <= 1 {
        return next_line;
    }
    let bytes_into_line = current.saturating_sub(line_start);
    let current_row = visual_row_index_for_byte(line_content.as_str(), bytes_into_line, width);
    if current_row < wrapped.len() - 1 {
        let bytes_to_skip = byte_offset_of_visual_row(
            line_content.as_str(),
            current_row + 1,
            width,
        );
        return if bytes_to_skip > u64::MAX - line_start {
            u64::MAX
        } else {
            line_start + bytes_to_skip
        };
    }
    next_line
}

/// One display row up from `current`.
pub fn retreat_one_visual_row(data: &[u8], current: u64, width: u16) -> (r: u64)
    ensures
        r == spec_retreat_one(data@, current as int, width as nat),
{
    if current == 0 {
        return 0;
    }
    let line_start = snap_line_start(data, current);
    let (line_content, _line_len) = read_logical_line(data, line_start);
    let bytes_into_line = current.saturating_sub(line_start);
    let current_row = visual_row_index_for_byte(line_content.as_str(), bytes_into_line, width);
    if current_row > 0 {
        let bytes_to_skip = byte_offset_of_visual_row(
            line_content.as_str(),
            current_row - 1,
            width,
        );
        return if bytes_to_skip > u64::MAX - line_start {
            u64::MAX
        } else {
            line_start + bytes_to_skip
        };
    }
    if line_start == 0 {
        return 0;
    }
    let prev_line_start = previous_line_start(data, line_start);
    let (prev_content, _prev_len) = read_logical_line(data, prev_line_start);
    let prev_wrapped = wrap_to_width(prev_content.as_str(), width);
    proof {
        lemma_wrap_rows_nonempty(prev_content@, width as nat);
    }
    let last_row_idx = prev_wrapped.len() - 1;
    let bytes_to_last_row = byte_offset_of_visual_row(prev_content.as_str(), last_row_idx, width);
    if bytes_to_last_row > u64::MAX - prev_line_start {
        u64::MAX
    } else {
        prev_line_start + bytes_to_last_row
    }
}

/// Scroll `delta` display rows from `current` (down when positive), within `[0, file_size]`.
pub fn advance_lines_bytes(data: &[u8], file_size: u64, current: u64, delta: i64, width: u16) -> (r:
    u64)
    ensures
        r == spec_advance_lines(data@, file_size as int, current as int, delta as int, width as nat),
{
    if delta == 0 {
        return current;
    }
    let mut pos = if current < file_size {
        current
    } else {
        file_size
    };
    let steps: u64 = if delta > 0 {
        delta as u64
    } else if delta == i64::MIN {
        0x8000_0000_0000_0000u64
    } else {
        (-delta) as u64
    };
    let forward = delta > 0;
    let ghost start = pos;
    let mut k: u64 = 0;
    while k < steps
        invariant_except_break
            k <= steps,
            steps == abs_int(delta as int),
            forward == (delta > 0),
            spec_scroll_steps(data@, file_size as int, start as int, steps as nat, forward, width as nat)
                == spec_scroll_steps(
                data@,
                file_size as int,
                pos as int,
                (steps - k) as nat,
                forward,
                width as nat,
            ),
        ensures
            spec_scroll_steps(data@, file_size as int, start as int, steps as nat, forward, width as nat)
                == pos,
        decreases steps - k,
    {
        if forward {
            pos = advance_one_visual_row(data, file_size, pos, width);
        } else {
            pos = retreat_one_visual_row(data, pos, width);
        }
        k = k + 1;
        if pos == 0 && !forward {
            break;
        }
        if pos >= file_size && forward {
            break;
        }
    }
    if pos < file_size {
        pos
    } else {
        file_size
    }
}

/// Taking a prefix of a concatenation whose first part is already within the limit.
proof fn lemma_prefix_concat<T>(a: Seq<T>, b: Seq<T>, n: int)
    requires
        a.len() <= n,
    ensures
        prefix(a + b, n) == a + prefix(b, n - a.len()),
{
    assert(prefix(a + b, n) =~= a + prefix(b, n - a.len()));
}

/// Appends `rows[skip..]` to `out` while `out` holds fewer than `max` rows.
fn push_rows(out: &mut Vec<String>, rows: &Vec<String>, skip: usize, max: usize)
    requires
        old(out)@.len() <= max,
    ensures
        final(out).deep_view() == old(out).deep_view() + prefix(
            rows.deep_view().skip(min_int(skip as int, rows@.len() as int)),
            max - old(out)@.len(),
        ),
        final(out)@.len() <= max,
{
    let ghost start = out.deep_view();
    let ghost tail = rows.deep_view().skip(min_int(skip as int, rows@.len() as int));
    let mut i = if skip < rows.len() {
        skip
    } else {
        rows.len()
    };
    let ghost i0 = i as int;
    while i < rows.len() && out.len() < max
        invariant
            i0 <= i <= rows@.len(),
            i0 == min_int(skip as int, rows@.len() as int),
            start.len() <= out@.len() <= max,
            out@.len() - start.len() == i - i0,
            tail == rows.deep_view().skip(i0),
            out.deep_view() == start + tail.take(i - i0),
        decreases rows@.len() - i,
    {
        let ghost before = out.deep_view();
        out.push(rows[i].clone());
        proof {
            assert(out.deep_view() =~= before.push(rows.deep_view()[i as int]));
            assert(tail.take(i + 1 - i0) =~= tail.take(i - i0).push(rows.deep_view()[i as int]));
        }
        i = i + 1;
    }
    proof {
        assert(out.deep_view() =~= start + prefix(tail, max - start.len()));
    }
}

/// Display rows of the text from `start_offset`: at most `max_rows` rows of at most
/// `width` characters (`(empty file)` or `(end of file)` when there is nothing to show).
pub fn render_display_rows(
    data: &[u8],
    file_size: u64,
    start_offset: u64,
    max_rows: u16,
    width: u16,
) -> (rows: Vec<String>)
    ensures
        rows.deep_view() == spec_render_rows(
            data@,
            file_size as int,
            start_offset as int,
            max_rows as nat,
            width as nat,
        ),
{
    if file_size == 0 || data.len() == 0 {
        let mut v: Vec<String> = Vec::new();
        v.push("(empty file)".to_owned());
        proof {
            assert(v.deep_view() =~= seq!["(empty file)"@]);
        }
        return v;
    }
    let max = max_rows as usize;
    let current = if start_offset < file_size {
        start_offset
    } else {
        file_size
    };
    let ls0 = snap_line_start(data, current);
    let ghost all = spec_text_rows(data@, file_size as int, start_offset as int, width as nat);
    let mut out: Vec<String> = Vec::new();
    let (content, span) = read_logical_line(data, ls0);
    if span > 0 {
        let dlen = data.len();
        proof {
            lemma_snap_le(data@, current as int);
            lemma_line_span_bounds(data@, ls0 as int);
        }
        let wrapped = wrap_to_width(content.as_str(), width);
        let skip = if current > ls0 {
            visual_row_index_for_byte(content.as_str(), current - ls0, width)
        } else {
            0
        };
        let ghost first = wrapped.deep_view().skip(min_int(skip as int, wrapped@.len() as int));
        push_rows(&mut out, &wrapped, skip, max);
        let mut ls = ls0 + span;
        proof {
            lemma_prefix_concat(seq![], first, max as int);
            assert(all == first + rows_after(data@, file_size as int, ls as int, width as nat));
            if out@.len() < max {
                assert(out.deep_view() =~= first);
            }
            assert(prefix(out.deep_view() + rows_after(data@, file_size as int, ls as int, width as nat), max as int)
                =~= prefix(all, max as int));
        }
        while ls < file_size && out.len() < max
            invariant
                out@.len() <= max,
                max == max_rows,
                ls <= dlen,
                dlen == data@.len(),
                prefix(out.deep_view() + rows_after(data@, file_size as int, ls as int, width as nat), max as int)
                    == prefix(all, max as int),
            ensures
                out@.len() <= max,
                prefix(out.deep_view() + rows_after(data@, file_size as int, ls as int, width as nat), max as int)
                    == prefix(all, max as int),
                out@.len() == max || rows_after(data@, file_size as int, ls as int, width as nat) == Seq::<Seq<char>>::empty(),
            decreases data@.len() - ls,
        {
            let (content, span) = read_logical_line(data, ls);
            if span == 0 {
                proof {
                    assert(rows_after(data@, file_size as int, ls as int, width as nat) =~= seq![]);
                }
                break;
            }
            proof {
                lemma_line_span_bounds(data@, ls as int);
            }
            let wrapped = wrap_to_width(content.as_str(), width);
            let ghost before = out.deep_view();
            let ghost rows = wrapped.deep_view();
            let ghost rest = rows_after(data@, file_size as int, (ls + span) as int, width as nat);
            proof {
                assert(rows_after(data@, file_size as int, ls as int, width as nat) == rows + rest);
                assert(rows.skip(0) =~= rows);
            }
            push_rows(&mut out, &wrapped, 0, max);
            proof {
                let k = min_int(max - before.len(), rows.len() as int);
                if k == rows.len() {
                    assert(prefix(rows, max - before.len()) =~= rows);
                    assert(out.deep_view() + rest =~= before + (rows + rest));
                } else {
                    assert(out.deep_view().len() == out@.len());
                    assert(out@.len() == max);
                    lemma_prefix_concat(before, rows + rest, max as int);
                    assert(prefix(rows + rest, max - before.len()) =~= prefix(rows, max - before.len()));
                    lemma_prefix_concat(out.deep_view(), rest, max as int);
                    assert(prefix(rest, 0) =~= seq![]);
                    lemma_prefix_concat(before, rows, max as int);
                }
            }
            ls = ls + span;
        }
        proof {
            let r = rows_after(data@, file_size as int, ls as int, width as nat);
            lemma_prefix_concat(out.deep_view(), r, max as int);
            if out@.len() == max {
                assert(prefix(r, 0) =~= seq![]);
            }
            assert(prefix(out.deep_view(), max as int) =~= out.deep_view());
            assert(out.deep_view() == prefix(all, max as int));
        }
    } else {
        proof {
            lemma_snap_le(data@, current as int);
            if ls0 < data@.len() {
                lemma_line_span_bounds(data@, ls0 as int);
            }
            assert(all =~= seq![]);
            assert(out.deep_view() =~= prefix(all, max as int));
        }
    }
    assert(out.deep_view() == prefix(all, max as int));
    assert(out.deep_view().len() == out@.len());
    if out.len() == 0 && max > 0 {
        out.push("(end of file)".to_owned());
        proof {
            assert(out.deep_view() =~= prefix(seq!["(end of file)"@], max as int));
        }
    } else {
        proof {
            if out@.len() == 0 {
                assert(prefix(seq!["(end of file)"@], 0) =~= seq![]);
                assert(out.deep_view() =~= seq![]);
            }
        }
    }
    out
}

/// How much the text viewer wants a file of the given kind: text and empty
/// files normally, binary only as a fallback.
pub open spec fn spec_text_priority(kind: ContentKind) -> ViewerPriority {
    match kind {
        ContentKind::Text => ViewerPriority::Normal,
        ContentKind::Empty => ViewerPriority::Normal,
        ContentKind::Binary => ViewerPriority::Low,
    }
}

/// See [`spec_text_priority`].
pub fn text_priority(kind: ContentKind) -> (p: ViewerPriority)
    ensures
        p == spec_text_priority(kind),
{
    match kind {
        ContentKind::Text => ViewerPriority::Normal,
        ContentKind::Empty => ViewerPriority::Normal,
        ContentKind::Binary => ViewerPriority::Low,
    }
}

/// `Text  {pos} / {file_size} B ({pct}%)`.
pub open spec fn spec_text_status(file_size: u64, pos: u64, pct: u32) -> Seq<char> {
    "Text  "@ + decimal(pos as nat) + " / "@ + decimal(file_size as nat) + " B ("@ + decimal(
        pct as nat,
    ) + "%)"@
}

/// The text viewer's status line, given the position as a percentage of the file.
pub fn text_status(file_size: u64, pos: u64, pct: u32) -> (s: String)
    ensures
        s@ == spec_text_status(file_size, pos, pct),
{
    let mut s = "Text  ".to_owned();
    push_decimal(&mut s, pos);
    s.append(" / ");
    push_decimal(&mut s, file_size);
    s.append(" B (");
    push_decimal(&mut s, pct as u64);
    s.append("%)");
    s
}

proof fn lemma_last_newline_is_last(data: Seq<u8>, lo: int, hi: int)
    requires
        0 <= lo <= hi <= data.len(),
    ensures
        last_newline(data, lo, hi) matches Some(j) ==> forall|k: int| j < k < hi ==> data[k] != 10u8,
        last_newline(data, lo, hi) is None ==> forall|k: int| lo <= k < hi ==> data[k] != 10u8,
    decreases hi - lo,
{
    if hi > lo && data[hi - 1] != 10u8 {
        lemma_last_newline_is_last(data, lo, hi - 1);
    }
}

/// No newline lies between the start that `snap_line_start` finds and the position.
proof fn lemma_snap_no_newline(data: Seq<u8>, cur: int)
    requires
        0 <= cur <= data.len(),
    ensures
        forall|k: int| spec_snap_line_start(data, cur) <= k < cur ==> data[k] != 10u8,
{
    lemma_last_newline_is_last(data, 0, cur);
    lemma_last_newline_bounds(data, 0, cur);
}

/// The line at `ls` reaches past `cur` when no newline lies between them.
proof fn lemma_span_passes(data: Seq<u8>, ls: int, cur: int)
    requires
        0 <= ls <= cur < data.len(),
        forall|k: int| ls <= k < cur ==> data[k] != 10u8,
    ensures
        ls + spec_line_span(data, ls) > cur,
    decreases cur - ls,
{
    lemma_first_newline_bounds(data, ls);
    if data[ls] != 10u8 && ls < cur {
        lemma_span_passes(data, ls + 1, cur);
        lemma_first_newline_bounds(data, ls + 1);
    }
}

proof fn lemma_utf8_len_take_first(s: Seq<char>, k: int)
    requires
        1 <= k <= s.len(),
    ensures
        utf8_len(s.take(k)) == utf8_width(s[0]) + utf8_len(s.drop_first().take(k - 1)),
    decreases k,
{
    lemma_utf8_len_take_succ(s, k - 1);
    if k == 1 {
        assert(s.take(0) =~= Seq::<char>::empty());
        assert(s.drop_first().take(0) =~= Seq::<char>::empty());
    } else {
        lemma_utf8_len_take_first(s, k - 1);
        lemma_utf8_len_take_succ(s.drop_first(), k - 2);
        assert(s.drop_first()[k - 2] == s[k - 1]);
    }
}

/// When fewer than `k` characters start before byte `n`, the first `k` characters
/// reach past `n`.
proof fn lemma_starting_before(s: Seq<char>, n: int, k: int)
    requires
        1 <= k <= s.len(),
        chars_starting_before(s, n) < k,
    ensures
        utf8_len(s.take(k)) > n,
    decreases s.len(),
{
    lemma_utf8_len_take_first(s, k);
    if n > 0 {
        if k > 1 {
            lemma_starting_before(s.drop_first(), n - utf8_width(s[0]), k - 1);
        } else {
            assert(chars_starting_before(s, n) >= 1);
        }
    }
}

/// A character counted as starting before byte `n` does start before it.
proof fn lemma_counted_starts_before(s: Seq<char>, n: int, j: int)
    requires
        0 <= j < chars_starting_before(s, n),
    ensures
        utf8_len(s.take(j)) < n,
    decreases s.len(),
{
    lemma_chars_before_at_most_len(s, n);
    if j == 0 {
        assert(s.take(0) =~= Seq::<char>::empty());
    } else {
        lemma_utf8_len_take_first(s, j);
        lemma_counted_starts_before(s.drop_first(), n - utf8_width(s[0]), j - 1);
    }
}

/// No more characters start before a byte than the text has.
proof fn lemma_chars_before_at_most_len(s: Seq<char>, n: int)
    ensures
        chars_starting_before(s, n) <= s.len(),
    decreases s.len(),
{
    if s.len() > 0 && n > 0 {
        lemma_chars_before_at_most_len(s.drop_first(), n - utf8_width(s[0]));
    }
}

/// The UTF-8 encoding of `chars` is `utf8_len(chars)` bytes long.
proof fn lemma_encode_utf8_len(chars: Seq<char>)
    ensures
        encode_utf8(chars).len() == utf8_len(chars),
    decreases chars.len(),
{
    if chars.len() > 0 {
        let c = chars[0];
        let t = chars.drop_first();
        lemma_encode_utf8_len(t);
        vstd::utf8::char_is_scalar(c);
        assert(encode_scalar(c as u32).len() == utf8_width(c));
        assert(chars =~= seq![c] + t);
        lemma_utf8_len_concat(seq![c], t);
        assert(utf8_len(seq![c]) == utf8_width(c)) by {
            assert(seq![c].drop_last() =~= Seq::<char>::empty());
            reveal_with_fuel(utf8_len, 2);
        }
    }
}

/// Well-formed UTF-8 decodes to characters that take exactly its bytes.
proof fn lemma_decoded_len(b: Seq<u8>)
    requires
        valid_utf8(b),
    ensures
        utf8_len(decode_utf8(b)) == b.len(),
{
    vstd::utf8::decode_utf8_encode_utf8(b);
    lemma_encode_utf8_len(decode_utf8(b));
}

/// Cutting a trailing carriage return does not make a text longer.
proof fn lemma_strip_cr_len(s: Seq<char>)
    ensures
        utf8_len(strip_cr(s)) <= utf8_len(s),
{
}

/// From `i`, the first newline is no later than any newline at or after `i`.
proof fn lemma_first_newline_le(data: Seq<u8>, i: int, j: int)
    requires
        0 <= i <= j < data.len(),
        data[j] == 10u8,
    ensures
        first_newline(data, i) matches Some(k) && k <= j,
    decreases j - i,
{
    if data[i] != 10u8 {
        lemma_first_newline_le(data, i + 1, j);
    }
}

/// Every logical line of `data` is well-formed UTF-8 and decodes to exactly its
/// characters (what `lossy_string` states of well-formed input).
pub open spec fn lines_decode_exactly(data: Seq<u8>) -> bool {
    forall|ls: int|
        0 <= ls < data.len() && (ls == 0 || data[ls - 1] == 10u8) ==> {
            let b = data.subrange(ls, line_content_end(data, ls));
            valid_utf8(b) && #[trigger] utf8_lossy(data.subrange(ls, line_content_end(data, ls)))
                == decode_utf8(b)
        }
}

/// Scrolling up one display row from a position after the start moves back,
/// and not before the start, when every line decodes to its own characters.
pub proof fn lemma_retreat_one_moves_back(data: Seq<u8>, cur: int, w: nat)
    requires
        0 < cur <= data.len(),
        data.len() <= u64::MAX,
        lines_decode_exactly(data),
    ensures
        0 <= spec_retreat_one(data, cur, w) < cur,
{
    lemma_snap_is_line_start(data, cur);
    let ls = spec_snap_line_start(data, cur);
    let content = spec_line_text(data, ls);
    let row = spec_visual_row(content, sat_sub(cur, ls), w);
    if row > 0 {
        let n = cur - ls;
        let c = chars_starting_before(content, n);
        let k: int = ((row - 1) * w) as int;
        assert(w > 0);
        assert(k < c) by (nonlinear_arith)
            requires
                row as int == (c as int) / (w as int),
                row > 0,
                w > 0,
                k == (row - 1) * w,
        ;
        lemma_chars_before_at_most_len(content, n);
        lemma_counted_starts_before(content, n, k);
        assert(min_int(content.len() as int, k) == k);
        if row - 1 > 0 {
            assert(spec_row_byte_offset(content, (row - 1) as nat, w) <= utf8_len(content.take(k)));
        }
    } else if ls > 0 {
        let pls = spec_previous_line_start(data, ls);
        lemma_last_newline_bounds(data, 0, min_int(ls - 1, data.len() as int));
        assert(0 <= pls <= ls - 1);
        lemma_first_newline_le(data, pls, ls - 1);
        lemma_first_newline_bounds(data, pls);
        let end = line_content_end(data, pls);
        assert(pls <= end);
        assert(end <= ls - 1);
        assert(pls == 0 || data[pls - 1] == 10u8);
        let b = data.subrange(pls, end);
        assert(utf8_lossy(data.subrange(pls, line_content_end(data, pls))) == decode_utf8(b));
        lemma_decoded_len(b);
        let pc = spec_line_text(data, pls);
        lemma_strip_cr_len(utf8_lossy(b));
        assert(b.len() == end - pls);
        assert(pc == strip_cr(utf8_lossy(b)));
        assert(utf8_len(pc) <= end - pls);
        let last = (wrap_rows(pc, w).len() - 1) as nat;
        if w > 0 && last > 0 {
            let k = min_int(pc.len() as int, (last * w) as int);
            lemma_utf8_len_prefix_le(pc, k);
        }
    }
}

/// Scrolling down one display row from a position inside the file moves forward.
pub proof fn lemma_advance_one_moves_forward(data: Seq<u8>, cur: int, w: nat)
    requires
        0 <= cur < data.len(),
        data.len() <= u64::MAX,
    ensures
        spec_advance_one(data, data.len() as int, cur, w) > cur,
{
    let fs = data.len() as int;
    lemma_snap_le(data, cur);
    lemma_snap_no_newline(data, cur);
    let ls = spec_snap_line_start(data, cur);
    lemma_span_passes(data, ls, cur);
    let content = spec_line_text(data, ls);
    let rows = wrap_rows(content, w);
    if !(content.len() == 0 || rows.len() <= 1) {
        let row = spec_visual_row(content, sat_sub(cur, ls), w);
        if row + 1 < rows.len() {
            lemma_wrap_rows_len(content, w);
            let k: int = ((row + 1) * w) as int;
            let c: int = chars_starting_before(content, cur - ls) as int;
            assert(c < k) by (nonlinear_arith)
                requires
                    w > 0,
                    row as int == c / (w as int),
                    k == (row + 1) * w,
                    c >= 0,
            ;
            assert(k < content.len()) by (nonlinear_arith)
                requires
                    (row + 1) < rows.len(),
                    rows.len() == (if content.len() <= w { 1 } else { (content.len() - 1) / (w as int)
                        + 1 }),
                    w > 0,
                    k == (row + 1) * w,
                    content.len() > w,
            ;
            lemma_starting_before(content, cur - ls, k);
        }
    }
}

/// Number of display rows: one for a line of at most `w` characters, else one per
/// started run of `w`.
proof fn lemma_wrap_rows_len(s: Seq<char>, w: nat)
    requires
        w > 0,
    ensures
        wrap_rows(s, w).len() == if s.len() <= w { 1 } else { (s.len() - 1) / (w as int) + 1 },
    decreases s.len(),
{
    if s.len() > w {
        lemma_wrap_rows_len(s.skip(w as int), w);
        let m = s.len() - w;
        if m <= w {
            assert((s.len() - 1) / (w as int) == 1) by (nonlinear_arith)
                requires
                    w < s.len() <= 2 * w,
                    w > 0,
            ;
        } else {
            assert((s.len() - 1) / (w as int) == (m - 1) / (w as int) + 1) by (nonlinear_arith)
                requires
                    m == s.len() - w,
                    w > 0,
                    m > w,
            ;
        }
    }
}

/// The display rows of a line put back together give the line; no row is wider
/// than `w`, and every row but the last is exactly `w` wide.
pub proof fn lemma_wrap_rows_cover(s: Seq<char>, w: nat)
    requires
        w > 0,
    ensures
        wrap_rows(s, w).fold_left(Seq::<char>::empty(), |acc: Seq<char>, r: Seq<char>| acc + r)
            == s,
        forall|i: int| 0 <= i < wrap_rows(s, w).len() ==> #[trigger] wrap_rows(s, w)[i].len() <= w,
        forall|i: int|
            0 <= i < wrap_rows(s, w).len() - 1 ==> #[trigger] wrap_rows(s, w)[i].len() == w,
    decreases s.len(),
{
    let rows = wrap_rows(s, w);
    if s.len() <= w {
        assert(rows =~= seq![s]);
        assert(seq![s].fold_left(Seq::<char>::empty(), |acc: Seq<char>, r: Seq<char>| acc + r)
            == Seq::<char>::empty() + s) by {
            reveal_with_fuel(Seq::fold_left, 2);
        }
        assert(Seq::<char>::empty() + s =~= s);
    } else {
        let rest = s.skip(w as int);
        lemma_wrap_rows_cover(rest, w);
        let tail = wrap_rows(rest, w);
        assert(rows == seq![s.take(w as int)] + tail);
        lemma_fold_concat_front(s.take(w as int), tail);
        assert(s.take(w as int) + rest =~= s);
        assert forall|i: int| 0 <= i < rows.len() implies #[trigger] rows[i].len() <= w by {
            if i > 0 {
                assert(rows[i] == tail[i - 1]);
            }
        }
        assert forall|i: int| 0 <= i < rows.len() - 1 implies #[trigger] rows[i].len() == w by {
            if i > 0 {
                assert(rows[i] == tail[i - 1]);
            }
        }
    }
}

proof fn lemma_fold_concat_front(first: Seq<char>, rest: Seq<Seq<char>>)
    ensures
        (seq![first] + rest).fold_left(Seq::<char>::empty(), |acc: Seq<char>, r: Seq<char>| acc + r)
            == first + rest.fold_left(Seq::<char>::empty(), |acc: Seq<char>, r: Seq<char>| acc + r),
    decreases rest.len(),
{
    let f = |acc: Seq<char>, r: Seq<char>| acc + r;
    let all = seq![first] + rest;
    if rest.len() == 0 {
        assert(all =~= seq![first]);
        reveal_with_fuel(Seq::fold_left, 2);
        assert(Seq::<char>::empty() + first =~= first);
        assert(first + Seq::<char>::empty() =~= first);
    } else {
        lemma_fold_concat_front(first, rest.drop_last());
        assert(all.drop_last() =~= seq![first] + rest.drop_last());
        assert(all.last() == rest.last());
        assert((first + rest.drop_last().fold_left(Seq::<char>::empty(), f)) + rest.last() =~= first
            + (rest.drop_last().fold_left(Seq::<char>::empty(), f) + rest.last()));
    }
}

proof fn lemma_scroll_steps_forward(data: Seq<u8>, pos: int, steps: nat, w: nat)
    requires
        0 <= pos < data.len(),
        data.len() <= u64::MAX,
        steps >= 1,
    ensures
        spec_scroll_steps(data, data.len() as int, pos, steps, true, w) > pos,
    decreases steps,
{
    lemma_advance_one_moves_forward(data, pos, w);
    let p = spec_advance_one(data, data.len() as int, pos, w);
    if p < data.len() {
        if steps > 1 {
            lemma_scroll_steps_forward(data, p, (steps - 1) as nat, w);
        } else {
            assert(spec_scroll_steps(data, data.len() as int, p, 0, true, w) == p);
        }
    }
}

/// Scrolling down by any number of rows from a position inside the file moves
/// forward, and never past the end of the file.
pub proof fn lemma_scroll_down_moves_forward(data: Seq<u8>, cur: int, delta: int, w: nat)
    requires
        0 <= cur < data.len(),
        data.len() <= u64::MAX,
        delta > 0,
    ensures
        cur < spec_advance_lines(data, data.len() as int, cur, delta, w) <= data.len(),
{
    lemma_scroll_steps_forward(data, cur, abs_int(delta), w);
}

/// One display row up or down from a position gives a position no lower than
/// the start.
proof fn lemma_scroll_one_nonneg(data: Seq<u8>, pos: int, forward: bool, w: nat)
    requires
        0 <= pos,
    ensures
        forward ==> spec_advance_one(data, data.len() as int, pos, w) >= 0,
        !forward ==> spec_retreat_one(data, pos, w) >= 0,
{
    lemma_snap_le(data, pos);
    let ls = spec_snap_line_start(data, pos);
    lemma_line_span_nonneg(data, ls);
    if ls > 0 {
        lemma_last_newline_bounds(data, 0, min_int(ls - 1, data.len() as int));
    }
}

proof fn lemma_line_span_nonneg(data: Seq<u8>, ls: int)
    ensures
        spec_line_span(data, ls) >= 0,
{
    lemma_first_newline_bounds(data, ls);
}

proof fn lemma_scroll_steps_nonneg(data: Seq<u8>, pos: int, steps: nat, forward: bool, w: nat)
    requires
        0 <= pos,
    ensures
        spec_scroll_steps(data, data.len() as int, pos, steps, forward, w) >= 0,
    decreases steps,
{
    if steps > 0 {
        lemma_scroll_one_nonneg(data, pos, forward, w);
        let p = if forward {
            spec_advance_one(data, data.len() as int, pos, w)
        } else {
            spec_retreat_one(data, pos, w)
        };
        if !((!forward && p == 0) || (forward && p >= data.len())) {
            lemma_scroll_steps_nonneg(data, p, (steps - 1) as nat, forward, w);
        }
    }
}

/// Scrolling by any number of rows from a position in the file stays within
/// the file: at or after its start, at or before its end.
pub proof fn lemma_scroll_stays_in_file(data: Seq<u8>, cur: int, delta: int, w: nat)
    requires
        0 <= cur <= data.len(),
    ensures
        0 <= spec_advance_lines(data, data.len() as int, cur, delta, w) <= data.len(),
{
    if delta != 0 {
        lemma_scroll_steps_nonneg(data, cur, abs_int(delta), delta > 0, w);
    }
}

proof fn lemma_scroll_steps_backward(data: Seq<u8>, pos: int, steps: nat, w: nat)
    requires
        0 < pos <= data.len(),
        data.len() <= u64::MAX,
        lines_decode_exactly(data),
        steps >= 1,
    ensures
        0 <= spec_scroll_steps(data, data.len() as int, pos, steps, false, w) < pos,
    decreases steps,
{
    lemma_retreat_one_moves_back(data, pos, w);
    let p = spec_retreat_one(data, pos, w);
    if p != 0 {
        if steps > 1 {
            lemma_scroll_steps_backward(data, p, (steps - 1) as nat, w);
        } else {
            assert(spec_scroll_steps(data, data.len() as int, p, 0, false, w) == p);
        }
    }
}

/// Scrolling up by any number of rows from a position after the start moves
/// back, and not before the start, when every line of the file decodes to its
/// own characters.
pub proof fn lemma_scroll_up_moves_back(data: Seq<u8>, cur: int, delta: int, w: nat)
    requires
        0 < cur <= data.len(),
        data.len() <= u64::MAX,
        lines_decode_exactly(data),
        delta < 0,
    ensures
        0 <= spec_advance_lines(data, data.len() as int, cur, delta, w) < cur,
{
    lemma_scroll_steps_backward(data, cur, abs_int(delta), w);
}

/// No newline lies between `i` and the first newline found from `i`.
proof fn lemma_first_newline_is_first(data: Seq<u8>, i: int)
    requires
        0 <= i <= data.len(),
    ensures
        forall|k: int| i <= k < line_content_end(data, i) ==> data[k] != 10u8,
    decreases data.len() - i,
{
    if i < data.len() && data[i] != 10u8 {
        lemma_first_newline_is_first(data, i + 1);
    }
}

/// With no newline in `[mid, hi)`, the last newline before `hi` is the last
/// one before `mid`.
proof fn lemma_last_newline_skip(data: Seq<u8>, lo: int, mid: int, hi: int)
    requires
        lo <= mid <= hi,
        forall|k: int| mid <= k < hi ==> data[k] != 10u8,
    ensures
        last_newline(data, lo, hi) == last_newline(data, lo, mid),
    decreases hi - mid,
{
    if hi > mid {
        lemma_last_newline_skip(data, lo, mid, hi - 1);
    }
}

/// A position inside a logical line, up to its newline, snaps to the line's start.
proof fn lemma_snap_within_line(data: Seq<u8>, ls: int, x: int)
    requires
        0 <= ls <= x <= data.len(),
        ls == 0 || data[ls - 1] == 10u8,
        forall|k: int| ls <= k < x ==> data[k] != 10u8,
    ensures
        spec_snap_line_start(data, x) == ls,
{
    lemma_last_newline_skip(data, 0, ls, x);
    if ls > 0 {
        assert(last_newline(data, 0, ls) == Some(ls - 1));
    }
}

/// The text of a logical line that decodes to its own characters takes no more
/// bytes than the line's content.
proof fn lemma_line_text_fits(data: Seq<u8>, ls: int)
    requires
        0 <= ls < data.len(),
        ls == 0 || data[ls - 1] == 10u8,
        lines_decode_exactly(data),
    ensures
        ls <= line_content_end(data, ls) <= data.len(),
        utf8_len(spec_line_text(data, ls)) <= line_content_end(data, ls) - ls,
{
    lemma_first_newline_bounds(data, ls);
    let end = line_content_end(data, ls);
    let b = data.subrange(ls, end);
    assert(utf8_lossy(data.subrange(ls, line_content_end(data, ls))) == decode_utf8(b));
    lemma_decoded_len(b);
    lemma_strip_cr_len(utf8_lossy(b));
}

/// A display row that is not the first starts `row * w` characters into its line,
/// inside the line.
proof fn lemma_row_inside_line(s: Seq<char>, row: nat, w: nat)
    requires
        w > 0,
        0 < row < wrap_rows(s, w).len(),
    ensures
        row * w < s.len(),
{
    lemma_wrap_rows_len(s, w);
    assert(row * w < s.len()) by (nonlinear_arith)
        requires
            w > 0,
            row > 0,
            row < (if s.len() <= w { 1 } else { (s.len() - 1) / (w as int) + 1 }),
    ;
}

/// Scrolling one display row down and then one up comes back to the row's start,
/// for every display row of every logical line of a file that ends with a
/// newline and whose lines decode to their own characters.
pub proof fn lemma_retreat_undoes_advance(data: Seq<u8>, ls: int, r: nat, w: nat)
    requires
        data.len() <= u64::MAX,
        w > 0,
        data.len() > 0,
        data[data.len() - 1] == 10u8,
        lines_decode_exactly(data),
        0 <= ls < data.len(),
        ls == 0 || data[ls - 1] == 10u8,
        r < wrap_rows(spec_line_text(data, ls), w).len(),
    ensures
        ({
            let p = ls + spec_row_byte_offset(spec_line_text(data, ls), r, w);
            spec_retreat_one(data, spec_advance_one(data, data.len() as int, p, w), w) == p
        }),
{
    let fs = data.len() as int;
    let content = spec_line_text(data, ls);
    let rows = wrap_rows(content, w);
    lemma_line_text_fits(data, ls);
    lemma_wrap_rows_nonempty(content, w);
    lemma_first_newline_le(data, ls, fs - 1);
    lemma_first_newline_bounds(data, ls);
    lemma_first_newline_is_first(data, ls);
    let end = line_content_end(data, ls);
    assert(end < fs);
    let ul = utf8_len(content);
    let off = spec_row_byte_offset(content, r, w);
    if r > 0 {
        lemma_row_inside_line(content, r, w);
        lemma_utf8_len_prefix_le(content, (r * w) as int);
        assert(min_int(content.len() as int, (r * w) as int) == (r * w) as int);
        lemma_visual_row_of_row_start(content, r, w);
    } else {
        assert(off == 0);
    }
    let p = ls + off;
    assert(ls <= p <= ls + ul);
    lemma_snap_within_line(data, ls, p);
    assert(spec_visual_row(content, sat_sub(p, ls), w) == r);
    assert(spec_line_span(data, ls) == end - ls + 1);
    if content.len() == 0 || rows.len() <= 1 || r + 1 >= rows.len() {
        assert(r == rows.len() - 1);
        let nl = end + 1;
        assert(spec_advance_one(data, fs, p, w) == nl);
        lemma_snap_within_line(data, nl, nl);
        let c2 = spec_line_text(data, nl);
        assert(spec_visual_row(c2, sat_sub(nl, nl), w) == 0);
        lemma_last_newline_skip(data, 0, ls, end);
        if ls > 0 {
            assert(last_newline(data, 0, ls) == Some(ls - 1));
        }
        assert(spec_previous_line_start(data, nl) == ls);
    } else {
        lemma_row_inside_line(content, r + 1, w);
        lemma_utf8_len_prefix_le(content, ((r + 1) * w) as int);
        assert(min_int(content.len() as int, ((r + 1) * w) as int) == ((r + 1) * w) as int);
        lemma_visual_row_of_row_start(content, r + 1, w);
        let q = ls + spec_row_byte_offset(content, r + 1, w);
        assert(spec_advance_one(data, fs, p, w) == q);
        lemma_snap_within_line(data, ls, q);
        assert(spec_visual_row(content, sat_sub(q, ls), w) == r + 1);
        if q == 0 {
            assert(chars_starting_before(content, 0) == 0);
        }
    }
}

/// Scrolling one display row down from a position in the file stays within the
/// file when every line decodes to its own characters.
pub proof fn lemma_advance_one_stays_in_file(data: Seq<u8>, cur: int, w: nat)
    requires
        0 <= cur <= data.len(),
        data.len() <= u64::MAX,
        lines_decode_exactly(data),
    ensures
        cur <= spec_advance_one(data, data.len() as int, cur, w) <= data.len(),
{
    let fs = data.len() as int;
    if cur < fs {
        lemma_advance_one_moves_forward(data, cur, w);
        lemma_snap_is_line_start(data, cur);
        let ls = spec_snap_line_start(data, cur);
        lemma_line_text_fits(data, ls);
        let content = spec_line_text(data, ls);
        let rows = wrap_rows(content, w);
        if !(content.len() == 0 || rows.len() <= 1) {
            let row = spec_visual_row(content, sat_sub(cur, ls), w);
            if row + 1 < rows.len() {
                let k = min_int(content.len() as int, ((row + 1) * w) as int);
                lemma_utf8_len_prefix_le(content, k);
            }
        }
    }
}

/// Every display row of the lines from `ls` on is at most `w` characters wide.
proof fn lemma_rows_of_lines_fit(data: Seq<u8>, fs: int, ls: int, w: nat)
    requires
        w > 0,
    ensures
        forall|i: int|
            0 <= i < rows_of_lines(data, fs, ls, w).len() ==> #[trigger] rows_of_lines(
                data,
                fs,
                ls,
                w,
            )[i].len() <= w,
    decreases data.len() - ls,
{
    if 0 <= ls < data.len() {
        lemma_line_span_bounds(data, ls);
        let next = ls + spec_line_span(data, ls);
        let rows = wrap_rows(spec_line_text(data, ls), w);
        lemma_wrap_rows_cover(spec_line_text(data, ls), w);
        if next < fs {
            lemma_rows_of_lines_fit(data, fs, next, w);
            let rest = rows_of_lines(data, fs, next, w);
            assert forall|i: int| 0 <= i < (rows + rest).len() implies #[trigger] (rows + rest)[i].len()
                <= w by {
                if i >= rows.len() {
                    assert((rows + rest)[i] == rest[i - rows.len()]);
                }
            }
        }
    }
}

/// Row width: for a width above 0, every display row the text viewer shows from
/// any position is at most `width` characters wide, unless what it shows is the
/// placeholder for an empty file or for a position past the last row.
pub proof fn lemma_rendered_rows_fit(data: Seq<u8>, fs: int, start: int, max_rows: nat, w: nat)
    requires
        w > 0,
    ensures
        ({
            let shown = spec_render_rows(data, fs, start, max_rows, w);
            ||| shown == seq!["(empty file)"@]
            ||| shown == prefix(seq!["(end of file)"@], max_rows as int)
            ||| forall|i: int| 0 <= i < shown.len() ==> #[trigger] shown[i].len() <= w
        }),
{
    let all = spec_text_rows(data, fs, start, w);
    let cur = min_int(start, fs);
    let ls = spec_snap_line_start(data, cur);
    if ls < data.len() {
        let content = spec_line_text(data, ls);
        let rows = wrap_rows(content, w);
        lemma_wrap_rows_cover(content, w);
        let next = ls + spec_line_span(data, ls);
        lemma_rows_of_lines_fit(data, fs, next, w);
        let skip = if cur > ls {
            spec_visual_row(content, cur - ls, w) as int
        } else {
            0
        };
        let head = rows.skip(min_int(skip, rows.len() as int));
        let tail = rows_after(data, fs, next, w);
        assert forall|i: int| 0 <= i < all.len() implies #[trigger] all[i].len() <= w by {
            assert(all == head + tail);
            if i < head.len() {
                assert(all[i] == rows[i + min_int(skip, rows.len() as int)]);
            } else {
                assert(all[i] == tail[i - head.len()]);
            }
        }
    }
    let shown = prefix(all, max_rows as int);
    assert forall|i: int| 0 <= i < shown.len() implies #[trigger] shown[i].len() <= w by {
        assert(shown[i] == all[i]);
    }
}

/// From `i`, the first newline is no later than any newline at or after `i`, and
/// the line at `i` ends just after it.
pub proof fn lemma_first_newline_le_pub(data: Seq<u8>, i: int, j: int)
    requires
        0 <= i <= j < data.len(),
        data[j] == 10u8,
    ensures
        first_newline(data, i) matches Some(k) && i <= k <= j && data[k] == 10u8,
        i + spec_line_span(data, i) <= j + 1,
{
    lemma_first_newline_le(data, i, j);
    lemma_first_newline_bounds(data, i);
}

/// Rendering starts at the display row that holds the start position: for a
/// position inside a non-empty file, the first row shown is the row of its
/// logical line that holds it (so rendering from the start of row `r + 1` of a
/// line never shows row `r`), and the next rows follow that row in its line.
pub proof fn lemma_render_starts_at_position_row(data: Seq<u8>, p: int, max_rows: nat, w: nat)
    requires
        0 <= p < data.len(),
        max_rows > 0,
    ensures
        ({
            let ls = spec_snap_line_start(data, p);
            let content = spec_line_text(data, ls);
            let rows = wrap_rows(content, w);
            let r = spec_visual_row(content, p - ls, w);
            let shown = spec_render_rows(data, data.len() as int, p, max_rows, w);
            r < rows.len() ==> shown.len() >= 1 && shown[0] == rows[r as int] && forall|j: int|
                0 <= j < shown.len() && r + j < rows.len() ==> #[trigger] shown[j] == rows[r + j]
        }),
{
    lemma_snap_is_line_start(data, p);
    let fs = data.len() as int;
    let ls = spec_snap_line_start(data, p);
    let content = spec_line_text(data, ls);
    let rows = wrap_rows(content, w);
    let r = spec_visual_row(content, p - ls, w);
    if r < rows.len() {
        if p == ls {
            assert(chars_starting_before(content, 0) == 0);
            assert(r == 0);
        }
        let all = spec_text_rows(data, fs, p, w);
        let head = rows.skip(r as int);
        assert(min_int(r as int, rows.len() as int) == r);
        let tail = rows_after(data, fs, ls + spec_line_span(data, ls), w);
        assert(all == head + tail);
        let shown = spec_render_rows(data, fs, p, max_rows, w);
        assert(shown == prefix(all, max_rows as int));
        assert forall|j: int| 0 <= j < shown.len() && r + j < rows.len() implies #[trigger] shown[j]
            == rows[r + j] by {
            assert(shown[j] == all[j]);
            assert(all[j] == head[j]);
        }
        assert(shown[0] == all[0]);
    }
}

/// A longer prefix of a text takes more bytes.
proof fn lemma_utf8_len_take_strict(s: Seq<char>, j: int, k: int)
    requires
        0 <= j < k <= s.len(),
    ensures
        utf8_len(s.take(j)) < utf8_len(s.take(k)),
    decreases k - j,
{
    lemma_utf8_len_take_succ(s, k - 1);
    if j < k - 1 {
        lemma_utf8_len_take_strict(s, j, k - 1);
    }
}

/// The start of display row `row` of a line, for a row that starts inside the
/// line, is the start of that row when mapped back (a row start).
proof fn lemma_row_start_round_trip(content: Seq<char>, row: nat, w: nat)
    requires
        w > 0,
        row < wrap_rows(content, w).len(),
        utf8_len(content) <= u64::MAX,
    ensures
        spec_visual_row(content, spec_row_byte_offset(content, row, w), w) == row,
        0 <= spec_row_byte_offset(content, row, w) <= utf8_len(content),
{
    if row > 0 {
        lemma_row_inside_line(content, row, w);
        lemma_visual_row_of_row_start(content, row, w);
        lemma_utf8_len_prefix_le(content, (row * w) as int);
        assert(min_int(content.len() as int, (row * w) as int) == (row * w) as int);
    } else {
        assert(chars_starting_before(content, 0) == 0);
    }
}

/// Scrolling up one display row from any position after the start lands on the
/// start of the display row before the one holding the position: within the
/// same line, the row one above (mapped back, the result is the start of row
/// `row - 1`); from the first row of a line, the last row of the previous line.
/// It is never the start of the position's own row, nor any later byte. This
/// holds when every line decodes to its own characters and the width is above 0.
pub proof fn lemma_retreat_goes_to_the_row_above(data: Seq<u8>, p: int, w: nat)
    requires
        0 < p <= data.len(),
        data.len() <= u64::MAX,
        w > 0,
        lines_decode_exactly(data),
    ensures
        ({
            let ls = spec_snap_line_start(data, p);
            let content = spec_line_text(data, ls);
            let row = spec_visual_row(content, p - ls, w);
            let res = spec_retreat_one(data, p, w);
            &&& (row > 0 || ls > 0) ==> res < ls + spec_row_byte_offset(content, row, w)
            &&& row > 0 ==> spec_snap_line_start(data, res) == ls && spec_visual_row(
                content,
                res - ls,
                w,
            ) == row - 1 && res - ls == spec_row_byte_offset(content, (row - 1) as nat, w)
            &&& row == 0 && ls > 0 ==> ({
                let pls = spec_snap_line_start(data, ls - 1);
                let pc = spec_line_text(data, pls);
                &&& spec_snap_line_start(data, res) == pls
                &&& spec_visual_row(pc, res - pls, w) == wrap_rows(pc, w).len() - 1
                &&& res - pls == spec_row_byte_offset(pc, (wrap_rows(pc, w).len() - 1) as nat, w)
            })
        }),
{
    lemma_snap_is_line_start(data, p);
    let ls = spec_snap_line_start(data, p);
    let content = spec_line_text(data, ls);
    let row = spec_visual_row(content, p - ls, w);
    let res = spec_retreat_one(data, p, w);
    let n = p - ls;
    let c = chars_starting_before(content, n);
    lemma_chars_before_at_most_len(content, n);
    if ls < data.len() {
        lemma_line_text_fits(data, ls);
    } else {
        assert(content == Seq::<char>::empty());
    }
    assert(utf8_len(content) <= u64::MAX);
    if row > 0 {
        let k: int = ((row - 1) * w) as int;
        assert(k < c) by (nonlinear_arith)
            requires
                row as int == (c as int) / (w as int),
                row > 0,
                w > 0,
                k == (row - 1) * w,
        ;
        assert(row * w <= c) by (nonlinear_arith)
            requires
                row as int == (c as int) / (w as int),
                w > 0,
        ;
        lemma_counted_starts_before(content, n, k);
        lemma_wrap_rows_len(content, w);
        assert((row - 1) < wrap_rows(content, w).len()) by (nonlinear_arith)
            requires
                k == (row - 1) * w,
                k < content.len(),
                w > 0,
                wrap_rows(content, w).len() == (if content.len() <= w { 1 } else { (content.len() - 1)
                    / (w as int) + 1 }),
        ;
        lemma_row_start_round_trip(content, (row - 1) as nat, w);
        let off = spec_row_byte_offset(content, (row - 1) as nat, w);
        assert(res == ls + off);
        // The row's own start lies past the start of the row above.
        let kk = min_int(content.len() as int, (row * w) as int);
        lemma_utf8_len_prefix_le(content, kk);
        lemma_utf8_len_prefix_le(content, k);
        if row - 1 > 0 {
            assert(min_int(content.len() as int, k) == k);
        } else {
            assert(k == 0) by (nonlinear_arith)
                requires
                    k == (row - 1) * w,
                    row == 1,
            ;
            assert(content.take(0) =~= Seq::<char>::empty());
            assert(utf8_len(content.take(0)) == 0);
        }
        assert(k + w == row * w) by (nonlinear_arith)
            requires
                k == (row - 1) * w,
        ;
        assert(k < kk);
        lemma_utf8_len_take_strict(content, k, kk);
        assert(off == utf8_len(content.take(k)));
        assert(spec_row_byte_offset(content, row, w) == utf8_len(content.take(kk)));
        // The result stays in the line, which has no newline before `p`.
        assert(res <= p);
        lemma_snap_within_line(data, ls, res);
    } else if ls > 0 {
        lemma_retreat_one_moves_back(data, p, w);
        let pls = spec_previous_line_start(data, ls);
        lemma_last_newline_bounds(data, 0, min_int(ls - 1, data.len() as int));
        assert(spec_snap_line_start(data, ls - 1) == pls);
        assert(0 <= pls <= ls - 1);
        assert(pls == 0 || data[pls - 1] == 10u8);
        lemma_line_text_fits(data, pls);
        lemma_first_newline_is_first(data, pls);
        lemma_first_newline_le(data, pls, ls - 1);
        let pc = spec_line_text(data, pls);
        let last = (wrap_rows(pc, w).len() - 1) as nat;
        lemma_wrap_rows_nonempty(pc, w);
        lemma_row_start_round_trip(pc, last, w);
        let off = spec_row_byte_offset(pc, last, w);
        assert(res == pls + off);
        assert(res <= line_content_end(data, pls));
        lemma_snap_within_line(data, pls, res);
        assert(spec_row_byte_offset(content, 0, w) == 0);
    }
}

} // verus!
