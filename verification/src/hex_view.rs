//! The hex viewer: which files it wants, its rows, its scrolling and its status line.

use vstd::prelude::*;
use crate::dump::{ascii_column, push_ascii_column};
use crate::file_info::ContentKind;
use crate::probe::slice_range;
use crate::strings::{decimal, hex_padded, push_char, push_decimal, push_hex_padded};
use crate::text_slice::min_int;
use crate::viewer::ViewerPriority;

verus! {

/// How much the hex viewer wants a file of the given kind: binary and empty
/// files normally, text only as a fallback.
pub open spec fn spec_hex_priority(kind: ContentKind) -> ViewerPriority {
    match kind {
        ContentKind::Binary => ViewerPriority::Normal,
        ContentKind::Empty => ViewerPriority::Normal,
        ContentKind::Text => ViewerPriority::Low,
    }
}

/// See [`spec_hex_priority`].
pub fn hex_priority(kind: ContentKind) -> (p: ViewerPriority)
    ensures
        p == spec_hex_priority(kind),
{
    match kind {
        ContentKind::Binary => ViewerPriority::Normal,
        ContentKind::Empty => ViewerPriority::Normal,
        ContentKind::Text => ViewerPriority::Low,
    }
}

/// The bytes of a row in two hex digits each, separated by single blanks.
pub open spec fn hex_join(chunk: Seq<u8>) -> Seq<char>
    decreases chunk.len(),
{
    if chunk.len() == 0 {
        Seq::empty()
    } else if chunk.len() == 1 {
        hex_padded(chunk[0] as nat, 2, false)
    } else {
        hex_join(chunk.drop_last()) + " "@ + hex_padded(chunk.last() as nat, 2, false)
    }
}

/// `s` padded with blanks on the right up to `width` characters (`{:<width}`).
pub open spec fn pad_right(s: Seq<char>, width: nat) -> Seq<char> {
    if s.len() >= width {
        s
    } else {
        s + Seq::new((width - s.len()) as nat, |i: int| ' ')
    }
}

/// One viewer row: `{addr:08x}: {hex:<48} |{ascii}`.
pub open spec fn hex_view_line(addr: nat, chunk: Seq<u8>) -> Seq<char> {
    hex_padded(addr, 8, false) + ": "@ + pad_right(hex_join(chunk), 48) + " |"@ + ascii_column(
        chunk,
    )
}

/// Viewer rows for `data` in chunks of 16 bytes, the first one at address `addr`.
pub open spec fn hex_view_rows(data: Seq<u8>, addr: nat) -> Seq<Seq<char>>
    decreases data.len(),
{
    if data.len() == 0 {
        Seq::empty()
    } else {
        let m = min_int(16, data.len() as int);
        seq![hex_view_line(addr, data.take(m))] + hex_view_rows(data.skip(m), addr + 16)
    }
}

/// First byte shown: the requested offset, clamped to the file.
pub open spec fn hex_view_start(file_size: u64, start_offset: u64) -> int {
    min_int(start_offset as int, file_size as int)
}

/// The bytes shown: up to `max_rows` rows of 16 from the start, within the file
/// and within the mapped bytes.
pub open spec fn hex_view_window(data: Seq<u8>, file_size: u64, start_offset: u64, max_rows: u16) -> Seq<
    u8,
> {
    let start = hex_view_start(file_size, start_offset);
    let want = min_int(max_rows * 16, file_size - start);
    if start >= data.len() {
        Seq::empty()
    } else {
        data.subrange(start, min_int(start + want, data.len() as int))
    }
}

/// What the hex viewer shows from `start_offset`: a placeholder for an empty file,
/// rows for the window, or an end-of-file marker when the window is empty.
pub open spec fn spec_hex_lines(data: Seq<u8>, file_size: u64, start_offset: u64, max_rows: u16) -> Seq<
    Seq<char>,
> {
    if file_size == 0 || data.len() == 0 {
        seq!["(empty file)"@]
    } else {
        let window = hex_view_window(data, file_size, start_offset, max_rows);
        if window.len() == 0 {
            seq!["(end of file)"@]
        } else {
            hex_view_rows(window, hex_view_start(file_size, start_offset) as nat)
        }
    }
}

/// Appends the hex column of `chunk`: two digits per byte, blanks between them.
pub fn push_hex_join_of(s: &mut String, chunk: &[u8])
    ensures
        final(s)@ == old(s)@ + hex_join(chunk@),
{
    let ghost start = s@;
    let mut i: usize = 0;
    while i < chunk.len()
        invariant
            i <= chunk@.len(),
            s@ == start + hex_join(chunk@.subrange(0, i as int)),
        decreases chunk@.len() - i,
    {
        let ghost before = s@;
        if i > 0 {
            s.append(" ");
        }
        push_hex_padded(s, chunk[i] as u64, 2, false);
        i = i + 1;
        proof {
            let pre = chunk@.subrange(0, i as int);
            assert(pre.drop_last() =~= chunk@.subrange(0, i - 1));
            if i == 1 {
                assert(chunk@.subrange(0, 0) =~= Seq::<u8>::empty());
            }
            assert(s@ =~= start + hex_join(pre));
        }
    }
    proof {
        assert(chunk@.subrange(0, chunk@.len() as int) =~= chunk@);
    }
}

/// Appends blanks until `s` has grown by `width` characters since it held `base`.
fn pad_to(s: &mut String, Ghost(base): Ghost<Seq<char>>, Ghost(col): Ghost<Seq<char>>, len: usize, width: usize)
    requires
        old(s)@ == base + col,
        col.len() == len,
    ensures
        final(s)@ == base + pad_right(col, width as nat),
{
    let mut i = len;
    while i < width
        invariant
            len <= i <= width || (len >= width && i == len),
            s@ == base + col + Seq::new((i - len) as nat, |j: int| ' '),
        decreases width - i,
    {
        push_char(s, ' ');
        i = i + 1;
        proof {
            assert(s@ =~= base + col + Seq::new((i - len) as nat, |j: int| ' '));
        }
    }
    proof {
        if len >= width {
            assert(Seq::new(0nat, |j: int| ' ') =~= Seq::<char>::empty());
            assert(s@ =~= base + col);
        } else {
            assert(s@ =~= base + (col + Seq::new((width - len) as nat, |j: int| ' ')));
        }
    }
}

proof fn lemma_hex_join_len(chunk: Seq<u8>)
    ensures
        chunk.len() > 0 ==> hex_join(chunk).len() == 3 * chunk.len() - 1,
    decreases chunk.len(),
{
    reveal_strlit(" ");
    if chunk.len() > 1 {
        lemma_hex_join_len(chunk.drop_last());
        crate::strings::lemma_hex2_len(chunk.last());
    } else if chunk.len() == 1 {
        crate::strings::lemma_hex2_len(chunk[0]);
    }
}

/// One viewer row for `chunk` (at most 16 bytes) at address `addr`.
pub fn hex_view_row(addr: u64, chunk: &[u8]) -> (s: String)
    requires
        chunk@.len() <= 16,
    ensures
        s@ == hex_view_line(addr as nat, chunk@),
{
    let mut s = String::new();
    push_hex_padded(&mut s, addr, 8, false);
    s.append(": ");
    let ghost base = s@;
    push_hex_join_of(&mut s, chunk);
    proof {
        lemma_hex_join_len(chunk@);
    }
    let len: usize = if chunk.len() == 0 {
        0
    } else {
        3 * chunk.len() - 1
    };
    pad_to(&mut s, Ghost(base), Ghost(hex_join(chunk@)), len, 48);
    s.append(" |");
    push_ascii_column(&mut s, chunk);
    proof {
        assert(s@ =~= hex_view_line(addr as nat, chunk@));
    }
    s
}

/// The rows the hex viewer shows from `start_offset`, at most `max_rows` of them.
pub fn hex_lines_from_bytes(data: &[u8], file_size: u64, start_offset: u64, max_rows: u16) -> (r:
    Vec<String>)
    ensures
        r.deep_view() == spec_hex_lines(data@, file_size, start_offset, max_rows),
{
    let mut lines: Vec<String> = Vec::new();
    if file_size == 0 || data.len() == 0 {
        lines.push("(empty file)".to_owned());
        proof {
            assert(lines.deep_view() =~= seq!["(empty file)"@]);
        }
        return lines;
    }
    let start: u64 = if start_offset < file_size {
        start_offset
    } else {
        file_size
    };
    let rows_bytes: u64 = max_rows as u64 * 16;
    let want: u64 = if rows_bytes < file_size - start {
        rows_bytes
    } else {
        file_size - start
    };
    let buffer: &[u8] = if start >= data.len() as u64 {
        &[]
    } else {
        let s = start as usize;
        let end: usize = if want < (data.len() - s) as u64 {
            s + want as usize
        } else {
            data.len()
        };
        slice_range(data, s, end)
    };
    proof {
        assert(buffer@ =~= hex_view_window(data@, file_size, start_offset, max_rows));
    }
    let n = buffer.len();
    let mut k: usize = 0;
    let mut addr: u64 = start;
    proof {
        assert(buffer@.subrange(0, n as int) =~= buffer@);
    }
    while k < n
        invariant
            k <= n == buffer@.len(),
            n > 0 ==> start + n <= file_size,
            addr == start + k,
            lines.deep_view() + hex_view_rows(buffer@.subrange(k as int, n as int), addr as nat)
                == hex_view_rows(buffer@, start as nat),
        decreases n - k,
    {
        let m: usize = if n - k < 16 {
            n - k
        } else {
            16
        };
        let chunk = slice_range(buffer, k, k + m);
        let ghost rest = buffer@.subrange(k as int, n as int);
        let ghost before = lines.deep_view();
        lines.push(hex_view_row(addr, chunk));
        proof {
            assert(rest.take(m as int) =~= chunk@);
            assert(rest.skip(m as int) =~= buffer@.subrange(k + m, n as int));
            assert(lines.deep_view() =~= before.push(hex_view_line(addr as nat, chunk@)));
            assert(hex_view_rows(rest, addr as nat) == seq![hex_view_line(addr as nat, chunk@)]
                + hex_view_rows(buffer@.subrange(k + m, n as int), (addr + 16) as nat));
        }
        let ghost old_addr = addr;
        k = k + m;
        addr = start + k as u64;
        proof {
            if k < n {
                assert(m == 16);
                assert(addr == old_addr + 16);
            } else {
                assert(buffer@.subrange(k as int, n as int) =~= Seq::<u8>::empty());
            }
            assert(lines.deep_view() + hex_view_rows(buffer@.subrange(k as int, n as int), addr as nat)
                =~= hex_view_rows(buffer@, start as nat));
        }
    }
    proof {
        assert(buffer@.subrange(n as int, n as int) =~= Seq::<u8>::empty());
        assert(lines.deep_view() =~= hex_view_rows(buffer@, start as nat));
    }
    if lines.len() == 0 {
        lines.push("(end of file)".to_owned());
        proof {
            assert(lines.deep_view() =~= seq!["(end of file)"@]);
        }
    }
    lines
}

/// Hex scrolling: 16 bytes per row; forward stops at the last byte of the file,
/// backward at 0.
pub open spec fn spec_hex_advance(size: u64, current: u64, delta: i64) -> u64 {
    if delta >= 0 {
        let target = current + 16 * delta;
        let last: int = if size == 0 { 0 } else { size - 1 };
        if target > last {
            last as u64
        } else {
            target as u64
        }
    } else {
        let target = current + 16 * delta;
        if target < 0 {
            0
        } else {
            target as u64
        }
    }
}

/// See [`spec_hex_advance`].
pub fn hex_advance(size: u64, current: u64, delta: i64) -> (r: u64)
    ensures
        r == spec_hex_advance(size, current, delta),
{
    let last = size.saturating_sub(1);
    if delta >= 0 {
        let d = delta as u64;
        if d > (u64::MAX - current) / 16 {
            last
        } else {
            let t = current + d * 16;
            if t > last {
                last
            } else {
                t
            }
        }
    } else {
        let d: u64 = if delta == i64::MIN {
            (i64::MAX as u64) + 1
        } else {
            (-delta) as u64
        };
        if d > current / 16 {
            0
        } else {
            current - d * 16
        }
    }
}

/// `Hex  0x{pos:08X} · {pos} / {size} B ({pct}%)`.
pub open spec fn spec_hex_status(size: u64, pos: u64, pct: u32) -> Seq<char> {
    "Hex  0x"@ + hex_padded(pos as nat, 8, true) + " · "@ + decimal(pos as nat) + " / "@ + decimal(
        size as nat,
    ) + " B ("@ + decimal(pct as nat) + "%)"@
}

/// The hex viewer's status line, given the position as a percentage of the file.
pub fn hex_status(size: u64, pos: u64, pct: u32) -> (s: String)
    ensures
        s@ == spec_hex_status(size, pos, pct),
{
    let mut s = "Hex  0x".to_owned();
    push_hex_padded(&mut s, pos, 8, true);
    s.append(" · ");
    push_decimal(&mut s, pos);
    s.append(" / ");
    push_decimal(&mut s, size);
    s.append(" B (");
    push_decimal(&mut s, pct as u64);
    s.append("%)");
    s
}

/// The hex viewer shows 16 bytes per row: `n` bytes take `ceil(n / 16)` rows.
pub proof fn lemma_hex_view_rows_count(data: Seq<u8>, addr: nat)
    ensures
        hex_view_rows(data, addr).len() == (data.len() + 15) / 16,
    decreases data.len(),
{
    if data.len() > 0 {
        let m = min_int(16, data.len() as int);
        lemma_hex_view_rows_count(data.skip(m), addr + 16);
        if data.len() <= 16 {
            assert((data.len() + 15) / 16 == 1);
        } else {
            assert((data.len() + 15) / 16 == (data.len() - 16 + 15) / 16 + 1);
        }
    }
}

/// Row `i` of the hex view starts at address `addr + 16 * i` and shows the
/// bytes `16 * i ..` of the data.
pub proof fn lemma_hex_view_row_contents(data: Seq<u8>, addr: nat, i: int)
    requires
        0 <= i < (data.len() + 15) / 16,
    ensures
        hex_view_rows(data, addr)[i] == hex_view_line(
            (addr + 16 * i) as nat,
            data.subrange(16 * i, min_int(16 * i + 16, data.len() as int)),
        ),
    decreases i,
{
    lemma_hex_view_rows_count(data, addr);
    let m = min_int(16, data.len() as int);
    if i == 0 {
        assert(data.take(m) =~= data.subrange(0, min_int(16, data.len() as int)));
    } else {
        let rest = data.skip(m);
        assert(m == 16);
        assert(0 <= i - 1 < (rest.len() + 15) / 16);
        lemma_hex_view_row_contents(rest, addr + 16, i - 1);
        assert(rest.subrange(16 * (i - 1), min_int(16 * (i - 1) + 16, rest.len() as int))
            =~= data.subrange(16 * i, min_int(16 * i + 16, data.len() as int)));
    }
}

/// Scrolling the hex view from a byte inside the file stays inside the file:
/// forward it stops at the last byte, backward it never passes the start.
pub proof fn lemma_hex_advance_in_file(size: u64, current: u64, delta: i64)
    requires
        size > 0,
        current < size,
    ensures
        spec_hex_advance(size, current, delta) < size,
        delta >= 0 ==> spec_hex_advance(size, current, delta) >= current,
        delta <= 0 ==> spec_hex_advance(size, current, delta) <= current,
{
}

/// Scrolling by `delta` rows and back by the same count returns to the same
/// byte, as long as the first move stays inside the file.
pub proof fn lemma_hex_scroll_undo(size: u64, current: u64, delta: i64)
    requires
        current < size,
        i64::MIN < delta,
        0 <= current + 16 * delta < size,
    ensures
        spec_hex_advance(size, spec_hex_advance(size, current, delta), -delta as i64) == current,
{
}

} // verus!
