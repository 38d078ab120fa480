//! Non-interactive, pipe-friendly dumps of a file as text or as hex.

use vstd::prelude::*;
use crate::file_info::FileInfo;
use crate::probe::slice_range;
use crate::strings::{hex_padded, lemma_hex2_len, lossy_string, push_char, push_hex_padded, utf8_lossy};
use crate::text_slice::min_int;
use vstd::utf8::{decode_utf8, valid_utf8};

verus! {

/// Options controlling a non-interactive dump.
#[derive(Debug, Clone)]
pub struct DumpOptions {
    /// Byte offset to start dumping from.
    pub offset: u64,
    /// Maximum number of bytes to dump (`None`: to the end of the data).
    pub length: Option<u64>,
}

impl Default for DumpOptions {
    fn default() -> (o: Self)
        ensures
            o.offset == 0,
            o.length is None,
    {
        DumpOptions { offset: 0, length: None }
    }
}

/// First dumped byte: the offset, clamped to the data.
pub open spec fn dump_start(len: int, opts: DumpOptions) -> int {
    min_int(opts.offset as int, len)
}

/// One past the last dumped byte: `length` bytes after the start, clamped to the data.
pub open spec fn dump_end(len: int, opts: DumpOptions) -> int {
    match opts.length {
        Some(l) => min_int(dump_start(len, opts) + l, len),
        None => len,
    }
}

/// The bytes a dump covers.
pub open spec fn dump_range(data: Seq<u8>, opts: DumpOptions) -> Seq<u8> {
    data.subrange(dump_start(data.len() as int, opts), dump_end(data.len() as int, opts))
}

/// The dump is defined (the end of the range fits in `usize`).
pub open spec fn dump_fits(data: Seq<u8>, opts: DumpOptions) -> bool {
    opts.length matches Some(l) ==> dump_start(data.len() as int, opts) + l <= usize::MAX
}

/// The default options dump every byte; any options dump a contiguous part of
/// the data that is no longer than the requested length.
pub proof fn lemma_dump_range_extent(data: Seq<u8>, opts: DumpOptions)
    ensures
        dump_range(data, DumpOptions { offset: 0, length: None }) == data,
        dump_range(data, opts) == data.subrange(
            dump_start(data.len() as int, opts),
            dump_start(data.len() as int, opts) + dump_range(data, opts).len(),
        ),
        opts.length matches Some(l) ==> dump_range(data, opts).len() <= l,
        opts.offset <= data.len() && (opts.length matches Some(l) ==> opts.offset + l <= data.len())
            ==> dump_range(data, opts).len() == match opts.length {
            Some(l) => l as int,
            None => data.len() - opts.offset,
        },
{
    assert(dump_range(data, DumpOptions { offset: 0, length: None }) =~= data);
}

/// Whether a dump of `data` with `opts` is defined (see [`dump_fits`]); slicing
/// the range fails on the other inputs.
pub fn dump_range_fits(data: &[u8], opts: &DumpOptions) -> (r: bool)
    ensures
        r == dump_fits(data@, *opts),
{
    match opts.length {
        Some(l) => {
            let start: u64 = if opts.offset < data.len() as u64 {
                opts.offset
            } else {
                data.len() as u64
            };
            l <= usize::MAX as u64 - start
        },
        None => true,
    }
}

/// The bytes of `data` that `opts` select.
pub fn dump_slice<'a>(data: &'a [u8], opts: &DumpOptions) -> (r: &'a [u8])
    requires
        dump_fits(data@, *opts),
    ensures
        r@ == dump_range(data@, *opts),
{
    let len = data.len();
    let start: usize = if opts.offset < len as u64 {
        opts.offset as usize
    } else {
        len
    };
    let end: usize = match opts.length {
        Some(l) => {
            let e = start as u64 + l;
            if e < len as u64 {
                e as usize
            } else {
                len
            }
        },
        None => len,
    };
    slice_range(data, start, end)
}

/// Text dump: the selected bytes decoded as lossy UTF-8, with a final newline
/// added where the bytes do not end with one.
pub open spec fn spec_dump_text(data: Seq<u8>, opts: DumpOptions) -> Seq<char> {
    let s = dump_range(data, opts);
    if s.len() > 0 && s.last() != 10u8 {
        utf8_lossy(s).push('\n')
    } else {
        utf8_lossy(s)
    }
}

/// Dumps `data` as text (best-effort UTF-8: invalid sequences become U+FFFD).
/// Well-formed UTF-8 comes out as exactly its characters.
pub fn dump_text(data: &[u8], opts: &DumpOptions) -> (s: String)
    requires
        dump_fits(data@, *opts),
    ensures
        s@ == spec_dump_text(data@, *opts),
        valid_utf8(dump_range(data@, *opts)) ==> s@ == (if dump_range(data@, *opts).len() > 0
            && dump_range(data@, *opts).last() != 10u8 {
            decode_utf8(dump_range(data@, *opts)).push('\n')
        } else {
            decode_utf8(dump_range(data@, *opts))
        }),
{
    let slice = dump_slice(data, opts);
    let mut s = lossy_string(slice);
    if slice.len() > 0 && slice[slice.len() - 1] != 10u8 {
        push_char(&mut s, '\n');
    }
    s
}

/// The column character for a byte: printable ASCII as itself, anything else as `.`.
pub open spec fn printable(b: u8) -> char {
    if 0x20 <= b <= 0x7e {
        b as char
    } else {
        '.'
    }
}

/// See [`printable`].
pub fn printable_char(b: u8) -> (c: char)
    ensures
        c == printable(b),
{
    if 0x20 <= b && b <= 0x7e {
        b as char
    } else {
        '.'
    }
}

/// The ASCII column of a row of bytes.
pub open spec fn ascii_column(chunk: Seq<u8>) -> Seq<char> {
    chunk.map_values(|b: u8| printable(b))
}

/// Appends the ASCII column of `chunk`.
pub fn push_ascii_column(s: &mut String, chunk: &[u8])
    ensures
        final(s)@ == old(s)@ + ascii_column(chunk@),
{
    let ghost start = s@;
    let mut i: usize = 0;
    while i < chunk.len()
        invariant
            i <= chunk@.len(),
            s@ == start + ascii_column(chunk@.subrange(0, i as int)),
        decreases chunk@.len() - i,
    {
        push_char(s, printable_char(chunk[i]));
        i = i + 1;
        proof {
            assert(ascii_column(chunk@.subrange(0, i as int)) =~= ascii_column(
                chunk@.subrange(0, i - 1),
            ).push(printable(chunk@[i - 1])));
        }
    }
    proof {
        assert(chunk@.subrange(0, chunk@.len() as int) =~= chunk@);
    }
}

/// Column `i` (0..16) of a dump row: the byte in two hex digits, or two blanks
/// past the end of a short row, then a separating blank before every column but
/// the first, and an extra blank after the eighth column. Every row's hex field
/// is thus 48 characters wide, so the ASCII column lines up on a short last row.
pub open spec fn dump_hex_cell(chunk: Seq<u8>, i: int) -> Seq<char> {
    let mid = if i == 7 {
        " "@
    } else {
        ""@
    };
    let sep = if i < 15 {
        " "@
    } else {
        ""@
    };
    if i < chunk.len() {
        hex_padded(chunk[i] as nat, 2, false) + sep + mid
    } else {
        "  "@ + sep + mid
    }
}

/// Columns `0..n` of a dump row.
pub open spec fn dump_hex_cells(chunk: Seq<u8>, n: int) -> Seq<char>
    decreases n,
{
    if n <= 0 {
        Seq::empty()
    } else {
        dump_hex_cells(chunk, n - 1) + dump_hex_cell(chunk, n - 1)
    }
}

/// Length of the first `n` (up to 16) columns of a dump row.
proof fn lemma_dump_hex_cells_len(chunk: Seq<u8>, n: int)
    requires
        0 <= n <= 16,
    ensures
        dump_hex_cells(chunk, n).len() == 3 * n + (if n > 7 {
            1int
        } else {
            0int
        }) - (if n > 15 {
            1int
        } else {
            0int
        }),
    decreases n,
{
    if n > 0 {
        lemma_dump_hex_cells_len(chunk, n - 1);
        let i = n - 1;
        if i < chunk.len() {
            lemma_hex2_len(chunk[i]);
        }
        proof_strlit_lens();
    }
}

/// The lengths of the short literals of a dump row.
proof fn proof_strlit_lens()
    ensures
        " "@.len() == 1,
        ""@.len() == 0,
        "  "@.len() == 2,
        ": "@.len() == 2,
        " |"@.len() == 2,
        " |"@[1] == '|',
        "|\n"@.len() == 2,
{
    reveal_strlit(" ");
    reveal_strlit("");
    reveal_strlit("  ");
    reveal_strlit(": ");
    reveal_strlit(" |");
    reveal_strlit("|\n");
}

/// 16 to the power `k`.
spec fn hex_capacity(k: nat) -> nat
    decreases k,
{
    if k == 0 {
        1
    } else {
        16 * hex_capacity((k - 1) as nat)
    }
}

/// A number below `16^k` takes at most `k` hex digits.
proof fn lemma_hex_digits_fit(n: nat, k: nat)
    requires
        k >= 1,
        n < hex_capacity(k),
    ensures
        crate::strings::digits(n, 16, false).len() <= k,
    decreases k,
{
    if n >= 16 {
        reveal_with_fuel(hex_capacity, 2);
        assert(k >= 2);
        let c = hex_capacity((k - 1) as nat);
        assert(n / 16 < c) by (nonlinear_arith)
            requires
                n < 16 * c,
        ;
        lemma_hex_digits_fit(n / 16, (k - 1) as nat);
    }
}

/// Layout of a dump row whose address fits in eight hex digits: the hex field
/// is 48 characters wide whatever the row's length, so the bar that opens the
/// ASCII column is at column 59 on every row, a short last row included.
pub proof fn lemma_dump_row_layout(addr: nat, chunk: Seq<u8>)
    requires
        addr < 0x1_0000_0000,
        chunk.len() <= 16,
    ensures
        dump_hex_cells(chunk, 16).len() == 48,
        dump_hex_line(addr, chunk).len() == 62 + chunk.len(),
        dump_hex_line(addr, chunk)[59] == '|',
{
    lemma_dump_hex_cells_len(chunk, 16);
    assert(hex_capacity(8) == 0x1_0000_0000) by {
        reveal_with_fuel(hex_capacity, 9);
    }
    lemma_hex_digits_fit(addr, 8);
    proof_strlit_lens();
    let head = hex_padded(addr, 8, false) + ": "@ + dump_hex_cells(chunk, 16);
    assert(hex_padded(addr, 8, false).len() == 8);
    assert(head.len() == 58);
    let line = dump_hex_line(addr, chunk);
    assert(line =~= head + " |"@ + (ascii_column(chunk) + "|\n"@));
    assert(line[59] == (head + " |"@)[59]);
}

/// One dump row: `{addr:08x}: ` then sixteen columns, then ` |ascii|` and a newline.
pub open spec fn dump_hex_line(addr: nat, chunk: Seq<u8>) -> Seq<char> {
    hex_padded(addr, 8, false) + ": "@ + dump_hex_cells(chunk, 16) + " |"@ + ascii_column(chunk)
        + "|\n"@
}

/// Dump rows for `data` in chunks of 16 bytes, the first one at address `addr`.
pub open spec fn dump_hex_lines(data: Seq<u8>, addr: nat) -> Seq<char>
    decreases data.len(),
{
    if data.len() == 0 {
        Seq::empty()
    } else {
        let m = min_int(16, data.len() as int);
        dump_hex_line(addr, data.take(m)) + dump_hex_lines(data.skip(m), addr + 16)
    }
}

/// Hex dump: rows for the selected bytes, addressed from the requested offset.
pub open spec fn spec_dump_hex(data: Seq<u8>, opts: DumpOptions) -> Seq<char> {
    dump_hex_lines(dump_range(data, opts), opts.offset as nat)
}

/// Appends one dump row for `chunk` (at most 16 bytes) at address `addr`.
pub fn push_dump_hex_line(s: &mut String, addr: u64, chunk: &[u8])
    requires
        chunk@.len() <= 16,
    ensures
        final(s)@ == old(s)@ + dump_hex_line(addr as nat, chunk@),
{
    let ghost start = s@;
    push_hex_padded(s, addr, 8, false);
    s.append(": ");
    let ghost head = s@;
    let mut i: usize = 0;
    while i < 16
        invariant
            i <= 16,
            chunk@.len() <= 16,
            s@ == head + dump_hex_cells(chunk@, i as int),
        decreases 16 - i,
    {
        let ghost before = s@;
        if i < chunk.len() {
            push_hex_padded(s, chunk[i] as u64, 2, false);
        } else {
            s.append("  ");
        }
        if i < 15 {
            s.append(" ");
        } else {
            s.append("");
        }
        if i == 7 {
            s.append(" ");
        } else {
            s.append("");
        }
        proof {
            assert(s@ =~= before + dump_hex_cell(chunk@, i as int));
        }
        i = i + 1;
        proof {
            assert(s@ =~= head + dump_hex_cells(chunk@, i as int));
        }
    }
    s.append(" |");
    push_ascii_column(s, chunk);
    s.append("|\n");
    proof {
        assert(s@ =~= start + dump_hex_line(addr as nat, chunk@));
    }
}

/// Dumps `data` as classic hex + ASCII, 16 bytes per row, the last row padded.
pub fn dump_hex(data: &[u8], opts: &DumpOptions) -> (s: String)
    requires
        dump_fits(data@, *opts),
    ensures
        s@ == spec_dump_hex(data@, *opts),
{
    let slice = dump_slice(data, opts);
    let n = slice.len();
    let dlen = data.len();
    let mut s = String::new();
    let mut k: usize = 0;
    let mut addr: u64 = opts.offset;
    proof {
        assert(slice@.subrange(0, n as int) =~= slice@);
        let st = dump_start(data@.len() as int, *opts);
        let en = dump_end(data@.len() as int, *opts);
        assert(n == en - st);
        if n > 0 {
            assert(st < data@.len());
            assert(st == opts.offset);
            assert(opts.offset + n <= data@.len());
        }
    }
    while k < n
        invariant
            k <= n == slice@.len(),
            n > 0 ==> opts.offset + n <= dlen,
            dlen == data@.len(),
            addr == opts.offset + k,
            s@ + dump_hex_lines(slice@.subrange(k as int, n as int), addr as nat) == spec_dump_hex(
                data@,
                *opts,
            ),
        decreases n - k,
    {
        let m: usize = if n - k < 16 {
            n - k
        } else {
            16
        };
        let chunk = slice_range(slice, k, k + m);
        let ghost rest = slice@.subrange(k as int, n as int);
        let ghost before = s@;
        push_dump_hex_line(&mut s, addr, chunk);
        proof {
            assert(rest.take(m as int) =~= chunk@);
            assert(rest.skip(m as int) =~= slice@.subrange(k + m, n as int));
            assert(dump_hex_lines(rest, addr as nat) == dump_hex_line(addr as nat, chunk@)
                + dump_hex_lines(slice@.subrange(k + m, n as int), (addr + 16) as nat));
            if k + m < n {
                assert(m == 16);
            }
        }
        k = k + m;
        if k < n {
            addr = addr + 16;
        } else {
            proof {
                assert(slice@.subrange(k as int, n as int) =~= Seq::<u8>::empty());
                assert(before + dump_hex_lines(rest, addr as nat) == spec_dump_hex(data@, *opts));
                assert(s@ =~= spec_dump_hex(data@, *opts));
            }
            addr = opts.offset + k as u64;
        }
        proof {
            assert(s@ + dump_hex_lines(slice@.subrange(k as int, n as int), addr as nat)
                =~= spec_dump_hex(data@, *opts));
        }
    }
    proof {
        assert(slice@.subrange(n as int, n as int) =~= Seq::<u8>::empty());
    }
    s
}

/// The dump the binary prints: hex when asked for or when the file is not text,
/// text otherwise.
pub open spec fn spec_dump(is_text: bool, data: Seq<u8>, force_hex: bool, opts: DumpOptions) -> Seq<
    char,
> {
    if force_hex || !is_text {
        spec_dump_hex(data, opts)
    } else {
        spec_dump_text(data, opts)
    }
}

/// Dumps the file's bytes `data` as hex when `force_hex` or when the file is not
/// text, as text otherwise.
pub fn dump(info: &FileInfo, data: &[u8], force_hex: bool, opts: &DumpOptions) -> (s: String)
    requires
        dump_fits(data@, *opts),
    ensures
        s@ == spec_dump(
            info.kind == crate::file_info::ContentKind::Text || info.kind
                == crate::file_info::ContentKind::Empty,
            data@,
            force_hex,
            *opts,
        ),
{
    if force_hex || !info.is_text() {
        dump_hex(data, opts)
    } else {
        dump_text(data, opts)
    }
}

} // verus!
