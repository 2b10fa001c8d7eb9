//! Loaded stream windows: presets, bounds, range labels, the hex/text/byte
//! displays, and the small cache of windows around the one in view.
use vstd::prelude::*;
use std::collections::VecDeque;
use crate::model::{ObjectId, StreamChunk, StreamMode, StreamSummary, StreamViewMode};
use crate::nice::{content_nice_lines, nice_text, pdf_content_stream_nice_text};
use crate::text::{
    decimal, decode_utf8_lossy, hex_padded, push_all, push_decimal, push_hex_padded, push_str,
    string_from_chars, utf8_lossy, all_ascii_bytes, ascii_chars,
};

verus! {

/// Largest window the stream view loads by default.
pub const REAL_STREAM_DEFAULT_VIEW_LIMIT_BYTES: usize = 65536;

/// Most windows the stream view keeps loaded.
pub const REAL_STREAM_MAX_LOADED_WINDOWS: usize = 5;

/// Bytes per hex dump row.
pub const HEX_VIEW_BYTES_PER_ROW: usize = 16;

/// How the stream view starts out.
#[derive(Clone, Copy, Debug, PartialEq, Eq, Structural)]
pub enum RealStreamPreset {
    Nice,
    Raw,
}

/// The name of a read mode.
pub fn stream_mode_label(mode: StreamMode) -> (s: &'static str)
    ensures
        s@ == (if mode == StreamMode::Raw {
            "raw"@
        } else {
            "decoded"@
        }),
{
    match mode {
        StreamMode::Raw => "raw",
        StreamMode::Decoded => "decoded",
    }
}

/// The name of a display mode.
pub fn stream_view_mode_label(mode: StreamViewMode) -> (s: &'static str)
    ensures
        s@ == (match mode {
            StreamViewMode::Hex => "Hex"@,
            StreamViewMode::Text => "Text"@,
            StreamViewMode::Bytes => "Bytes"@,
        }),
{
    match mode {
        StreamViewMode::Hex => "Hex",
        StreamViewMode::Text => "Text",
        StreamViewMode::Bytes => "Bytes",
    }
}

/// The name of a preset.
pub fn real_stream_preset_label(preset: RealStreamPreset) -> (s: &'static str)
    ensures
        s@ == (if preset == RealStreamPreset::Nice {
            "Nice View"@
        } else {
            "Raw View"@
        }),
{
    match preset {
        RealStreamPreset::Nice => "Nice View",
        RealStreamPreset::Raw => "Raw View",
    }
}

/// The read and display modes a preset starts with: the nice view reads
/// decoded text when the stream can be decoded (raw text otherwise), the raw
/// view shows raw bytes in hex.
pub fn real_stream_preset_defaults(preset: RealStreamPreset, can_decode: bool) -> (r: (
    StreamMode,
    StreamViewMode,
))
    ensures
        r == (match preset {
            RealStreamPreset::Nice => if can_decode {
                (StreamMode::Decoded, StreamViewMode::Text)
            } else {
                (StreamMode::Raw, StreamViewMode::Text)
            },
            RealStreamPreset::Raw => (StreamMode::Raw, StreamViewMode::Hex),
        }),
{
    match preset {
        RealStreamPreset::Nice => if can_decode {
            (StreamMode::Decoded, StreamViewMode::Text)
        } else {
            (StreamMode::Raw, StreamViewMode::Text)
        },
        RealStreamPreset::Raw => (StreamMode::Raw, StreamViewMode::Hex),
    }
}

/// The window size the stream view loads first: the stream's size for the
/// mode when known and representable, kept between 1 and the default limit;
/// the default limit otherwise.
pub open spec fn default_limit(hint: Option<u64>) -> nat {
    match hint {
        Some(size) => if size > usize::MAX {
            REAL_STREAM_DEFAULT_VIEW_LIMIT_BYTES as nat
        } else if size < 1 {
            1
        } else if size > REAL_STREAM_DEFAULT_VIEW_LIMIT_BYTES {
            REAL_STREAM_DEFAULT_VIEW_LIMIT_BYTES as nat
        } else {
            size as nat
        },
        None => REAL_STREAM_DEFAULT_VIEW_LIMIT_BYTES as nat,
    }
}

/// The size hint of a stream for a read mode.
pub open spec fn size_hint(stream: StreamSummary, mode: StreamMode) -> Option<u64> {
    match mode {
        StreamMode::Raw => stream.raw_size_hint,
        StreamMode::Decoded => stream.decoded_size_hint,
    }
}

/// The window size the stream view loads first.
pub fn real_stream_default_limit(stream: &StreamSummary, mode: StreamMode) -> (limit: usize)
    ensures
        limit == default_limit(size_hint(*stream, mode)),
{
    let hint = match mode {
        StreamMode::Raw => stream.raw_size_hint,
        StreamMode::Decoded => stream.decoded_size_hint,
    };
    match hint {
        Some(size) => {
            if size > usize::MAX as u64 {
                REAL_STREAM_DEFAULT_VIEW_LIMIT_BYTES
            } else {
                let size = size as usize;
                if size < 1 {
                    1
                } else if size > REAL_STREAM_DEFAULT_VIEW_LIMIT_BYTES {
                    REAL_STREAM_DEFAULT_VIEW_LIMIT_BYTES
                } else {
                    size
                }
            }
        },
        None => REAL_STREAM_DEFAULT_VIEW_LIMIT_BYTES,
    }
}

/// `a + b`, or `u64::MAX` when that does not fit.
pub open spec fn sat_add(a: u64, b: nat) -> u64 {
    if a + b > u64::MAX {
        u64::MAX
    } else {
        (a + b) as u64
    }
}

/// Where a window's bytes end (saturating).
pub open spec fn loaded_end(c: StreamChunk) -> u64 {
    sat_add(c.offset, c.bytes@.len())
}

/// Whether more of the stream follows a window: its end is before the known
/// total, or, with no total, the window was cut short.
pub open spec fn chunk_has_more(c: StreamChunk) -> bool {
    match c.total_size {
        Some(total) => loaded_end(c) < total,
        None => c.truncated,
    }
}

/// Where a window's bytes end.
fn chunk_loaded_end(chunk: &StreamChunk) -> (e: u64)
    ensures
        e == loaded_end(*chunk),
{
    let len = chunk.bytes.len();
    if len as u64 as usize != len {
        return u64::MAX;
    }
    chunk.offset.saturating_add(len as u64)
}

/// Whether more of the stream follows a window.
pub fn real_stream_chunk_has_more(chunk: &StreamChunk) -> (b: bool)
    ensures
        b == chunk_has_more(*chunk),
{
    let end = chunk_loaded_end(chunk);
    match chunk.total_size {
        Some(total) => end < total,
        None => chunk.truncated,
    }
}

/// Whether more of the stream follows the last loaded window.
pub fn real_stream_chunks_has_more(chunks: &[StreamChunk]) -> (b: bool)
    ensures
        b == (chunks@.len() > 0 && chunk_has_more(chunks@.last())),
{
    if chunks.len() == 0 {
        false
    } else {
        real_stream_chunk_has_more(&chunks[chunks.len() - 1])
    }
}

/// The span of the loaded windows: `bytes first..end`, then ` / total N`
/// when the total is known and ` / more` when more follows.
pub open spec fn range_label(chunks: Seq<StreamChunk>) -> Seq<char> {
    if chunks.len() == 0 {
        "no bytes loaded"@
    } else {
        let last = chunks.last();
        "bytes "@ + decimal(chunks[0].offset as nat) + ".."@ + decimal(loaded_end(last) as nat)
            + (match last.total_size {
            Some(t) => " / total "@ + decimal(t as nat),
            None => seq![],
        }) + (if chunk_has_more(last) {
            " / more"@
        } else {
            seq![]
        })
    }
}

/// The span of the loaded windows, such as `bytes 0..4096 / total 72511 /
/// more`.
pub fn real_stream_chunks_range_label(chunks: &[StreamChunk]) -> (s: String)
    ensures
        s@ == range_label(chunks@),
{
    if chunks.len() == 0 {
        return String::from_str("no bytes loaded");
    }
    let last = &chunks[chunks.len() - 1];
    let mut out: Vec<char> = Vec::new();
    push_str(&mut out, "bytes ");
    push_decimal(&mut out, chunks[0].offset);
    push_str(&mut out, "..");
    push_decimal(&mut out, chunk_loaded_end(last));
    match last.total_size {
        Some(t) => {
            push_str(&mut out, " / total ");
            push_decimal(&mut out, t);
        },
        None => {},
    }
    if real_stream_chunk_has_more(last) {
        push_str(&mut out, " / more");
    }
    assert(out@ =~= range_label(chunks@));
    string_from_chars(&out)
}

/// The total length of the loaded windows.
pub open spec fn loaded_bytes(chunks: Seq<StreamChunk>) -> nat
    decreases chunks.len(),
{
    if chunks.len() == 0 {
        0
    } else {
        loaded_bytes(chunks.drop_last()) + chunks.last().bytes@.len()
    }
}

/// How much is loaded: `L of T bytes` while some is missing, `T bytes` once
/// all is, and without a total `L bytes`, marked `loaded · more` when more
/// follows.
pub open spec fn loaded_label(chunks: Seq<StreamChunk>) -> Seq<char> {
    let loaded = loaded_bytes(chunks);
    let total = if chunks.len() > 0 {
        chunks.last().total_size
    } else {
        None
    };
    match total {
        Some(t) => if loaded < t {
            decimal(loaded) + " of "@ + decimal(t as nat) + " bytes"@
        } else {
            decimal(t as nat) + " bytes"@
        },
        None => if chunks.len() > 0 && chunk_has_more(chunks.last()) {
            decimal(loaded) + " bytes loaded · more"@
        } else {
            decimal(loaded) + " bytes"@
        },
    }
}

/// How much of the stream is loaded.
pub fn real_stream_loaded_label(chunks: &[StreamChunk]) -> (s: String)
    requires
        loaded_bytes(chunks@) <= u64::MAX,
    ensures
        s@ == loaded_label(chunks@),
{
    let mut loaded: u64 = 0;
    let mut i: usize = 0;
    assert(chunks@.take(0) =~= seq![]);
    while i < chunks.len()
        invariant
            0 <= i <= chunks@.len(),
            loaded == loaded_bytes(chunks@.take(i as int)),
            loaded_bytes(chunks@) <= u64::MAX,
        decreases chunks@.len() - i,
    {
        assert(chunks@.take(i + 1).drop_last() =~= chunks@.take(i as int));
        proof {
            lemma_loaded_bytes_prefix(chunks@, i + 1);
        }
        loaded = loaded + chunks[i].bytes.len() as u64;
        i += 1;
    }
    assert(chunks@.take(i as int) =~= chunks@);
    let total = if chunks.len() > 0 {
        chunks[chunks.len() - 1].total_size
    } else {
        None
    };
    let mut out: Vec<char> = Vec::new();
    match total {
        Some(t) => {
            if loaded < t {
                push_decimal(&mut out, loaded);
                push_str(&mut out, " of ");
                push_decimal(&mut out, t);
                push_str(&mut out, " bytes");
            } else {
                push_decimal(&mut out, t);
                push_str(&mut out, " bytes");
            }
        },
        None => {
            push_decimal(&mut out, loaded);
            if real_stream_chunks_has_more(chunks) {
                push_str(&mut out, " bytes loaded · more");
            } else {
                push_str(&mut out, " bytes");
            }
        },
    }
    assert(out@ =~= loaded_label(chunks@));
    string_from_chars(&out)
}

/// The loaded length of a prefix is at most that of the whole.
pub proof fn lemma_loaded_bytes_prefix(chunks: Seq<StreamChunk>, k: int)
    requires
        0 <= k <= chunks.len(),
    ensures
        loaded_bytes(chunks.take(k)) <= loaded_bytes(chunks),
    decreases chunks.len(),
{
    if k < chunks.len() {
        assert(chunks.drop_last().take(k) =~= chunks.take(k));
        lemma_loaded_bytes_prefix(chunks.drop_last(), k);
    } else {
        assert(chunks.take(k) =~= chunks);
    }
}

/// Where the window after the loaded ones starts, unless that is 0.
pub open spec fn next_offset(chunks: Seq<StreamChunk>) -> Option<u64> {
    if chunks.len() > 0 && loaded_end(chunks.last()) > 0 {
        Some(loaded_end(chunks.last()))
    } else {
        None
    }
}

/// Where the window after the loaded ones starts.
pub fn real_stream_next_offset(chunks: &[StreamChunk]) -> (o: Option<u64>)
    ensures
        o == next_offset(chunks@),
{
    if chunks.len() == 0 {
        return None;
    }
    let end = chunk_loaded_end(&chunks[chunks.len() - 1]);
    if end > 0 {
        Some(end)
    } else {
        None
    }
}

/// Where the window before the loaded ones starts: `limit` bytes before the
/// first (not below 0), when the first does not start at 0.
pub open spec fn previous_offset(chunks: Seq<StreamChunk>, limit: nat) -> Option<u64> {
    if chunks.len() > 0 && chunks[0].offset > 0 {
        Some(
            if chunks[0].offset >= limit {
                (chunks[0].offset - limit) as u64
            } else {
                0
            },
        )
    } else {
        None
    }
}

/// Where the window before the loaded ones starts.
pub fn real_stream_previous_offset(chunks: &[StreamChunk], limit: usize) -> (o: Option<u64>)
    ensures
        o == previous_offset(chunks@, limit as nat),
{
    if chunks.len() == 0 || chunks[0].offset == 0 {
        return None;
    }
    let offset = chunks[0].offset;
    if limit as u64 as usize != limit {
        return Some(0);
    }
    Some(offset.saturating_sub(limit as u64))
}

/// The edge of the stream view that a scroll pushes against: the bottom
/// when scrolling down near the end, the top when scrolling up near the
/// start.
#[derive(Clone, Copy, Debug, PartialEq, Eq, Structural)]
pub enum StreamScrollEdge {
    Top,
    Bottom,
}

/// The window that a scroll against an edge loads: the next one at the
/// bottom when more is left, the previous one at the top.
pub open spec fn edge_request(edge: StreamScrollEdge, chunks: Seq<StreamChunk>, limit: nat) -> Option<
    u64,
> {
    match edge {
        StreamScrollEdge::Bottom => if chunks.len() > 0 && chunk_has_more(chunks.last()) {
            next_offset(chunks)
        } else {
            None
        },
        StreamScrollEdge::Top => previous_offset(chunks, limit),
    }
}

/// The window that a scroll against `edge` loads, if any.
pub fn real_stream_edge_request(edge: StreamScrollEdge, chunks: &[StreamChunk], limit: usize) -> (o:
    Option<u64>)
    ensures
        o == edge_request(edge, chunks@, limit as nat),
{
    match edge {
        StreamScrollEdge::Bottom => if real_stream_chunks_has_more(chunks) {
            real_stream_next_offset(chunks)
        } else {
            None
        },
        StreamScrollEdge::Top => real_stream_previous_offset(chunks, limit),
    }
}

// ---------------------------------------------------------------------------
// Displays
// ---------------------------------------------------------------------------
/// How a byte shows in the character column of a hex dump: visible ASCII
/// (and the space, when `keep_space`) as itself, anything else as `.`.
pub open spec fn dump_char(b: u8, keep_space: bool) -> char {
    if (0x21 <= b && b <= 0x7e) || (keep_space && b == 0x20) {
        (b as u32) as char
    } else {
        '.'
    }
}

/// The hex column entries of `bytes`: two hex digits and a space each.
pub open spec fn hex_column(bytes: Seq<u8>) -> Seq<char>
    decreases bytes.len(),
{
    if bytes.len() == 0 {
        seq![]
    } else {
        hex_column(bytes.drop_last()) + hex_padded(bytes.last() as nat, 2) + seq![' ']
    }
}

/// The character column of `bytes`.
pub open spec fn char_column(bytes: Seq<u8>, keep_space: bool) -> Seq<char> {
    Seq::new(bytes.len(), |i: int| dump_char(bytes[i], keep_space))
}

/// One hex dump row: the offset in (at least) eight hex digits, two spaces,
/// the hex column padded to sixteen entries, a space and the character
/// column.
pub open spec fn dump_row_with(offset: nat, bytes: Seq<u8>, keep_space: bool) -> Seq<char> {
    hex_padded(offset, 8) + "  "@ + hex_column(bytes) + Seq::new(
        (3 * (16 - bytes.len())) as nat,
        |i: int| ' ',
    ) + seq![' '] + char_column(bytes, keep_space)
}

/// One row of a stream window's hex dump (spaces show as themselves).
pub open spec fn dump_row(offset: u64, bytes: Seq<u8>) -> Seq<char> {
    dump_row_with(offset as nat, bytes, true)
}

/// The character of a byte in the character column.
fn dump_char_exec(b: u8, keep_space: bool) -> (c: char)
    ensures
        c == dump_char(b, keep_space),
{
    if (0x21 <= b && b <= 0x7e) || (keep_space && b == 0x20) {
        b as char
    } else {
        '.'
    }
}

/// Appends one hex dump row to `out`.
fn push_dump_row(out: &mut Vec<char>, offset: u64, bytes: &[u8], keep_space: bool)
    requires
        bytes@.len() <= 16,
    ensures
        final(out)@ == old(out)@ + dump_row_with(offset as nat, bytes@, keep_space),
{
    let ghost start = out@;
    push_hex_padded(out, offset, 8);
    push_str(out, "  ");
    let ghost head = out@;
    let mut i: usize = 0;
    assert(bytes@.take(0) =~= seq![]);
    while i < bytes.len()
        invariant
            0 <= i <= bytes@.len(),
            out@ == head + hex_column(bytes@.take(i as int)),
        decreases bytes@.len() - i,
    {
        assert(bytes@.take(i + 1).drop_last() =~= bytes@.take(i as int));
        push_hex_padded(out, bytes[i] as u64, 2);
        out.push(' ');
        i += 1;
    }
    assert(bytes@.take(i as int) =~= bytes@);
    let ghost hexed = out@;
    let mut k: usize = bytes.len();
    while k < 16
        invariant
            bytes@.len() <= k <= 16,
            out@ == hexed + Seq::new((3 * (k - bytes@.len())) as nat, |i: int| ' '),
        decreases 16 - k,
    {
        push_str(out, "   ");
        proof {
            reveal_strlit("   ");
        }
        assert(Seq::new((3 * (k + 1 - bytes@.len())) as nat, |i: int| ' ') =~= Seq::new(
            (3 * (k - bytes@.len())) as nat,
            |i: int| ' ',
        ) + "   "@);
        k += 1;
    }
    out.push(' ');
    let ghost padded = out@;
    let mut j: usize = 0;
    while j < bytes.len()
        invariant
            0 <= j <= bytes@.len(),
            out@ == padded + char_column(bytes@.take(j as int), keep_space),
        decreases bytes@.len() - j,
    {
        let ghost before = out@;
        out.push(dump_char_exec(bytes[j], keep_space));
        assert(char_column(bytes@.take(j + 1), keep_space) =~= char_column(
            bytes@.take(j as int),
            keep_space,
        ).push(dump_char(bytes@[j as int], keep_space)));
        j += 1;
    }
    assert(bytes@.take(j as int) =~= bytes@);
    assert(out@ =~= start + dump_row_with(offset as nat, bytes@, keep_space));
}

/// One hex dump row, such as `00000010  42 54 …  BT`.
pub fn hex_dump_row(line_offset: u64, chunk: &[u8]) -> (s: String)
    requires
        chunk@.len() <= 16,
    ensures
        s@ == dump_row(line_offset, chunk@),
{
    let mut out: Vec<char> = Vec::new();
    push_dump_row(&mut out, line_offset, chunk, true);
    assert(out@ =~= dump_row(line_offset, chunk@));
    string_from_chars(&out)
}

/// A hex dump of `bytes` from index `start` on: sixteen bytes per row, each
/// row labelled with its offset (saturating) and ending in a newline.
pub open spec fn dump_rows_from(base: u64, bytes: Seq<u8>, start: nat) -> Seq<char>
    decreases bytes.len() + 16 - start,
{
    if start >= bytes.len() {
        seq![]
    } else {
        let end: int = if start + 16 <= bytes.len() {
            (start + 16) as int
        } else {
            bytes.len() as int
        };
        dump_row(sat_add(base, start), bytes.subrange(start as int, end)) + seq!['\n']
            + dump_rows_from(base, bytes, start + 16)
    }
}

/// A hex dump of `bytes`, whose first byte is at `base_offset`.
pub open spec fn hex_dump(base_offset: u64, bytes: Seq<u8>) -> Seq<char> {
    dump_rows_from(base_offset, bytes, 0)
}

/// How many sixteen-byte rows `n` bytes take.
pub open spec fn dump_row_count(n: nat) -> nat {
    (n + 15) / 16
}

/// The bytes of row `k` of a hex dump: sixteen from byte `16 * k`, fewer
/// in the last row.
pub open spec fn dump_row_bytes(bytes: Seq<u8>, k: int) -> Seq<u8> {
    let start = 16 * k;
    let end = if start + 16 <= bytes.len() {
        start + 16
    } else {
        bytes.len() as int
    };
    bytes.subrange(start, end)
}

/// Line `k` of a hex dump: the row of bytes `16 * k` on, labelled with
/// offset `base + 16 * k` (saturating), and a line feed.
pub open spec fn dump_line(base: u64, bytes: Seq<u8>, k: int) -> Seq<char> {
    dump_row(sat_add(base, (16 * k) as nat), dump_row_bytes(bytes, k)) + seq!['\n']
}

/// How line `k` of a hex dump starts: the offset `base + 16 * k`
/// (saturating) in at least eight hex digits, two spaces and the hex of the
/// row's bytes.
pub open spec fn dump_line_start(base: u64, bytes: Seq<u8>, k: int) -> Seq<char> {
    hex_padded(sat_add(base, (16 * k) as nat) as nat, 8) + "  "@ + hex_column(
        dump_row_bytes(bytes, k),
    )
}

proof fn lemma_dump_rows_from_lines(base: u64, bytes: Seq<u8>, j: nat)
    requires
        j <= dump_row_count(bytes.len()),
    ensures
        dump_rows_from(base, bytes, 16 * j) == Seq::new(
            (dump_row_count(bytes.len()) - j) as nat,
            |m: int| dump_line(base, bytes, j + m),
        ).flatten(),
    decreases dump_row_count(bytes.len()) - j,
{
    let n = bytes.len() as int;
    let rows = dump_row_count(bytes.len()) as int;
    let lines = Seq::new((rows - j) as nat, |m: int| dump_line(base, bytes, j + m));
    assert(16 * j < n <==> j < rows) by (nonlinear_arith)
        requires
            rows == (n + 15) / 16,
            n >= 0,
            j >= 0,
    ;
    if j == rows {
        assert(lines =~= Seq::<Seq<char>>::empty());
    } else {
        lemma_dump_rows_from_lines(base, bytes, j + 1);
        assert(16 * (j + 1) == 16 * j + 16);
        let rest = Seq::new((rows - (j + 1)) as nat, |m: int| dump_line(base, bytes, j + 1 + m));
        assert(lines.drop_first() =~= rest);
        assert(lines.first() == dump_line(base, bytes, j as int));
        assert(lines.flatten() == lines.first() + lines.drop_first().flatten());
    }
}

/// Row `k` of a hex dump of `bytes` from `base` covers bytes `16 * k` up to
/// sixteen more, and is labelled with offset `base + 16 * k` (saturating):
/// the dump is its lines in order, one per sixteen bytes, and line `k`
/// starts with that offset in at least eight hex digits, two spaces and the
/// hex of its bytes.
pub proof fn lemma_hex_dump_lines(base: u64, bytes: Seq<u8>)
    ensures
        hex_dump(base, bytes) == Seq::new(
            dump_row_count(bytes.len()),
            |k: int| dump_line(base, bytes, k),
        ).flatten(),
        forall|k: int|
            #![trigger dump_line(base, bytes, k)]
            0 <= k < dump_row_count(bytes.len()) ==> dump_line(base, bytes, k).take(
                dump_line_start(base, bytes, k).len() as int,
            ) == dump_line_start(base, bytes, k),
        forall|k: int|
            0 <= k < dump_row_count(bytes.len()) ==> 16 * k < bytes.len() && (
            #[trigger] dump_row_bytes(bytes, k)).len() == if 16 * k + 16 <= bytes.len() {
                16
            } else {
                bytes.len() - 16 * k
            },
{
    lemma_dump_rows_from_lines(base, bytes, 0);
    assert(Seq::new(dump_row_count(bytes.len()), |m: int| dump_line(base, bytes, 0 + m))
        =~= Seq::new(dump_row_count(bytes.len()), |k: int| dump_line(base, bytes, k)));
    assert forall|k: int|
        #![trigger dump_line(base, bytes, k)]
        0 <= k < dump_row_count(bytes.len()) implies dump_line(base, bytes, k).take(
        dump_line_start(base, bytes, k).len() as int,
    ) == dump_line_start(base, bytes, k) by {
        let prefix = dump_line_start(base, bytes, k);
        let line = dump_line(base, bytes, k);
        assert(line.take(prefix.len() as int) =~= prefix);
    }
    assert forall|k: int| 0 <= k < dump_row_count(bytes.len()) implies 16 * k < bytes.len() && (
    #[trigger] dump_row_bytes(bytes, k)).len() == if 16 * k + 16 <= bytes.len() {
        16
    } else {
        bytes.len() - 16 * k
    } by {
        let n = bytes.len() as int;
        assert(16 * k < n) by (nonlinear_arith)
            requires
                k < (n + 15) / 16,
                n >= 0,
                k >= 0,
        ;
    }
}

/// A hex dump of `bytes`, whose first byte sits at `base_offset` of the
/// stream.
pub fn hex_dump_bytes(base_offset: u64, bytes: &[u8]) -> (s: String)
    ensures
        s@ == hex_dump(base_offset, bytes@),
{
    let mut out: Vec<char> = Vec::new();
    let mut start: usize = 0;
    let len = bytes.len();
    while start < len
        invariant
            len == bytes@.len(),
            out@ + dump_rows_from(base_offset, bytes@, start as nat) == hex_dump(
                base_offset,
                bytes@,
            ),
        decreases len - start,
    {
        let end = if len - start >= 16 {
            start + 16
        } else {
            len
        };
        let piece = slice_of(bytes, start, end);
        let offset = base_offset.saturating_add(start as u64);
        let ghost before = out@;
        push_dump_row(&mut out, offset, piece.as_slice(), true);
        out.push('\n');
        assert(out@ + dump_rows_from(base_offset, bytes@, (start + 16) as nat) =~= before
            + dump_rows_from(base_offset, bytes@, start as nat));
        if len - start < 16 {
            assert(dump_rows_from(base_offset, bytes@, (start + 16) as nat) =~= seq![]);
            assert(out@ + seq![] =~= out@);
            return string_from_chars(&out);
        }
        start = start + 16;
    }
    assert(dump_rows_from(base_offset, bytes@, start as nat) =~= seq![]);
    assert(out@ + seq![] =~= out@);
    string_from_chars(&out)
}

/// Copies `bytes[start..end]`.
pub fn slice_of(bytes: &[u8], start: usize, end: usize) -> (v: Vec<u8>)
    requires
        start <= end <= bytes@.len(),
    ensures
        v@ == bytes@.subrange(start as int, end as int),
{
    let mut v: Vec<u8> = Vec::new();
    let mut i = start;
    while i < end
        invariant
            start <= i <= end <= bytes@.len(),
            v@ == bytes@.subrange(start as int, i as int),
        decreases end - i,
    {
        v.push(bytes[i]);
        assert(bytes@.subrange(start as int, i + 1) =~= bytes@.subrange(start as int, i as int).push(
            bytes@[i as int],
        ));
        i += 1;
    }
    v
}

/// The bytes as decimal numbers separated by single spaces.
pub open spec fn decimal_bytes(bytes: Seq<u8>) -> Seq<char>
    decreases bytes.len(),
{
    if bytes.len() == 0 {
        seq![]
    } else if bytes.len() == 1 {
        decimal(bytes[0] as nat)
    } else {
        decimal_bytes(bytes.drop_last()) + seq![' '] + decimal(bytes.last() as nat)
    }
}

/// How a window shows in a display mode: a hex dump (or `<empty chunk>`),
/// its text decoded as UTF-8, or its bytes in decimal.
pub open spec fn chunk_display(c: StreamChunk, mode: StreamViewMode) -> Seq<char> {
    match mode {
        StreamViewMode::Hex => if c.bytes@.len() == 0 {
            "<empty chunk>"@
        } else {
            hex_dump(c.offset, c.bytes@)
        },
        StreamViewMode::Text => utf8_lossy(c.bytes@),
        StreamViewMode::Bytes => decimal_bytes(c.bytes@),
    }
}

/// How a window shows in a display mode.
pub fn stream_chunk_display_text(chunk: &StreamChunk, view_mode: StreamViewMode) -> (s: String)
    ensures
        s@ == chunk_display(*chunk, view_mode),
        view_mode == StreamViewMode::Text && all_ascii_bytes(chunk.bytes@) ==> s@ == ascii_chars(
            chunk.bytes@,
        ),
{
    match view_mode {
        StreamViewMode::Hex => {
            if chunk.bytes.len() == 0 {
                String::from_str("<empty chunk>")
            } else {
                hex_dump_bytes(chunk.offset, chunk.bytes.as_slice())
            }
        },
        StreamViewMode::Text => {
            let chars = decode_utf8_lossy(chunk.bytes.as_slice());
            string_from_chars(&chars)
        },
        StreamViewMode::Bytes => {
            let mut out: Vec<char> = Vec::new();
            let mut i: usize = 0;
            assert(chunk.bytes@.take(0) =~= seq![]);
            while i < chunk.bytes.len()
                invariant
                    0 <= i <= chunk.bytes@.len(),
                    out@ == decimal_bytes(chunk.bytes@.take(i as int)),
                decreases chunk.bytes@.len() - i,
            {
                assert(chunk.bytes@.take(i + 1).drop_last() =~= chunk.bytes@.take(i as int));
                if i > 0 {
                    out.push(' ');
                } else {
                    assert(chunk.bytes@.take(1) =~= seq![chunk.bytes@[0]]);
                }
                push_decimal(&mut out, chunk.bytes[i] as u64);
                i += 1;
            }
            assert(chunk.bytes@.take(i as int) =~= chunk.bytes@);
            string_from_chars(&out)
        },
    }
}

/// How a window shows: the nice view for nice text, else the plain display.
pub open spec fn visible_text(c: StreamChunk, mode: StreamViewMode, preset: RealStreamPreset) -> Seq<
    char,
> {
    if preset == RealStreamPreset::Nice && mode == StreamViewMode::Text {
        nice_text(content_nice_lines(c.bytes@))
    } else {
        chunk_display(c, mode)
    }
}

/// How a window shows in the stream view.
pub fn real_stream_visible_text(
    chunk: &StreamChunk,
    view_mode: StreamViewMode,
    preset: RealStreamPreset,
) -> (s: String)
    ensures
        s@ == visible_text(*chunk, view_mode, preset),
{
    if preset == RealStreamPreset::Nice && view_mode == StreamViewMode::Text {
        pdf_content_stream_nice_text(chunk.bytes.as_slice())
    } else {
        stream_chunk_display_text(chunk, view_mode)
    }
}

/// The loaded windows as they show, one after another, separated by a
/// newline.
pub open spec fn chunks_visible_text(
    chunks: Seq<StreamChunk>,
    mode: StreamViewMode,
    preset: RealStreamPreset,
) -> Seq<char>
    decreases chunks.len(),
{
    if chunks.len() == 0 {
        seq![]
    } else if chunks.len() == 1 {
        visible_text(chunks[0], mode, preset)
    } else {
        chunks_visible_text(chunks.drop_last(), mode, preset) + seq!['\n'] + visible_text(
            chunks.last(),
            mode,
            preset,
        )
    }
}

/// The loaded windows as they show in the stream view.
pub fn real_stream_chunks_visible_text(
    chunks: &[StreamChunk],
    view_mode: StreamViewMode,
    preset: RealStreamPreset,
) -> (s: String)
    ensures
        s@ == chunks_visible_text(chunks@, view_mode, preset),
{
    let mut out = String::new();
    let mut i: usize = 0;
    assert(chunks@.take(0) =~= seq![]);
    while i < chunks.len()
        invariant
            0 <= i <= chunks@.len(),
            out@ == chunks_visible_text(chunks@.take(i as int), view_mode, preset),
        decreases chunks@.len() - i,
    {
        assert(chunks@.take(i + 1).drop_last() =~= chunks@.take(i as int));
        if i > 0 {
            out.append("\n");
            proof {
                reveal_strlit("\n");
            }
        } else {
            assert(chunks@.take(1) =~= seq![chunks@[0]]);
        }
        let text = real_stream_visible_text(&chunks[i], view_mode, preset);
        out.append(text.as_str());
        i += 1;
    }
    assert(chunks@.take(i as int) =~= chunks@);
    out
}

// ---------------------------------------------------------------------------
// The generated stream of the demo document
// ---------------------------------------------------------------------------
/// Length of the generated stream.
pub const STREAM_TOTAL_BYTES: usize = 67108864;

/// Bytes in the hex window of the generated stream.
pub const HEX_WINDOW_BYTES: usize = 512;

/// The generated stream's byte at `index`: `index * 31 + 17`, modulo 256.
pub open spec fn fake_byte(index: nat) -> u8 {
    (((index % 256) * 31 + 17) % 256) as u8
}

/// The generated stream's byte at `index`.
pub fn fake_stream_byte(index: usize) -> (b: u8)
    ensures
        b == fake_byte(index as nat),
{
    let low = (index % 256) as u32;
    ((low * 31 + 17) % 256) as u8
}

/// The generated bytes from `start` up to `end`.
pub open spec fn fake_bytes(start: nat, end: nat) -> Seq<u8> {
    Seq::new((end - start) as nat, |i: int| fake_byte((start + i) as nat))
}

/// Rows of the generated stream's hex dump from `line` up to `end`: sixteen
/// bytes a row, visible ASCII only in the character column.
pub open spec fn fake_rows(line: nat, end: nat) -> Seq<char>
    decreases end + 16 - line,
{
    if line >= end {
        seq![]
    } else {
        let line_end = if line + 16 <= end {
            line + 16
        } else {
            end
        };
        dump_row_with(line, fake_bytes(line, line_end), false) + seq!['\n'] + fake_rows(
            line + 16,
            end,
        )
    }
}

/// The hex dump of `len` generated bytes from `offset`, both kept within
/// the stream's length.
pub open spec fn fake_dump(offset: nat, len: nat) -> Seq<char> {
    let start = if offset <= STREAM_TOTAL_BYTES {
        offset
    } else {
        STREAM_TOTAL_BYTES as nat
    };
    let end = if start + len <= STREAM_TOTAL_BYTES {
        start + len
    } else {
        STREAM_TOTAL_BYTES as nat
    };
    fake_rows(start, end)
}

/// How many line feeds a text holds.
pub open spec fn count_newlines(t: Seq<char>) -> nat
    decreases t.len(),
{
    if t.len() == 0 {
        0
    } else {
        count_newlines(t.drop_last()) + if t.last() == '\n' {
            1nat
        } else {
            0nat
        }
    }
}

proof fn lemma_count_newlines_concat(a: Seq<char>, b: Seq<char>)
    ensures
        count_newlines(a + b) == count_newlines(a) + count_newlines(b),
    decreases b.len(),
{
    if b.len() == 0 {
        assert(a + b =~= a);
    } else {
        lemma_count_newlines_concat(a, b.drop_last());
        assert((a + b).drop_last() =~= a + b.drop_last());
    }
}

proof fn lemma_count_newlines_none(t: Seq<char>)
    requires
        !t.contains('\n'),
    ensures
        count_newlines(t) == 0,
    decreases t.len(),
{
    if t.len() > 0 {
        assert(t.last() == t[t.len() - 1]);
        assert(!t.drop_last().contains('\n')) by {
            if t.drop_last().contains('\n') {
                let k = choose|k: int| 0 <= k < t.drop_last().len() && t.drop_last()[k] == '\n';
                assert(t[k] == '\n');
            }
        }
        lemma_count_newlines_none(t.drop_last());
    }
}

proof fn lemma_hex_padded_no_newline(value: nat, width: nat)
    ensures
        !crate::text::hex_padded(value, width).contains('\n'),
    decreases width, value,
{
    let d = value % 16;
    assert(crate::text::hex_digit(d) != '\n') by {
        if d < 10 {
            assert(('0' as u32) + d >= 48);
        } else {
            assert(('a' as u32) + (d - 10) >= 97);
        }
    }
    if width == 0 {
        if value != 0 {
            lemma_hex_padded_no_newline(value / 16, 0);
            let r = crate::text::hex_padded(value / 16, 0);
            assert(!r.push(crate::text::hex_digit(d)).contains('\n')) by {
                if r.push(crate::text::hex_digit(d)).contains('\n') {
                    let k = choose|k: int|
                        0 <= k < r.push(crate::text::hex_digit(d)).len() && r.push(
                            crate::text::hex_digit(d),
                        )[k] == '\n';
                    if k < r.len() {
                        assert(r[k] == '\n');
                    }
                }
            }
        }
    } else {
        lemma_hex_padded_no_newline(value / 16, (width - 1) as nat);
        let r = crate::text::hex_padded(value / 16, (width - 1) as nat);
        assert(!r.push(crate::text::hex_digit(d)).contains('\n')) by {
            if r.push(crate::text::hex_digit(d)).contains('\n') {
                let k = choose|k: int|
                    0 <= k < r.push(crate::text::hex_digit(d)).len() && r.push(
                        crate::text::hex_digit(d),
                    )[k] == '\n';
                if k < r.len() {
                    assert(r[k] == '\n');
                }
            }
        }
    }
}

/// A text without line feeds, joined to another without, has none.
proof fn lemma_no_newline_concat(a: Seq<char>, b: Seq<char>)
    requires
        !a.contains('\n'),
        !b.contains('\n'),
    ensures
        !(a + b).contains('\n'),
{
    if (a + b).contains('\n') {
        let k = choose|k: int| 0 <= k < (a + b).len() && (a + b)[k] == '\n';
        if k < a.len() {
            assert(a[k] == '\n');
        } else {
            assert(b[k - a.len()] == '\n');
        }
    }
}

proof fn lemma_hex_column_no_newline(bytes: Seq<u8>)
    ensures
        !hex_column(bytes).contains('\n'),
    decreases bytes.len(),
{
    if bytes.len() > 0 {
        lemma_hex_column_no_newline(bytes.drop_last());
        lemma_hex_padded_no_newline(bytes.last() as nat, 2);
        lemma_no_newline_concat(
            hex_column(bytes.drop_last()),
            crate::text::hex_padded(bytes.last() as nat, 2),
        );
        assert(!seq![' '].contains('\n')) by {
            if seq![' '].contains('\n') {
                assert(seq![' '][0] == ' ');
            }
        }
        lemma_no_newline_concat(
            hex_column(bytes.drop_last()) + crate::text::hex_padded(bytes.last() as nat, 2),
            seq![' '],
        );
    }
}

/// A hex dump row holds no line feed.
proof fn lemma_dump_row_no_newline(offset: nat, bytes: Seq<u8>, keep_space: bool)
    ensures
        !dump_row_with(offset, bytes, keep_space).contains('\n'),
{
    reveal_strlit("  ");
    lemma_hex_padded_no_newline(offset, 8);
    lemma_hex_column_no_newline(bytes);
    let pad = Seq::new((3 * (16 - bytes.len())) as nat, |i: int| ' ');
    let cc = char_column(bytes, keep_space);
    assert(!"  "@.contains('\n')) by {
        if "  "@.contains('\n') {
            let k = choose|k: int| 0 <= k < "  "@.len() && "  "@[k] == '\n';
        }
    }
    assert(!pad.contains('\n'));
    assert(!seq![' '].contains('\n')) by {
        if seq![' '].contains('\n') {
            assert(seq![' '][0] == ' ');
        }
    }
    assert(!cc.contains('\n')) by {
        if cc.contains('\n') {
            let k = choose|k: int| 0 <= k < cc.len() && cc[k] == '\n';
            assert(cc[k] == dump_char(bytes[k], keep_space));
        }
    }
    let h = crate::text::hex_padded(offset, 8);
    lemma_no_newline_concat(h, "  "@);
    lemma_no_newline_concat(h + "  "@, hex_column(bytes));
    lemma_no_newline_concat(h + "  "@ + hex_column(bytes), pad);
    lemma_no_newline_concat(h + "  "@ + hex_column(bytes) + pad, seq![' ']);
    lemma_no_newline_concat(h + "  "@ + hex_column(bytes) + pad + seq![' '], cc);
}

/// How many sixteen-byte rows the bytes from `line` to `end` take.
pub open spec fn rows_between(line: nat, end: nat) -> nat {
    if line >= end {
        0
    } else {
        ((end - line + 15) / 16) as nat
    }
}

proof fn lemma_fake_rows_count(line: nat, end: nat)
    ensures
        count_newlines(fake_rows(line, end)) == rows_between(line, end),
        fake_rows(line, end).len() == 0 <==> line >= end,
    decreases end + 16 - line,
{
    if line < end {
        let line_end = if line + 16 <= end {
            line + 16
        } else {
            end
        };
        let row = dump_row_with(line, fake_bytes(line, line_end), false);
        lemma_fake_rows_count(line + 16, end);
        lemma_dump_row_no_newline(line, fake_bytes(line, line_end), false);
        lemma_count_newlines_none(row);
        let nl = seq!['\n'];
        assert(count_newlines(nl) == 1) by {
            assert(nl.drop_last() =~= Seq::<char>::empty());
            assert(count_newlines(Seq::<char>::empty()) == 0);
            assert(nl.last() == '\n');
            assert(count_newlines(nl) == count_newlines(nl.drop_last()) + 1);
        }
        lemma_count_newlines_concat(row, nl);
        lemma_count_newlines_concat(row + nl, fake_rows(line + 16, end));
        let n = (end - line) as int;
        if line + 16 >= end {
            assert((n + 15) / 16 == 1) by (nonlinear_arith)
                requires
                    1 <= n <= 16,
            ;
        } else {
            assert((n + 15) / 16 == 1 + (n - 16 + 15) / 16) by (nonlinear_arith)
                requires
                    n > 16,
            ;
        }
    }
}

/// The line of the generated stream's hex dump that starts at byte `line`
/// of a range ending at `end`: the row of up to sixteen bytes and a line
/// feed.
pub open spec fn fake_row_line(line: nat, end: nat) -> Seq<char> {
    let line_end = if line + 16 <= end {
        line + 16
    } else {
        end
    };
    dump_row_with(line, fake_bytes(line, line_end), false) + seq!['\n']
}

/// The lines of the generated stream's hex dump from `line` to `end`, one
/// per sixteen bytes.
pub open spec fn fake_row_lines(line: nat, end: nat) -> Seq<Seq<char>> {
    Seq::new(rows_between(line, end), |k: int| fake_row_line((line + 16 * k) as nat, end))
}

proof fn lemma_fake_rows_lines(line: nat, end: nat)
    ensures
        fake_rows(line, end) == fake_row_lines(line, end).flatten(),
    decreases end + 16 - line,
{
    let rows = fake_row_lines(line, end);
    if line >= end {
        assert(rows =~= Seq::<Seq<char>>::empty());
    } else {
        lemma_fake_rows_lines(line + 16, end);
        lemma_fake_rows_count(line, end);
        lemma_fake_rows_count(line + 16, end);
        let n = (end - line) as int;
        if line + 16 >= end {
            assert((n + 15) / 16 == 1) by (nonlinear_arith)
                requires
                    1 <= n <= 16,
            ;
            assert(rows_between(line + 16, end) == 0);
        } else {
            assert((n + 15) / 16 == 1 + (n - 16 + 15) / 16) by (nonlinear_arith)
                requires
                    n > 16,
            ;
        }
        assert(rows.len() == 1 + rows_between(line + 16, end));
        assert(rows.first() == fake_row_line(line, end));
        assert(rows.drop_first() =~= fake_row_lines(line + 16, end)) by {
            assert forall|k: int| 0 <= k < rows.len() - 1 implies #[trigger] rows.drop_first()[k]
                == fake_row_lines(line + 16, end)[k] by {
                assert(((line + 16 * (k + 1)) as nat) == (((line + 16) as nat + 16 * k) as nat));
            }
        }
        assert(rows.flatten() == rows.first() + rows.drop_first().flatten());
    }
}

/// The generated stream's hex dump of `len` bytes from `offset` (both kept
/// within the stream) has one line per sixteen bytes, each ending in a line
/// feed, and is empty exactly when no byte is in range. Line `k` is the row
/// at byte `s + 16 * k`: its offset in eight hex digits, two spaces and the
/// hex of the generated bytes from there up to sixteen more or the end.
pub proof fn lemma_fake_dump_rows(offset: nat, len: nat)
    ensures
        ({
            let s = if offset <= STREAM_TOTAL_BYTES {
                offset
            } else {
                STREAM_TOTAL_BYTES as nat
            };
            let e = if s + len <= STREAM_TOTAL_BYTES {
                s + len
            } else {
                STREAM_TOTAL_BYTES as nat
            };
            &&& count_newlines(fake_dump(offset, len)) == rows_between(s, e)
            &&& (fake_dump(offset, len).len() == 0 <==> s == e)
            &&& fake_dump(offset, len).len() > 0 ==> fake_dump(offset, len).last() == '\n'
            &&& fake_dump(offset, len) == fake_row_lines(s, e).flatten()
        }),
{
    let s = if offset <= STREAM_TOTAL_BYTES {
        offset
    } else {
        STREAM_TOTAL_BYTES as nat
    };
    let e = if s + len <= STREAM_TOTAL_BYTES {
        s + len
    } else {
        STREAM_TOTAL_BYTES as nat
    };
    lemma_fake_rows_count(s, e);
    lemma_fake_rows_last(s, e);
    lemma_fake_rows_lines(s, e);
}

proof fn lemma_fake_rows_last(line: nat, end: nat)
    ensures
        fake_rows(line, end).len() > 0 ==> fake_rows(line, end).last() == '\n',
    decreases end + 16 - line,
{
    if line < end {
        lemma_fake_rows_last(line + 16, end);
        let line_end = if line + 16 <= end {
            line + 16
        } else {
            end
        };
        let a = dump_row_with(line, fake_bytes(line, line_end), false) + seq!['\n'];
        let b = fake_rows(line + 16, end);
        if b.len() == 0 {
            assert(a + b =~= a);
        } else {
            assert((a + b).last() == b.last());
        }
    }
}

/// The generated stream of the demo document, its hex window and the
/// selection to copy.
#[derive(Clone, Debug)]
pub struct LargeStreamModel {
    pub offset: usize,
    pub selection_offset: usize,
    pub selection_len: usize,
    pub hex_text: String,
    pub hex_text_offset: usize,
    pub selected_hex_text: Option<String>,
}

impl Default for LargeStreamModel {
    fn default() -> (m: LargeStreamModel)
        ensures
            m.offset == 0,
            m.selection_offset == 0,
            m.selection_len == 256,
            m.hex_text@ == fake_dump(0, HEX_WINDOW_BYTES as nat),
            m.hex_text_offset == 0,
            m.selected_hex_text is None,
    {
        let mut model = LargeStreamModel {
            offset: 0,
            selection_offset: 0,
            selection_len: 256,
            hex_text: String::new(),
            hex_text_offset: usize::MAX,
            selected_hex_text: None,
        };
        model.sync_hex_window();
        model
    }
}

impl LargeStreamModel {
    /// The hex dump of the window at the current offset.
    pub fn hex_window(&self) -> (s: String)
        ensures
            s@ == fake_dump(self.offset as nat, HEX_WINDOW_BYTES as nat),
    {
        self.hex_dump(self.offset, HEX_WINDOW_BYTES)
    }

    /// Rebuilds the hex window when the offset moved, dropping the selected
    /// text; keeps it otherwise.
    pub fn sync_hex_window(&mut self)
        ensures
            final(self).offset == old(self).offset,
            final(self).selection_offset == old(self).selection_offset,
            final(self).selection_len == old(self).selection_len,
            old(self).hex_text_offset != old(self).offset ==> {
                &&& final(self).hex_text@ == fake_dump(old(self).offset as nat, HEX_WINDOW_BYTES as nat)
                &&& final(self).hex_text_offset == old(self).offset
                &&& final(self).selected_hex_text is None
            },
            old(self).hex_text_offset == old(self).offset ==> *final(self) == *old(self),
    {
        if self.hex_text_offset != self.offset {
            self.reset_hex_window();
            self.selected_hex_text = None;
        }
    }

    /// Puts the canonical dump of the current window back into the hex text.
    pub fn reset_hex_window(&mut self)
        ensures
            final(self).hex_text@ == fake_dump(old(self).offset as nat, HEX_WINDOW_BYTES as nat),
            final(self).hex_text_offset == old(self).offset,
            final(self).offset == old(self).offset,
            final(self).selection_offset == old(self).selection_offset,
            final(self).selection_len == old(self).selection_len,
            final(self).selected_hex_text == old(self).selected_hex_text,
    {
        self.hex_text = self.hex_window();
        self.hex_text_offset = self.offset;
    }

    /// What a copy takes: the selected hex text when there is some, else the
    /// byte range.
    pub fn copy_source_label(&self) -> (s: &'static str)
        ensures
            s@ == (if self.selected_hex_text matches Some(t) && t@.len() > 0 {
                "selected hex text"@
            } else {
                "byte range"@
            }),
    {
        match &self.selected_hex_text {
            Some(t) => if !t.as_str().is_empty() {
                "selected hex text"
            } else {
                "byte range"
            },
            None => "byte range",
        }
    }

    /// The hex dump of `len` generated bytes from `offset`.
    pub fn hex_dump(&self, offset: usize, len: usize) -> (s: String)
        ensures
            s@ == fake_dump(offset as nat, len as nat),
    {
        let start = if offset <= STREAM_TOTAL_BYTES {
            offset
        } else {
            STREAM_TOTAL_BYTES
        };
        let end = if len <= STREAM_TOTAL_BYTES - start {
            start + len
        } else {
            STREAM_TOTAL_BYTES
        };
        let mut out: Vec<char> = Vec::new();
        let mut line = start;
        while line < end
            invariant
                start <= line,
                end <= STREAM_TOTAL_BYTES,
                line <= end + 16,
                out@ + fake_rows(line as nat, end as nat) == fake_rows(start as nat, end as nat),
            decreases end + 16 - line,
        {
            let line_end = if end - line >= 16 {
                line + 16
            } else {
                end
            };
            let mut bytes: Vec<u8> = Vec::new();
            let mut i = line;
            while i < line_end
                invariant
                    line <= i <= line_end,
                    bytes@ == fake_bytes(line as nat, i as nat),
                decreases line_end - i,
            {
                bytes.push(fake_stream_byte(i));
                assert(bytes@ =~= fake_bytes(line as nat, (i + 1) as nat));
                i += 1;
            }
            let ghost before = out@;
            push_dump_row(&mut out, line as u64, bytes.as_slice(), false);
            out.push('\n');
            assert(out@ + fake_rows((line + 16) as nat, end as nat) =~= before + fake_rows(
                line as nat,
                end as nat,
            ));
            line = line + 16;
        }
        assert(fake_rows(line as nat, end as nat) =~= seq![]);
        assert(out@ + seq![] =~= out@);
        string_from_chars(&out)
    }
}

// ---------------------------------------------------------------------------
// Loaded windows
// ---------------------------------------------------------------------------
/// Which window of which stream: object, read mode, offset and length.
#[derive(Clone, Copy, Debug, PartialEq, Eq, Structural)]
pub struct RealStreamKey {
    pub object: ObjectId,
    pub mode: StreamMode,
    pub offset: u64,
    pub limit: usize,
}

/// A loaded window and the key it was loaded for.
#[derive(Clone, Debug)]
pub struct RealStreamLoadedWindow {
    pub key: RealStreamKey,
    pub chunk: StreamChunk,
}

/// Whether windows are in order of offset.
pub open spec fn offsets_sorted(ws: Seq<RealStreamLoadedWindow>) -> bool {
    forall|i: int, j: int| 0 <= i < j < ws.len() ==> ws[i].key.offset <= ws[j].key.offset
}

/// Whether no key occurs twice.
pub open spec fn keys_distinct(ws: Seq<RealStreamLoadedWindow>) -> bool {
    forall|i: int, j: int| 0 <= i < j < ws.len() ==> ws[i].key != ws[j].key
}

/// Where `key`'s window is, or -1.
pub open spec fn key_position(ws: Seq<RealStreamLoadedWindow>, key: RealStreamKey) -> int
    decreases ws.len(),
{
    if ws.len() == 0 {
        -1
    } else if ws[0].key == key {
        0
    } else {
        let r = key_position(ws.drop_first(), key);
        if r < 0 {
            -1
        } else {
            r + 1
        }
    }
}

/// The first position whose window starts after `offset`.
pub open spec fn after_offset(ws: Seq<RealStreamLoadedWindow>, offset: u64) -> nat
    decreases ws.len(),
{
    if ws.len() == 0 {
        0
    } else if ws[0].key.offset > offset {
        0
    } else {
        1 + after_offset(ws.drop_first(), offset)
    }
}

/// The windows with `w` in place: replacing the window of the same key, or
/// else inserted after every window that does not start later.
pub open spec fn place_window(ws: Seq<RealStreamLoadedWindow>, w: RealStreamLoadedWindow) -> Seq<
    RealStreamLoadedWindow,
> {
    let p = key_position(ws, w.key);
    if p >= 0 {
        ws.update(p, w)
    } else {
        ws.insert(after_offset(ws, w.key.offset) as int, w)
    }
}

/// `a - b`, or 0 when `b` is larger.
pub open spec fn sat_sub(a: u64, b: u64) -> nat {
    if a >= b {
        (a - b) as nat
    } else {
        0
    }
}

/// The windows kept around `offset`: while there are more than five, the
/// end farther from `offset` goes (the last one when both are as far).
pub open spec fn evict_windows(ws: Seq<RealStreamLoadedWindow>, offset: u64) -> Seq<
    RealStreamLoadedWindow,
>
    decreases ws.len(),
{
    if ws.len() <= REAL_STREAM_MAX_LOADED_WINDOWS {
        ws
    } else if sat_sub(offset, ws[0].key.offset) > sat_sub(ws.last().key.offset, offset) {
        evict_windows(ws.drop_first(), offset)
    } else {
        evict_windows(ws.drop_last(), offset)
    }
}

/// The windows the stream view keeps loaded around the one in view.
pub struct RealStreamWindowCache {
    windows: VecDeque<RealStreamLoadedWindow>,
}

/// Whether a window list is well formed: sorted by offset, keys distinct, at
/// most five windows.
pub open spec fn windows_wf(ws: Seq<RealStreamLoadedWindow>) -> bool {
    offsets_sorted(ws) && keys_distinct(ws) && ws.len() <= REAL_STREAM_MAX_LOADED_WINDOWS
}

pub proof fn lemma_key_position(ws: Seq<RealStreamLoadedWindow>, key: RealStreamKey)
    ensures
        -1 <= key_position(ws, key) < ws.len(),
        key_position(ws, key) >= 0 ==> ws[key_position(ws, key)].key == key,
        key_position(ws, key) < 0 ==> forall|i: int| 0 <= i < ws.len() ==> ws[i].key != key,
        forall|i: int| 0 <= i < key_position(ws, key) ==> ws[i].key != key,
    decreases ws.len(),
{
    if ws.len() > 0 && ws[0].key != key {
        lemma_key_position(ws.drop_first(), key);
        assert forall|i: int| 0 < i < ws.len() implies ws[i] == ws.drop_first()[i - 1] by {}
    }
}

pub proof fn lemma_after_offset(ws: Seq<RealStreamLoadedWindow>, offset: u64)
    requires
        offsets_sorted(ws),
    ensures
        after_offset(ws, offset) <= ws.len(),
        forall|i: int| 0 <= i < after_offset(ws, offset) ==> ws[i].key.offset <= offset,
        forall|i: int| after_offset(ws, offset) <= i < ws.len() ==> ws[i].key.offset > offset,
    decreases ws.len(),
{
    if ws.len() > 0 && ws[0].key.offset <= offset {
        let rest = ws.drop_first();
        assert(offsets_sorted(rest));
        lemma_after_offset(rest, offset);
        assert forall|i: int| 0 < i < ws.len() implies ws[i] == rest[i - 1] by {}
    }
}

pub proof fn lemma_evict_wf(ws: Seq<RealStreamLoadedWindow>, offset: u64)
    requires
        offsets_sorted(ws),
        keys_distinct(ws),
    ensures
        windows_wf(evict_windows(ws, offset)),
    decreases ws.len(),
{
    if ws.len() > REAL_STREAM_MAX_LOADED_WINDOWS {
        if sat_sub(offset, ws[0].key.offset) > sat_sub(ws.last().key.offset, offset) {
            let r = ws.drop_first();
            assert forall|i: int, j: int| 0 <= i < j < r.len() implies r[i].key.offset
                <= r[j].key.offset && r[i].key != r[j].key by {
                assert(r[i] == ws[i + 1] && r[j] == ws[j + 1]);
            }
            lemma_evict_wf(r, offset);
        } else {
            let r = ws.drop_last();
            assert forall|i: int, j: int| 0 <= i < j < r.len() implies r[i].key.offset
                <= r[j].key.offset && r[i].key != r[j].key by {
                assert(r[i] == ws[i] && r[j] == ws[j]);
            }
            lemma_evict_wf(r, offset);
        }
    }
}

pub proof fn lemma_place_window(ws: Seq<RealStreamLoadedWindow>, w: RealStreamLoadedWindow)
    requires
        offsets_sorted(ws),
        keys_distinct(ws),
    ensures
        offsets_sorted(place_window(ws, w)),
        keys_distinct(place_window(ws, w)),
{
    lemma_key_position(ws, w.key);
    let p = key_position(ws, w.key);
    if p >= 0 {
        let r = ws.update(p, w);
        assert forall|i: int, j: int| 0 <= i < j < r.len() implies r[i].key.offset
            <= r[j].key.offset && r[i].key != r[j].key by {
            if i == p {
                assert(ws[i].key == w.key);
            }
            if j == p {
                assert(ws[j].key == w.key);
            }
        }
    } else {
        lemma_after_offset(ws, w.key.offset);
        let q = after_offset(ws, w.key.offset) as int;
        let r = ws.insert(q, w);
        assert forall|i: int, j: int| 0 <= i < j < r.len() implies r[i].key.offset
            <= r[j].key.offset && r[i].key != r[j].key by {
            if j < q {
                assert(r[i] == ws[i] && r[j] == ws[j]);
            } else if j == q {
                assert(r[i] == ws[i]);
            } else if i < q {
                assert(r[i] == ws[i] && r[j] == ws[j - 1]);
            } else if i == q {
                assert(r[j] == ws[j - 1]);
            } else {
                assert(r[i] == ws[i - 1] && r[j] == ws[j - 1]);
            }
        }
    }
}

/// Whether no window but the one at `q` starts at its offset.
pub open spec fn only_window_at_offset(ws: Seq<RealStreamLoadedWindow>, q: int) -> bool {
    forall|i: int| 0 <= i < ws.len() && i != q ==> #[trigger] ws[i].key.offset != ws[q].key.offset
}

/// Eviction around a window's own offset keeps that window when no other
/// window starts there; gives where it ends up.
proof fn lemma_evict_keeps(ws: Seq<RealStreamLoadedWindow>, q: int) -> (j: int)
    requires
        offsets_sorted(ws),
        0 <= q < ws.len(),
        only_window_at_offset(ws, q),
    ensures
        0 <= j < evict_windows(ws, ws[q].key.offset).len(),
        evict_windows(ws, ws[q].key.offset)[j] == ws[q],
    decreases ws.len(),
{
    let offset = ws[q].key.offset;
    if ws.len() <= REAL_STREAM_MAX_LOADED_WINDOWS {
        q
    } else if sat_sub(offset, ws[0].key.offset) > sat_sub(ws.last().key.offset, offset) {
        let r = ws.drop_first();
        assert(q != 0);
        assert(r[q - 1] == ws[q]);
        assert forall|i: int, k: int| 0 <= i < k < r.len() implies r[i].key.offset
            <= r[k].key.offset by {
            assert(r[i] == ws[i + 1] && r[k] == ws[k + 1]);
        }
        assert forall|i: int| 0 <= i < r.len() && i != q - 1 implies #[trigger] r[i].key.offset
            != r[q - 1].key.offset by {
            assert(r[i] == ws[i + 1]);
        }
        lemma_evict_keeps(r, q - 1)
    } else {
        let r = ws.drop_last();
        let last = ws.len() - 1;
        if q == last {
            assert(ws[0].key.offset <= ws[q].key.offset);
            assert(ws[0].key.offset != ws[q].key.offset);
            assert(false);
        }
        assert(r[q] == ws[q]);
        assert forall|i: int, k: int| 0 <= i < k < r.len() implies r[i].key.offset
            <= r[k].key.offset by {
            assert(r[i] == ws[i] && r[k] == ws[k]);
        }
        assert forall|i: int| 0 <= i < r.len() && i != q implies #[trigger] r[i].key.offset
            != r[q].key.offset by {
            assert(r[i] == ws[i]);
        }
        lemma_evict_keeps(r, q)
    }
}

/// A window just loaded is found again by its key, with the bytes loaded,
/// unless another loaded window starts at the same offset (then the
/// eviction may drop it, as it drops the later of equally far ends).
pub proof fn lemma_loaded_window_found(
    ws: Seq<RealStreamLoadedWindow>,
    key: RealStreamKey,
    chunk: StreamChunk,
)
    requires
        windows_wf(ws),
        forall|i: int| 0 <= i < ws.len() && #[trigger] ws[i].key != key ==> ws[i].key.offset != key.offset,
    ensures
        ({
            let w = RealStreamLoadedWindow { key, chunk };
            let r = evict_windows(place_window(ws, w), key.offset);
            key_position(r, key) >= 0 && r[key_position(r, key)] == w
        }),
{
    let w = RealStreamLoadedWindow { key, chunk };
    let pl = place_window(ws, w);
    lemma_place_window(ws, w);
    lemma_key_position(ws, key);
    lemma_after_offset(ws, key.offset);
    let p = key_position(ws, key);
    let q: int = if p >= 0 {
        p
    } else {
        after_offset(ws, key.offset) as int
    };
    assert(pl[q] == w);
    assert forall|i: int| 0 <= i < pl.len() && i != q implies #[trigger] pl[i].key.offset
        != pl[q].key.offset by {
        if p >= 0 {
            assert(pl[i] == ws[i]);
            assert(ws[i].key != key);
        } else if i < q {
            assert(pl[i] == ws[i]);
        } else {
            assert(pl[i] == ws[i - 1]);
        }
    }
    let j = lemma_evict_keeps(pl, q);
    let r = evict_windows(pl, key.offset);
    lemma_evict_wf(pl, key.offset);
    lemma_key_position(r, key);
    let kp = key_position(r, key);
    assert(r[j].key == key);
    if kp != j {
        assert(kp >= 0);
        assert(r[kp].key == key);
    }
}

impl RealStreamWindowCache {
    #[verifier::type_invariant]
    spec fn well_formed(self) -> bool {
        windows_wf(self.windows@)
    }

    /// The loaded windows, in order of offset.
    pub closed spec fn windows(self) -> Seq<RealStreamLoadedWindow> {
        self.windows@
    }

    /// No windows loaded.
    pub fn new() -> (c: RealStreamWindowCache)
        ensures
            c.windows() == Seq::<RealStreamLoadedWindow>::empty(),
    {
        RealStreamWindowCache { windows: VecDeque::new() }
    }

    /// How many windows are loaded.
    pub fn len(&self) -> (n: usize)
        ensures
            n == self.windows().len(),
            n <= REAL_STREAM_MAX_LOADED_WINDOWS,
    {
        proof {
            use_type_invariant(self);
        }
        self.windows.len()
    }

    /// The window at position `i`, in order of offset.
    pub fn window(&self, i: usize) -> (w: Option<&RealStreamLoadedWindow>)
        ensures
            i < self.windows().len() ==> w == Some(&self.windows()[i as int]),
            i >= self.windows().len() ==> w is None,
    {
        if i < self.windows.len() {
            Some(&self.windows[i])
        } else {
            None
        }
    }

    /// The loaded window for `key`, if there is one.
    pub fn real_stream_cached_window(&self, key: RealStreamKey) -> (w: Option<
        &RealStreamLoadedWindow,
    >)
        ensures
            key_position(self.windows(), key) >= 0 ==> w == Some(
                &self.windows()[key_position(self.windows(), key)],
            ),
            key_position(self.windows(), key) < 0 ==> w is None,
    {
        proof {
            lemma_key_position(self.windows@, key);
        }
        let mut i: usize = 0;
        let n = self.windows.len();
        while i < n
            invariant
                n == self.windows@.len(),
                0 <= i <= n,
                forall|k: int| 0 <= k < i ==> self.windows@[k].key != key,
                -1 <= key_position(self.windows@, key) < n,
                key_position(self.windows@, key) >= 0 ==> self.windows@[key_position(
                    self.windows@,
                    key,
                )].key == key,
                forall|k: int| 0 <= k < key_position(self.windows@, key) ==> self.windows@[k].key
                    != key,
                key_position(self.windows@, key) < 0 ==> forall|k: int|
                    0 <= k < n ==> self.windows@[k].key != key,
            decreases n - i,
        {
            if self.windows[i].key == key {
                return Some(&self.windows[i]);
            }
            i += 1;
        }
        None
    }

    /// Loads `chunk` as the window for `key`: it replaces the window of the
    /// same key, or joins the others in order of offset; then, while more
    /// than five are loaded, the end farther from `key` is dropped.
    pub fn insert_real_stream_window(&mut self, key: RealStreamKey, chunk: StreamChunk)
        ensures
            windows_wf(final(self).windows()),
            final(self).windows() == evict_windows(
                place_window(old(self).windows(), RealStreamLoadedWindow { key, chunk }),
                key.offset,
            ),
    {
        proof {
            use_type_invariant(&*self);
        }
        let mut ws: VecDeque<RealStreamLoadedWindow> = VecDeque::new();
        std::mem::swap(&mut ws, &mut self.windows);
        let ghost old_ws = ws@;
        let ghost w = RealStreamLoadedWindow { key, chunk };
        proof {
            lemma_key_position(old_ws, key);
            lemma_after_offset(old_ws, key.offset);
            lemma_place_window(old_ws, w);
        }
        let n = ws.len();
        let mut i: usize = 0;
        while i < n && ws[i].key != key
            invariant
                n == ws@.len(),
                ws@ == old_ws,
                0 <= i <= n,
                forall|k: int| 0 <= k < i ==> ws@[k].key != key,
                -1 <= key_position(ws@, key) < n,
                key_position(ws@, key) >= 0 ==> ws@[key_position(ws@, key)].key == key,
                forall|k: int| 0 <= k < key_position(ws@, key) ==> ws@[k].key != key,
            decreases n - i,
        {
            i += 1;
        }
        if i < n {
            assert(key_position(old_ws, key) == i);
            let _ = ws.remove(i);
            ws.insert(i, RealStreamLoadedWindow { key, chunk });
            assert(ws@ =~= old_ws.update(i as int, w));
        } else {
            let mut q: usize = 0;
            while q < n && ws[q].key.offset <= key.offset
                invariant
                    n == ws@.len(),
                    ws@ == old_ws,
                    0 <= q <= n,
                    q <= after_offset(old_ws, key.offset),
                    after_offset(old_ws, key.offset) <= n,
                    forall|k: int|
                        after_offset(old_ws, key.offset) <= k < n ==> old_ws[k].key.offset
                            > key.offset,
                decreases n - q,
            {
                q += 1;
            }
            assert(q == after_offset(old_ws, key.offset));
            ws.insert(q, RealStreamLoadedWindow { key, chunk });
        }
        let ghost placed = ws@;
        assert(placed == place_window(old_ws, w));
        while ws.len() > REAL_STREAM_MAX_LOADED_WINDOWS
            invariant
                offsets_sorted(ws@),
                keys_distinct(ws@),
                evict_windows(ws@, key.offset) == evict_windows(placed, key.offset),
            decreases ws@.len(),
        {
            let last = ws.len() - 1;
            let front = ws[0].key.offset;
            let back = ws[last].key.offset;
            let front_distance = if key.offset >= front {
                key.offset - front
            } else {
                0
            };
            let back_distance = if back >= key.offset {
                back - key.offset
            } else {
                0
            };
            let ghost before = ws@;
            if front_distance > back_distance {
                let _ = ws.pop_front();
                assert(ws@ =~= before.drop_first());
            } else {
                let _ = ws.pop_back();
                assert(ws@ =~= before.drop_last());
            }
            proof {
                assert forall|a: int, b: int| 0 <= a < b < ws@.len() implies ws@[a].key.offset
                    <= ws@[b].key.offset && ws@[a].key != ws@[b].key by {
                    if front_distance > back_distance {
                        assert(ws@[a] == before[a + 1] && ws@[b] == before[b + 1]);
                    } else {
                        assert(ws@[a] == before[a] && ws@[b] == before[b]);
                    }
                }
            }
        }
        self.windows = ws;
        proof {
            use_type_invariant(&*self);
        }
    }
}

} // verus!
