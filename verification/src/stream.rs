//! The stream inspector: the nice view across loaded windows, its block
//! structure and selections.
//!
//! Every nice-view row gets a key made of the object, the first loaded
//! offset, its index and its text. A row that opens a block keys that
//! block; every other row belongs to the innermost open block around it.
use vstd::prelude::*;
use crate::content::{char_vec_views, content_tokens, string_views};
use crate::fragments::{
    dedupe_fragment_chars, dedupe_fragments, line_decodable, line_fragment_chars, line_fragments,
    normalized_key, normalized_key_chars, strings_of,
};
use crate::model::{ObjectId, StreamChunk, TextSearchHit};
use crate::nice::{
    content_nice_lines, line_views, pdf_content_stream_nice_lines, NiceLine, NiceStreamLine,
};
use crate::text::{
    chars_eq, chars_of, decimal, push_all, push_decimal, seq_utf8_len, string_from_chars,
    lemma_seq_utf8_len_push, char_utf8_len,
};

verus! {

/// The nice-view lines of the loaded windows, window after window.
pub open spec fn chunks_nice_lines(chunks: Seq<StreamChunk>) -> Seq<NiceLine>
    decreases chunks.len(),
{
    if chunks.len() == 0 {
        seq![]
    } else {
        chunks_nice_lines(chunks.drop_last()) + content_nice_lines(chunks.last().bytes@)
    }
}

/// The nice-view lines of the loaded windows, window after window.
pub fn real_stream_chunks_nice_lines(chunks: &[StreamChunk]) -> (lines: Vec<NiceStreamLine>)
    ensures
        line_views(lines@) == chunks_nice_lines(chunks@),
{
    let mut lines: Vec<NiceStreamLine> = Vec::new();
    let mut i: usize = 0;
    assert(chunks@.take(0) =~= seq![]);
    assert(line_views(lines@) =~= seq![]);
    while i < chunks.len()
        invariant
            0 <= i <= chunks@.len(),
            line_views(lines@) == chunks_nice_lines(chunks@.take(i as int)),
        decreases chunks@.len() - i,
    {
        assert(chunks@.take(i + 1).drop_last() =~= chunks@.take(i as int));
        let mut more = pdf_content_stream_nice_lines(chunks[i].bytes.as_slice());
        let ghost before = line_views(lines@);
        let ghost added = line_views(more@);
        lines.append(&mut more);
        assert(line_views(lines@) =~= before + added);
        i += 1;
    }
    assert(chunks@.take(i as int) =~= chunks@);
    lines
}

/// Where the loaded windows start.
pub open spec fn first_offset(chunks: Seq<StreamChunk>) -> u64 {
    if chunks.len() > 0 {
        chunks[0].offset
    } else {
        0
    }
}

/// The key of a nice-view row: `num:gen:first_offset:index:text`.
pub open spec fn line_key_text(object: ObjectId, offset: u64, index: nat, text: Seq<char>) -> Seq<
    char,
> {
    decimal(object.num as nat) + seq![':'] + decimal(object.gen as nat) + seq![':'] + decimal(
        offset as nat,
    ) + seq![':'] + decimal(index) + seq![':'] + text
}

/// The key of a nice-view row.
pub fn nice_stream_line_key(
    object: ObjectId,
    chunks: &[StreamChunk],
    line_index: usize,
    line: &NiceStreamLine,
) -> (key: String)
    ensures
        key@ == line_key_text(object, first_offset(chunks@), line_index as nat, line.text@),
{
    let offset = if chunks.len() > 0 {
        chunks[0].offset
    } else {
        0
    };
    let mut out: Vec<char> = Vec::new();
    push_decimal(&mut out, object.num as u64);
    out.push(':');
    push_decimal(&mut out, object.gen as u64);
    out.push(':');
    push_decimal(&mut out, offset);
    out.push(':');
    push_decimal(&mut out, line_index as u64);
    out.push(':');
    let text = chars_of(line.text.as_str());
    push_all(&mut out, &text);
    assert(out@ =~= line_key_text(object, first_offset(chunks@), line_index as nat, line.text@));
    string_from_chars(&out)
}

/// A nice-view row ready to draw: the line, its key, the block it belongs
/// to, and the blocks whose guides run beside it.
#[derive(Clone, Debug)]
pub struct NiceStreamRenderLine {
    pub line: NiceStreamLine,
    pub line_key: String,
    pub block_key: Option<String>,
    pub guide_blocks: Vec<(usize, String)>,
}

/// The value of a nice-view row.
pub struct RenderView {
    pub line: NiceLine,
    pub line_key: Seq<char>,
    pub block_key: Option<Seq<char>>,
    pub guide_blocks: Seq<(nat, Seq<char>)>,
}

/// The values of open blocks: indentation and key.
pub open spec fn block_views(v: Seq<(usize, String)>) -> Seq<(nat, Seq<char>)> {
    Seq::new(v.len(), |i: int| (v[i].0 as nat, v[i].1@))
}

/// The value of an optional key.
pub open spec fn opt_key_view(k: Option<String>) -> Option<Seq<char>> {
    match k {
        Some(s) => Some(s@),
        None => None,
    }
}

impl View for NiceStreamRenderLine {
    type V = RenderView;

    open spec fn view(&self) -> RenderView {
        RenderView {
            line: self.line@,
            line_key: self.line_key@,
            block_key: opt_key_view(self.block_key),
            guide_blocks: block_views(self.guide_blocks@),
        }
    }
}

/// The values of a list of rows.
pub open spec fn render_views(v: Seq<NiceStreamRenderLine>) -> Seq<RenderView> {
    Seq::new(v.len(), |i: int| v[i]@)
}

/// The open blocks left after leaving those nested deeper than `indent`
/// (and, when `inclusive`, those at `indent` too).
pub open spec fn close_deeper(stack: Seq<(nat, Seq<char>)>, indent: nat, inclusive: bool) -> Seq<
    (nat, Seq<char>),
>
    decreases stack.len(),
{
    if stack.len() > 0 && (stack.last().0 > indent || (inclusive && stack.last().0 == indent)) {
        close_deeper(stack.drop_last(), indent, inclusive)
    } else {
        stack
    }
}

/// The rows built so far and the blocks open after them.
pub struct RenderState {
    pub stack: Seq<(nat, Seq<char>)>,
    pub rows: Seq<RenderView>,
}

/// One more row. Blocks nested deeper than the line are left (a closing
/// line keeps the block at its own depth); the row belongs to the block it
/// opens or else to the innermost block still open; a closing line at the
/// depth of the innermost block ends it.
pub open spec fn render_step(s: RenderState, line: NiceLine, key: Seq<char>) -> RenderState {
    let stack = close_deeper(s.stack, line.indent, !line.block_close);
    let guide = if line.block_open {
        stack.push((line.indent, key))
    } else {
        stack
    };
    let block_key = if line.block_open {
        Some(key)
    } else if stack.len() > 0 {
        Some(stack.last().1)
    } else {
        None
    };
    let row = RenderView { line, line_key: key, block_key, guide_blocks: guide };
    let next = if line.block_open {
        stack.push((line.indent, key))
    } else if line.block_close && stack.len() > 0 && stack.last().0 == line.indent {
        stack.drop_last()
    } else {
        stack
    };
    RenderState { stack: next, rows: s.rows.push(row) }
}

/// The rows of `lines`, keyed for `object` and the first loaded offset.
pub open spec fn render_fold(lines: Seq<NiceLine>, object: ObjectId, offset: u64) -> RenderState
    decreases lines.len(),
{
    if lines.len() == 0 {
        RenderState { stack: seq![], rows: seq![] }
    } else {
        let i = (lines.len() - 1) as nat;
        render_step(
            render_fold(lines.drop_last(), object, offset),
            lines.last(),
            line_key_text(object, offset, i, lines.last().text),
        )
    }
}

/// The rows of the nice view of the loaded windows of `object`.
pub open spec fn render_rows(object: ObjectId, chunks: Seq<StreamChunk>) -> Seq<RenderView> {
    render_fold(chunks_nice_lines(chunks), object, first_offset(chunks)).rows
}

/// Leaving blocks keeps the outer ones: the result is a prefix of the open
/// blocks.
pub proof fn lemma_close_deeper_prefix(stack: Seq<(nat, Seq<char>)>, indent: nat, inclusive: bool)
    ensures
        close_deeper(stack, indent, inclusive).len() <= stack.len(),
        close_deeper(stack, indent, inclusive) == stack.take(
            close_deeper(stack, indent, inclusive).len() as int,
        ),
    decreases stack.len(),
{
    if stack.len() > 0 && (stack.last().0 > indent || (inclusive && stack.last().0 == indent)) {
        lemma_close_deeper_prefix(stack.drop_last(), indent, inclusive);
        let r = close_deeper(stack.drop_last(), indent, inclusive);
        assert(stack.drop_last().take(r.len() as int) =~= stack.take(r.len() as int));
    } else {
        assert(stack.take(stack.len() as int) =~= stack);
    }
}

/// Whether `key` is the key of a row among `rows` that opens a block.
pub open spec fn opened_by(rows: Seq<RenderView>, key: Seq<char>, upto: int) -> bool {
    exists|j: int| 0 <= j <= upto && j < rows.len() && #[trigger] rows[j].line.block_open
        && rows[j].line_key == key
}

/// Whether every block in the guides of row `i` was opened by that row or a
/// row before it.
pub open spec fn guides_opened(rows: Seq<RenderView>, i: int) -> bool {
    forall|m: int|
        0 <= m < rows[i].guide_blocks.len() ==> opened_by(
            rows,
            (#[trigger] rows[i].guide_blocks[m]).1,
            i,
        )
}

/// Whether each row that opens a block belongs to it, and each row's block,
/// and each block in its guides, was opened by that row or a row before it.
pub open spec fn blocks_opened_before(rows: Seq<RenderView>) -> bool {
    forall|i: int|
        #![trigger rows[i]]
        0 <= i < rows.len() ==> (rows[i].line.block_open ==> rows[i].block_key == Some(
            rows[i].line_key,
        )) && (rows[i].block_key matches Some(k) ==> opened_by(rows, k, i)) && guides_opened(
            rows,
            i,
        )
}

/// Whether every open block was opened by one of `rows`.
pub open spec fn stack_opened(stack: Seq<(nat, Seq<char>)>, rows: Seq<RenderView>) -> bool {
    forall|m: int| 0 <= m < stack.len() ==> opened_by(rows, #[trigger] stack[m].1, rows.len() - 1)
}

/// A row more keeps the earlier rows' openers.
proof fn lemma_opened_by_push(rows: Seq<RenderView>, row: RenderView, key: Seq<char>, up: int)
    requires
        opened_by(rows, key, up),
    ensures
        opened_by(rows.push(row), key, up),
{
    let j = choose|j: int|
        0 <= j <= up && j < rows.len() && #[trigger] rows[j].line.block_open && rows[j].line_key
            == key;
    assert(rows.push(row)[j] == rows[j]);
}

/// The guides of every row after one more row name blocks opened at or
/// before that row.
#[verifier::rlimit(30)]
proof fn lemma_render_step_guides(s: RenderState, line: NiceLine, key: Seq<char>, q: int)
    requires
        blocks_opened_before(s.rows),
        stack_opened(s.stack, s.rows),
        0 <= q <= s.rows.len(),
    ensures
        guides_opened(render_step(s, line, key).rows, q),
{
    let n = render_step(s, line, key);
    let stack = close_deeper(s.stack, line.indent, !line.block_close);
    lemma_close_deeper_prefix(s.stack, line.indent, !line.block_close);
    let i = s.rows.len() as int;
    let row = n.rows[i];
    assert(n.rows == s.rows.push(row));
    if q < i {
        assert(n.rows[q] == s.rows[q]);
        assert(guides_opened(s.rows, q));
        assert forall|m: int| 0 <= m < n.rows[q].guide_blocks.len() implies opened_by(
            n.rows,
            (#[trigger] n.rows[q].guide_blocks[m]).1,
            q,
        ) by {
            assert(n.rows[q].guide_blocks[m] == s.rows[q].guide_blocks[m]);
            lemma_opened_by_push(s.rows, row, s.rows[q].guide_blocks[m].1, q);
        }
    } else {
        assert forall|m: int| 0 <= m < n.rows[q].guide_blocks.len() implies opened_by(
            n.rows,
            (#[trigger] n.rows[q].guide_blocks[m]).1,
            q,
        ) by {
            if m < stack.len() {
                assert(n.rows[q].guide_blocks[m] == stack[m]);
                assert(stack[m] == s.stack[m]);
                assert(opened_by(s.rows, s.stack[m].1, i - 1));
                let j = choose|j: int|
                    0 <= j <= i - 1 && j < s.rows.len() && #[trigger] s.rows[j].line.block_open
                        && s.rows[j].line_key == s.stack[m].1;
                assert(n.rows[j] == s.rows[j]);
            } else {
                assert(n.rows[q].guide_blocks[m].1 == key);
                assert(n.rows[i].line.block_open);
            }
        }
    }
}

/// One more row keeps the block structure.
#[verifier::rlimit(30)]
proof fn lemma_render_step_blocks(s: RenderState, line: NiceLine, key: Seq<char>)
    requires
        blocks_opened_before(s.rows),
        stack_opened(s.stack, s.rows),
    ensures
        blocks_opened_before(render_step(s, line, key).rows),
        stack_opened(render_step(s, line, key).stack, render_step(s, line, key).rows),
        render_step(s, line, key).rows.len() == s.rows.len() + 1,
{
    let n = render_step(s, line, key);
    let stack = close_deeper(s.stack, line.indent, !line.block_close);
    lemma_close_deeper_prefix(s.stack, line.indent, !line.block_close);
    let i = s.rows.len() as int;
    let row = n.rows[i];
    assert(n.rows == s.rows.push(row));
    assert forall|m: int| 0 <= m < stack.len() implies opened_by(
        n.rows,
        #[trigger] stack[m].1,
        i - 1,
    ) by {
        assert(stack[m] == s.stack[m]);
        lemma_opened_by_push(s.rows, row, stack[m].1, i - 1);
    }
    if line.block_open {
        assert(n.rows[i].line.block_open && n.rows[i].line_key == key);
        assert(opened_by(n.rows, key, i));
    }
    assert forall|q: int| 0 <= q < n.rows.len() implies ((#[trigger] n.rows[q]).line.block_open
        ==> n.rows[q].block_key == Some(n.rows[q].line_key)) && (n.rows[q].block_key matches Some(
        k,
    ) ==> opened_by(n.rows, k, q)) && guides_opened(n.rows, q) by {
        if q < i {
            assert(n.rows[q] == s.rows[q]);
            if let Some(k) = s.rows[q].block_key {
                lemma_opened_by_push(s.rows, row, k, q);
            }
        } else if !line.block_open && stack.len() > 0 {
            assert(opened_by(n.rows, stack[stack.len() - 1].1, i - 1));
        }
        lemma_render_step_guides(s, line, key, q);
    }
    assert forall|m: int| 0 <= m < n.stack.len() implies opened_by(
        n.rows,
        #[trigger] n.stack[m].1,
        n.rows.len() - 1,
    ) by {
        if line.block_open && m == stack.len() {
            assert(n.stack[m].1 == key);
        } else {
            assert(n.stack[m] == stack[m]);
            assert(opened_by(n.rows, stack[m].1, i - 1));
        }
    }
}

/// The block structure of the rows holds after every row.
proof fn lemma_render_fold_blocks(lines: Seq<NiceLine>, object: ObjectId, offset: u64)
    ensures
        blocks_opened_before(render_fold(lines, object, offset).rows),
        stack_opened(
            render_fold(lines, object, offset).stack,
            render_fold(lines, object, offset).rows,
        ),
    decreases lines.len(),
{
    if lines.len() > 0 {
        lemma_render_fold_blocks(lines.drop_last(), object, offset);
        let s = render_fold(lines.drop_last(), object, offset);
        let key = line_key_text(object, offset, (lines.len() - 1) as nat, lines.last().text);
        lemma_render_step_blocks(s, lines.last(), key);
    }
}

/// Every row is keyed by its index and text.
proof fn lemma_render_fold_keys(lines: Seq<NiceLine>, object: ObjectId, offset: u64)
    ensures
        render_fold(lines, object, offset).rows.len() == lines.len(),
        forall|i: int|
            0 <= i < lines.len() ==> (#[trigger] render_fold(lines, object, offset).rows[i]).line_key
                == line_key_text(object, offset, i as nat, lines[i].text)
                && render_fold(lines, object, offset).rows[i].line == lines[i] && (lines[i].block_open
                ==> render_fold(lines, object, offset).rows[i].guide_blocks.len() > 0
                && render_fold(lines, object, offset).rows[i].guide_blocks.last() == (
                lines[i].indent,
                render_fold(lines, object, offset).rows[i].line_key,
            )),
    decreases lines.len(),
{
    if lines.len() > 0 {
        lemma_render_fold_keys(lines.drop_last(), object, offset);
        let s = render_fold(lines.drop_last(), object, offset);
        let n = render_fold(lines, object, offset);
        assert forall|i: int| 0 <= i < lines.len() implies (#[trigger] n.rows[i]).line_key
            == line_key_text(object, offset, i as nat, lines[i].text) && n.rows[i].line
            == lines[i] && (lines[i].block_open ==> n.rows[i].guide_blocks.len() > 0
            && n.rows[i].guide_blocks.last() == (lines[i].indent, n.rows[i].line_key)) by {
            if i < lines.len() - 1 {
                assert(n.rows[i] == s.rows[i]);
                assert(lines.drop_last()[i] == lines[i]);
            }
        }
    }
}

/// Keys with different indices differ.
proof fn lemma_line_keys_differ(
    object: ObjectId,
    offset: u64,
    i: nat,
    j: nat,
    ti: Seq<char>,
    tj: Seq<char>,
)
    requires
        i != j,
    ensures
        line_key_text(object, offset, i, ti) != line_key_text(object, offset, j, tj),
{
    let p = decimal(object.num as nat) + seq![':'] + decimal(object.gen as nat) + seq![':']
        + decimal(offset as nat) + seq![':'];
    let a = decimal(i) + seq![':'] + ti;
    let b = decimal(j) + seq![':'] + tj;
    assert(line_key_text(object, offset, i, ti) =~= p + a);
    assert(line_key_text(object, offset, j, tj) =~= p + b);
    if p + a == p + b {
        assert(a =~= (p + a).skip(p.len() as int));
        assert(b =~= (p + b).skip(p.len() as int));
        crate::text::lemma_decimal_digits(i);
        crate::text::lemma_decimal_digits(j);
        let di = decimal(i);
        let dj = decimal(j);
        if di.len() < dj.len() {
            assert(a[di.len() as int] == ':');
            assert(b[di.len() as int] == dj[di.len() as int]);
        } else if dj.len() < di.len() {
            assert(b[dj.len() as int] == ':');
            assert(a[dj.len() as int] == di[dj.len() as int]);
        } else {
            assert(di =~= a.take(di.len() as int));
            assert(dj =~= b.take(dj.len() as int));
            crate::text::lemma_decimal_injective(i, j);
        }
    }
}

/// The rows of the nice view of a stream have pairwise different keys;
/// row `i` is line `i` of the nice view, and a row that opens a block ends
/// its guides with that block.
pub proof fn lemma_render_rows_keys_distinct(object: ObjectId, chunks: Seq<StreamChunk>)
    ensures
        render_rows(object, chunks).len() == chunks_nice_lines(chunks).len(),
        forall|i: int|
            0 <= i < render_rows(object, chunks).len() ==> (#[trigger] render_rows(
                object,
                chunks,
            )[i]).line == chunks_nice_lines(chunks)[i] && (render_rows(object, chunks)[i].line.block_open
                ==> render_rows(object, chunks)[i].guide_blocks.len() > 0 && render_rows(
                object,
                chunks,
            )[i].guide_blocks.last() == (
                render_rows(object, chunks)[i].line.indent,
                render_rows(object, chunks)[i].line_key,
            )),
        forall|i: int, j: int|
            0 <= i < j < render_rows(object, chunks).len() ==> (#[trigger] render_rows(
                object,
                chunks,
            )[i]).line_key != (#[trigger] render_rows(object, chunks)[j]).line_key,
{
    let lines = chunks_nice_lines(chunks);
    let offset = first_offset(chunks);
    lemma_render_fold_keys(lines, object, offset);
    let rows = render_rows(object, chunks);
    assert forall|i: int, j: int| 0 <= i < j < rows.len() implies (#[trigger] rows[i]).line_key
        != (#[trigger] rows[j]).line_key by {
        lemma_line_keys_differ(object, offset, i as nat, j as nat, lines[i].text, lines[j].text);
    }
}

/// In the nice view of a stream, a row that opens a block (`q`, `BT`,
/// `BDC`, `BX`) belongs to the block it opens, and the block of every row,
/// and every block in its guides, is one that a row at or before it opened.
pub proof fn lemma_render_rows_blocks(object: ObjectId, chunks: Seq<StreamChunk>)
    ensures
        blocks_opened_before(render_rows(object, chunks)),
{
    lemma_render_fold_blocks(chunks_nice_lines(chunks), object, first_offset(chunks));
}

/// A copy of a list of open blocks.
fn copy_blocks(v: &Vec<(usize, String)>) -> (c: Vec<(usize, String)>)
    ensures
        block_views(c@) == block_views(v@),
{
    let mut c: Vec<(usize, String)> = Vec::new();
    let mut i: usize = 0;
    while i < v.len()
        invariant
            0 <= i <= v@.len(),
            block_views(c@) == block_views(v@).take(i as int),
        decreases v@.len() - i,
    {
        let ghost before = block_views(c@);
        c.push((v[i].0, v[i].1.clone()));
        assert(block_views(c@) =~= before.push((v@[i as int].0 as nat, v@[i as int].1@)));
        assert(block_views(v@).take(i + 1) =~= block_views(v@).take(i as int).push(
            (v@[i as int].0 as nat, v@[i as int].1@),
        ));
        i += 1;
    }
    assert(block_views(v@).take(i as int) =~= block_views(v@));
    c
}

/// Leaves the open blocks nested deeper than `indent` (and those at
/// `indent` when `inclusive`).
fn close_deeper_blocks(stack: &mut Vec<(usize, String)>, indent: usize, inclusive: bool)
    ensures
        block_views(final(stack)@) == close_deeper(block_views(old(stack)@), indent as nat, inclusive),
{
    while stack.len() > 0 && (stack[stack.len() - 1].0 > indent || (inclusive && stack[stack.len()
        - 1].0 == indent))
        invariant
            close_deeper(block_views(stack@), indent as nat, inclusive) == close_deeper(
                block_views(old(stack)@),
                indent as nat,
                inclusive,
            ),
        decreases stack@.len(),
    {
        let ghost before = block_views(stack@);
        stack.pop();
        assert(block_views(stack@) =~= before.drop_last());
    }
}

/// The rows of the nice view of the loaded windows of `object`, with the
/// block each row belongs to and the guides beside it.
pub fn real_stream_nice_render_lines(object: ObjectId, chunks: &[StreamChunk]) -> (rows: Vec<
    NiceStreamRenderLine,
>)
    ensures
        render_views(rows@) == render_rows(object, chunks@),
{
    let lines = real_stream_chunks_nice_lines(chunks);
    let ghost ls = line_views(lines@);
    let ghost offset = first_offset(chunks@);
    let mut stack: Vec<(usize, String)> = Vec::new();
    let mut rows: Vec<NiceStreamRenderLine> = Vec::new();
    let mut index: usize = 0;
    assert(ls.take(0) =~= seq![]);
    assert(block_views(stack@) =~= seq![]);
    assert(render_views(rows@) =~= seq![]);
    while index < lines.len()
        invariant
            ls == line_views(lines@),
            ls == chunks_nice_lines(chunks@),
            offset == first_offset(chunks@),
            0 <= index <= lines@.len(),
            render_fold(ls.take(index as int), object, offset) == (RenderState {
                stack: block_views(stack@),
                rows: render_views(rows@),
            }),
        decreases lines@.len() - index,
    {
        assert(ls.take(index + 1).drop_last() =~= ls.take(index as int));
        assert(ls.take(index + 1).last() == lines@[index as int]@);
        let line = &lines[index];
        let line_key = nice_stream_line_key(object, chunks, index, line);
        close_deeper_blocks(&mut stack, line.indent, !line.block_close);
        let ghost closed = block_views(stack@);
        let mut guide_blocks = copy_blocks(&stack);
        if line.block_open {
            guide_blocks.push((line.indent, line_key.clone()));
            assert(block_views(guide_blocks@) =~= closed.push((line.indent as nat, line_key@)));
        }
        let block_key = if line.block_open {
            Some(line_key.clone())
        } else if stack.len() > 0 {
            Some(stack[stack.len() - 1].1.clone())
        } else {
            None
        };
        let row = NiceStreamRenderLine {
            line: NiceStreamLine {
                indent: line.indent,
                text: line.text.clone(),
                block_open: line.block_open,
                block_close: line.block_close,
            },
            line_key: line_key.clone(),
            block_key,
            guide_blocks,
        };
        let ghost before_rows = render_views(rows@);
        rows.push(row);
        assert(render_views(rows@) =~= before_rows.push(row@));
        if line.block_open {
            stack.push((line.indent, line_key));
            assert(block_views(stack@) =~= closed.push((line.indent as nat, line_key@)));
        } else if line.block_close && stack.len() > 0 && stack[stack.len() - 1].0 == line.indent {
            stack.pop();
            assert(block_views(stack@) =~= closed.drop_last());
        }
        index += 1;
    }
    assert(ls.take(index as int) =~= ls);
    rows
}

/// Whether a row is selected by `key`: it is the row itself, or it belongs
/// to the block that `key` opens.
pub open spec fn row_matches(r: RenderView, key: Seq<char>) -> bool {
    r.line_key == key || r.block_key == Some(key)
}

/// Whether `row` is selected by `selection_key`.
pub fn nice_stream_row_matches_selection(row: &NiceStreamRenderLine, selection_key: &str) -> (b:
    bool)
    ensures
        b == row_matches(row@, selection_key@),
{
    if crate::text::str_eq(row.line_key.as_str(), selection_key) {
        return true;
    }
    match &row.block_key {
        Some(k) => crate::text::str_eq(k.as_str(), selection_key),
        None => false,
    }
}

/// The text fragments of the selected rows, in order.
pub open spec fn selection_fragments(rows: Seq<RenderView>, key: Seq<char>) -> Seq<Seq<char>>
    decreases rows.len(),
{
    if rows.len() == 0 {
        seq![]
    } else {
        selection_fragments(rows.drop_last(), key) + (if row_matches(rows.last(), key) {
            line_fragments(rows.last().line.text)
        } else {
            seq![]
        })
    }
}

/// Whether the fragments of every row selected by `key` can be read.
pub open spec fn selection_decodable(rows: Seq<RenderView>, key: Seq<char>) -> bool {
    forall|i: int|
        0 <= i < rows.len() && row_matches(#[trigger] rows[i], key) ==> line_decodable(
            rows[i].line.text,
        )
}

/// The distinct text fragments shown by the rows that `selection_key`
/// selects.
pub fn nice_stream_text_fragments_for_selection(
    rows: &[NiceStreamRenderLine],
    selection_key: &str,
) -> (out: Vec<String>)
    requires
        selection_decodable(render_views(rows@), selection_key@),
    ensures
        string_views(out@) == dedupe_fragments(
            selection_fragments(render_views(rows@), selection_key@),
        ),
{
    let ghost rv = render_views(rows@);
    let mut frags: Vec<Vec<char>> = Vec::new();
    let mut i: usize = 0;
    assert(rv.take(0) =~= seq![]);
    assert(char_vec_views(frags@) =~= seq![]);
    while i < rows.len()
        invariant
            rv == render_views(rows@),
            selection_decodable(rv, selection_key@),
            0 <= i <= rows@.len(),
            char_vec_views(frags@) == selection_fragments(rv.take(i as int), selection_key@),
        decreases rows@.len() - i,
    {
        assert(rv.take(i + 1).drop_last() =~= rv.take(i as int));
        assert(rv.take(i + 1).last() == rows@[i as int]@);
        let ghost before = char_vec_views(frags@);
        if nice_stream_row_matches_selection(&rows[i], selection_key) {
            assert(rv[i as int] == rows@[i as int]@);
            let text = chars_of(rows[i].line.text.as_str());
            let mut more = line_fragment_chars(&text);
            let ghost added = char_vec_views(more@);
            frags.append(&mut more);
            assert(char_vec_views(frags@) =~= before + added);
        } else {
            assert(char_vec_views(frags@) =~= before + seq![]);
        }
        i += 1;
    }
    assert(rv.take(i as int) =~= rv);
    let kept = dedupe_fragment_chars(&frags);
    strings_of(&kept)
}

/// Whether `b` occurs in `a` as a contiguous run.
pub open spec fn contains_run(a: Seq<char>, b: Seq<char>) -> bool {
    exists|i: int| 0 <= i && i + b.len() <= a.len() && #[trigger] a.subrange(i, i + b.len()) == b
}

/// Whether `b` occurs in `a` at index `i`.
fn run_at(a: &[char], b: &[char], i: usize) -> (r: bool)
    requires
        i + b@.len() <= a@.len(),
    ensures
        r == (a@.subrange(i as int, i + b@.len()) == b@),
{
    let alen = a.len();
    let mut j: usize = 0;
    while j < b.len()
        invariant
            0 <= j <= b@.len(),
            alen == a@.len(),
            i + b@.len() <= a@.len(),
            forall|m: int| 0 <= m < j ==> a@[i + m] == b@[m],
        decreases b@.len() - j,
    {
        if a[i + j] != b[j] {
            assert(a@.subrange(i as int, i + b@.len())[j as int] != b@[j as int]);
            return false;
        }
        j += 1;
    }
    assert(a@.subrange(i as int, i + b@.len()) =~= b@);
    true
}

/// Whether `b` occurs in `a` as a contiguous run.
pub fn contains_chars(a: &[char], b: &[char]) -> (r: bool)
    ensures
        r == contains_run(a@, b@),
{
    if b.len() > a.len() {
        return false;
    }
    let last = a.len() - b.len();
    let mut i: usize = 0;
    while i < last
        invariant
            last == a@.len() - b@.len(),
            b@.len() <= a@.len(),
            0 <= i <= last,
            forall|k: int| 0 <= k < i ==> #[trigger] a@.subrange(k, k + b@.len()) != b@,
        decreases last - i,
    {
        if run_at(a, b, i) {
            return true;
        }
        i += 1;
    }
    if run_at(a, b, last) {
        return true;
    }
    assert(!contains_run(a@, b@)) by {
        if exists|k: int| 0 <= k && k + b@.len() <= a@.len() && #[trigger] a@.subrange(
            k,
            k + b@.len(),
        ) == b@ {
            let k = choose|k: int| 0 <= k && k + b@.len() <= a@.len() && #[trigger] a@.subrange(
                k,
                k + b@.len(),
            ) == b@;
            assert(k <= last);
        }
    }
    false
}

/// The UTF-8 length of `v`.
fn utf8_len_of(v: &[char]) -> (n: u128)
    ensures
        n == seq_utf8_len(v@),
{
    let mut n: u128 = 0;
    let mut i: usize = 0;
    assert(v@.take(0) =~= seq![]);
    while i < v.len()
        invariant
            0 <= i <= v@.len(),
            n == seq_utf8_len(v@.take(i as int)),
            n <= 4 * i,
        decreases v@.len() - i,
    {
        assert(v@.take(i + 1) =~= v@.take(i as int).push(v@[i as int]));
        proof {
            lemma_seq_utf8_len_push(v@.take(i as int), v@[i as int]);
        }
        n = n + char_utf8_len(v[i]) as u128;
        i += 1;
    }
    assert(v@.take(i as int) =~= v@);
    n
}

/// The distance between two numbers.
pub open spec fn abs_diff(a: nat, b: nat) -> nat {
    if a >= b {
        (a - b) as nat
    } else {
        (b - a) as nat
    }
}

/// How well a fragment matches a query key: when one key contains the
/// other, the difference of their UTF-8 lengths; no score for an empty key.
pub open spec fn fragment_score(f: Seq<char>, q: Seq<char>) -> Option<nat> {
    let fk = normalized_key(f);
    if fk.len() == 0 {
        None
    } else if contains_run(fk, q) || contains_run(q, fk) {
        Some(abs_diff(seq_utf8_len(fk), seq_utf8_len(q)))
    } else {
        None
    }
}

/// The smaller of two optional scores.
pub open spec fn min_score(a: Option<nat>, b: Option<nat>) -> Option<nat> {
    match (a, b) {
        (Some(x), Some(y)) => Some(if x <= y {
            x
        } else {
            y
        }),
        (Some(x), None) => Some(x),
        (None, y) => y,
    }
}

/// The best score among fragments.
pub open spec fn best_fragment_score(fs: Seq<Seq<char>>, q: Seq<char>) -> Option<nat>
    decreases fs.len(),
{
    if fs.len() == 0 {
        None
    } else {
        min_score(best_fragment_score(fs.drop_last(), q), fragment_score(fs.last(), q))
    }
}

/// The first row with the best score, and that score.
pub open spec fn best_row(rows: Seq<RenderView>, q: Seq<char>) -> Option<(nat, Seq<char>)>
    decreases rows.len(),
{
    if rows.len() == 0 {
        None
    } else {
        let b = best_row(rows.drop_last(), q);
        match best_fragment_score(line_fragments(rows.last().line.text), q) {
            Some(s) => match b {
                Some(bb) => if s < bb.0 {
                    Some((s, rows.last().line_key))
                } else {
                    b
                },
                None => Some((s, rows.last().line_key)),
            },
            None => b,
        }
    }
}

/// The row that best shows a text hit's excerpt: the first row whose text
/// fragment comes closest in length to the excerpt's key among those that
/// contain it or are contained in it.
pub open spec fn text_hit_row_key(rows: Seq<RenderView>, excerpt: Seq<char>) -> Option<Seq<char>> {
    let q = normalized_key(excerpt);
    if q.len() == 0 {
        None
    } else {
        match best_row(rows, q) {
            Some(p) => Some(p.1),
            None => None,
        }
    }
}

/// Whether the fragments of every row can be read.
pub open spec fn rows_decodable(rows: Seq<RenderView>) -> bool {
    forall|i: int| 0 <= i < rows.len() ==> line_decodable(#[trigger] rows[i].line.text)
}

/// The best score of a list of fragments against a query key.
fn best_score_of(frags: &Vec<Vec<char>>, q: &Vec<char>) -> (best: Option<u128>)
    ensures
        best matches Some(x) ==> best_fragment_score(char_vec_views(frags@), q@) == Some(x as nat),
        best is None ==> best_fragment_score(char_vec_views(frags@), q@) is None,
{
    let ghost fs = char_vec_views(frags@);
    let qlen = utf8_len_of(q.as_slice());
    let mut best: Option<u128> = None;
    let mut i: usize = 0;
    assert(fs.take(0) =~= seq![]);
    while i < frags.len()
        invariant
            fs == char_vec_views(frags@),
            qlen == seq_utf8_len(q@),
            0 <= i <= frags@.len(),
            best matches Some(x) ==> best_fragment_score(fs.take(i as int), q@) == Some(x as nat),
            best is None ==> best_fragment_score(fs.take(i as int), q@) is None,
        decreases frags@.len() - i,
    {
        assert(fs.take(i + 1).drop_last() =~= fs.take(i as int));
        assert(fs.take(i + 1).last() == frags@[i as int]@);
        let fk = normalized_key_chars(frags[i].as_slice());
        if fk.len() > 0 && (contains_chars(fk.as_slice(), q.as_slice()) || contains_chars(
            q.as_slice(),
            fk.as_slice(),
        )) {
            let flen = utf8_len_of(fk.as_slice());
            let score = if flen >= qlen {
                flen - qlen
            } else {
                qlen - flen
            };
            best = match best {
                Some(b) => Some(if b <= score {
                    b
                } else {
                    score
                }),
                None => Some(score),
            };
        }
        i += 1;
    }
    assert(fs.take(i as int) =~= fs);
    best
}

/// The key of the row that best shows a text hit's excerpt.
pub fn nice_stream_selection_key_for_text_hit(
    rows: &[NiceStreamRenderLine],
    hit: &TextSearchHit,
) -> (key: Option<String>)
    requires
        rows_decodable(render_views(rows@)),
    ensures
        opt_key_view(key) == text_hit_row_key(render_views(rows@), hit.excerpt@),
{
    let ghost rv = render_views(rows@);
    let ex = chars_of(hit.excerpt.as_str());
    let q = normalized_key_chars(ex.as_slice());
    if q.len() == 0 {
        return None;
    }
    let mut best: Option<(u128, usize)> = None;
    let mut i: usize = 0;
    assert(rv.take(0) =~= seq![]);
    while i < rows.len()
        invariant
            rv == render_views(rows@),
            rows_decodable(rv),
            q@ == normalized_key(hit.excerpt@),
            0 <= i <= rows@.len(),
            best matches Some(b) ==> b.1 < i && best_row(rv.take(i as int), q@) == Some(
                (b.0 as nat, rv[b.1 as int].line_key),
            ),
            best is None ==> best_row(rv.take(i as int), q@) is None,
        decreases rows@.len() - i,
    {
        assert(rv.take(i + 1).drop_last() =~= rv.take(i as int));
        assert(rv.take(i + 1).last() == rows@[i as int]@);
        assert(rv[i as int] == rows@[i as int]@);
        assert(line_decodable(rv[i as int].line.text));
        let text = chars_of(rows[i].line.text.as_str());
        let frags = line_fragment_chars(&text);
        match best_score_of(&frags, &q) {
            Some(s) => {
                best = match best {
                    Some(b) => if s < b.0 {
                        Some((s, i))
                    } else {
                        Some(b)
                    },
                    None => Some((s, i)),
                };
            },
            None => {},
        }
        i += 1;
    }
    assert(rv.take(i as int) =~= rv);
    match best {
        Some(b) => {
            assert(rv[b.1 as int] == rows@[b.1 as int]@);
            Some(rows[b.1].line_key.clone())
        },
        None => None,
    }
}

// ---------------------------------------------------------------------------
// Drawing operations of the nice view
// ---------------------------------------------------------------------------
/// What a drawn element on a page is.
#[derive(Clone, Copy, Debug, PartialEq, Eq, Structural)]
pub enum VisualElementKind {
    Text,
    Image,
    Vector,
    Grid,
    Unknown,
}

/// The operator of a nice-view line: its last token.
pub open spec fn line_operator(line: Seq<char>) -> Option<Seq<char>> {
    let ts = content_tokens(line);
    if ts.len() > 0 {
        Some(ts.last())
    } else {
        None
    }
}

/// The operator of a nice-view line, if it has any token.
pub fn nice_stream_line_operator(line: &str) -> (op: Option<String>)
    ensures
        crate::text::opt_text(op) == line_operator(line@),
{
    let mut tokens = crate::content::pdf_content_tokens(line);
    let ghost before = tokens@;
    let ghost tv = string_views(tokens@);
    let op = tokens.pop();
    proof {
        if tv.len() > 0 {
            assert(tv.last() == before.last()@);
        }
    }
    op
}

/// What a nice-view line draws: text for text-showing operators, an image
/// for `Do` and `EI`, a vector for painting and shading operators.
pub open spec fn line_visual_kind(line: Seq<char>) -> Option<VisualElementKind> {
    match line_operator(line) {
        Some(op) => if op == "Tj"@ || op == "TJ"@ || op == "'"@ || op == "\""@ {
            Some(VisualElementKind::Text)
        } else if op == "Do"@ || op == "EI"@ {
            Some(VisualElementKind::Image)
        } else if op == "S"@ || op == "s"@ || op == "f"@ || op == "F"@ || op == "f*"@ || op == "B"@
            || op == "B*"@ || op == "b"@ || op == "b*"@ || op == "sh"@ {
            Some(VisualElementKind::Vector)
        } else {
            None
        },
        None => None,
    }
}

/// What a nice-view line draws, if anything.
pub fn nice_stream_line_visual_kind(line: &str) -> (k: Option<VisualElementKind>)
    ensures
        k == line_visual_kind(line@),
{
    let op = match nice_stream_line_operator(line) {
        Some(op) => op,
        None => return None,
    };
    let o = op.as_str();
    if crate::text::str_eq(o, "Tj") || crate::text::str_eq(o, "TJ") || crate::text::str_eq(o, "'")
        || crate::text::str_eq(o, "\"") {
        Some(VisualElementKind::Text)
    } else if crate::text::str_eq(o, "Do") || crate::text::str_eq(o, "EI") {
        Some(VisualElementKind::Image)
    } else if crate::text::str_eq(o, "S") || crate::text::str_eq(o, "s") || crate::text::str_eq(o, "f")
        || crate::text::str_eq(o, "F") || crate::text::str_eq(o, "f*") || crate::text::str_eq(o, "B")
        || crate::text::str_eq(o, "B*") || crate::text::str_eq(o, "b") || crate::text::str_eq(o, "b*")
        || crate::text::str_eq(o, "sh") {
        Some(VisualElementKind::Vector)
    } else {
        None
    }
}

/// Whether an element of kind `actual` can be what a line of kind
/// `expected` drew: anything for unknown, vectors and grids for vector,
/// else the same kind.
pub open spec fn kind_matches(expected: VisualElementKind, actual: VisualElementKind) -> bool {
    match expected {
        VisualElementKind::Unknown => true,
        VisualElementKind::Vector => actual == VisualElementKind::Vector || actual
            == VisualElementKind::Grid,
        _ => expected == actual,
    }
}

/// Whether an element of kind `actual` can be what a line of kind
/// `expected` drew.
pub fn visual_kind_matches(expected: VisualElementKind, actual: VisualElementKind) -> (b: bool)
    ensures
        b == kind_matches(expected, actual),
{
    match expected {
        VisualElementKind::Unknown => true,
        VisualElementKind::Vector => actual == VisualElementKind::Vector || actual
            == VisualElementKind::Grid,
        _ => expected == actual,
    }
}

/// The line kinds to look for, in order, for a clicked element: its own
/// kind (vector for a grid), then unknown.
pub fn nice_stream_reverse_visual_kind_candidates(kind: VisualElementKind) -> (v: Vec<
    VisualElementKind,
>)
    ensures
        v@ == (match kind {
            VisualElementKind::Text => seq![VisualElementKind::Text, VisualElementKind::Unknown],
            VisualElementKind::Image => seq![VisualElementKind::Image, VisualElementKind::Unknown],
            VisualElementKind::Vector => seq![VisualElementKind::Vector, VisualElementKind::Unknown],
            VisualElementKind::Grid => seq![VisualElementKind::Vector, VisualElementKind::Unknown],
            VisualElementKind::Unknown => seq![VisualElementKind::Unknown],
        }),
{
    let mut v: Vec<VisualElementKind> = Vec::new();
    match kind {
        VisualElementKind::Text => {
            v.push(VisualElementKind::Text);
            v.push(VisualElementKind::Unknown);
        },
        VisualElementKind::Image => {
            v.push(VisualElementKind::Image);
            v.push(VisualElementKind::Unknown);
        },
        VisualElementKind::Vector | VisualElementKind::Grid => {
            v.push(VisualElementKind::Vector);
            v.push(VisualElementKind::Unknown);
        },
        VisualElementKind::Unknown => {
            v.push(VisualElementKind::Unknown);
        },
    }
    assert(v@ =~= (match kind {
        VisualElementKind::Text => seq![VisualElementKind::Text, VisualElementKind::Unknown],
        VisualElementKind::Image => seq![VisualElementKind::Image, VisualElementKind::Unknown],
        VisualElementKind::Vector => seq![VisualElementKind::Vector, VisualElementKind::Unknown],
        VisualElementKind::Grid => seq![VisualElementKind::Vector, VisualElementKind::Unknown],
        VisualElementKind::Unknown => seq![VisualElementKind::Unknown],
    }));
    v
}

/// A drawing line of the nice view: its row and what it draws.
#[derive(Clone, Copy, Debug, PartialEq, Eq, Structural)]
pub struct NiceStreamVisualOp {
    pub row_index: usize,
    pub kind: VisualElementKind,
}

/// The drawing lines among rows from `k` on, in order.
pub open spec fn visual_ops_from(rows: Seq<RenderView>, k: int) -> Seq<NiceStreamVisualOp>
    decreases rows.len() - k,
{
    if k < 0 || k >= rows.len() {
        seq![]
    } else {
        (match line_visual_kind(rows[k].line.text) {
            Some(kind) => seq![NiceStreamVisualOp { row_index: k as usize, kind }],
            None => seq![],
        }) + visual_ops_from(rows, k + 1)
    }
}

/// The drawing lines of the nice view, in order.
pub fn nice_stream_visual_ops(rows: &[NiceStreamRenderLine]) -> (ops: Vec<NiceStreamVisualOp>)
    ensures
        ops@ == visual_ops_from(render_views(rows@), 0),
{
    let ghost rv = render_views(rows@);
    let mut ops: Vec<NiceStreamVisualOp> = Vec::new();
    let mut i: usize = 0;
    while i < rows.len()
        invariant
            rv == render_views(rows@),
            0 <= i <= rows@.len(),
            ops@ + visual_ops_from(rv, i as int) == visual_ops_from(rv, 0),
        decreases rows@.len() - i,
    {
        assert(rv[i as int] == rows@[i as int]@);
        let ghost before = ops@;
        match nice_stream_line_visual_kind(rows[i].line.text.as_str()) {
            Some(kind) => {
                ops.push(NiceStreamVisualOp { row_index: i, kind });
            },
            None => {},
        }
        assert(ops@ + visual_ops_from(rv, i + 1) =~= before + visual_ops_from(rv, i as int));
        i += 1;
    }
    assert(visual_ops_from(rv, i as int) =~= seq![]);
    assert(ops@ + seq![] =~= ops@);
    ops
}

/// Whether the rows selected by `key` draw anything but text.
pub open spec fn selection_draws_non_text(rows: Seq<RenderView>, key: Seq<char>) -> bool {
    exists|i: int|
        0 <= i < rows.len() && row_matches(#[trigger] rows[i], key) && line_visual_kind(
            rows[i].line.text,
        ) is Some && line_visual_kind(rows[i].line.text) != Some(VisualElementKind::Text)
}

/// Whether the rows selected by `selection_key` draw anything but text.
pub fn nice_stream_selection_has_non_text_visual_ops(
    rows: &[NiceStreamRenderLine],
    selection_key: &str,
) -> (b: bool)
    ensures
        b == selection_draws_non_text(render_views(rows@), selection_key@),
{
    let ghost rv = render_views(rows@);
    let mut i: usize = 0;
    while i < rows.len()
        invariant
            rv == render_views(rows@),
            0 <= i <= rows@.len(),
            forall|k: int|
                0 <= k < i ==> !(row_matches(#[trigger] rv[k], selection_key@) && line_visual_kind(
                    rv[k].line.text,
                ) is Some && line_visual_kind(rv[k].line.text) != Some(VisualElementKind::Text)),
        decreases rows@.len() - i,
    {
        assert(rv[i as int] == rows@[i as int]@);
        if nice_stream_row_matches_selection(&rows[i], selection_key) {
            match nice_stream_line_visual_kind(rows[i].line.text.as_str()) {
                Some(kind) => if kind != VisualElementKind::Text {
                    return true;
                },
                None => {},
            }
        }
        i += 1;
    }
    false
}

/// The kinds drawn by the selected rows, each once, in order of the ops.
pub open spec fn selected_kinds(ops: Seq<NiceStreamVisualOp>, selected: Set<usize>) -> Seq<
    VisualElementKind,
>
    decreases ops.len(),
{
    if ops.len() == 0 {
        seq![]
    } else {
        let before = selected_kinds(ops.drop_last(), selected);
        let op = ops.last();
        if selected.contains(op.row_index) && !before.contains(op.kind) {
            before.push(op.kind)
        } else {
            before
        }
    }
}

/// The kinds drawn by the selected rows, each once, in the order they are
/// first drawn.
pub fn nice_stream_selected_visual_kind_priority(
    ops: &[NiceStreamVisualOp],
    selected_rows: &[usize],
) -> (kinds: Vec<VisualElementKind>)
    ensures
        kinds@ == selected_kinds(ops@, selected_rows@.to_set()),
{
    let mut kinds: Vec<VisualElementKind> = Vec::new();
    let mut i: usize = 0;
    assert(ops@.take(0) =~= seq![]);
    while i < ops.len()
        invariant
            0 <= i <= ops@.len(),
            kinds@ == selected_kinds(ops@.take(i as int), selected_rows@.to_set()),
        decreases ops@.len() - i,
    {
        assert(ops@.take(i + 1).drop_last() =~= ops@.take(i as int));
        let op = ops[i];
        let mut sel = false;
        let mut j: usize = 0;
        while j < selected_rows.len()
            invariant
                0 <= j <= selected_rows@.len(),
                sel == (exists|k: int| 0 <= k < j && selected_rows@[k] == op.row_index),
            decreases selected_rows@.len() - j,
        {
            if selected_rows[j] == op.row_index {
                sel = true;
            }
            j += 1;
        }
        assert(sel == selected_rows@.to_set().contains(op.row_index)) by {
            if selected_rows@.to_set().contains(op.row_index) {
                assert(selected_rows@.contains(op.row_index));
            }
        }
        let mut seen = false;
        let mut k: usize = 0;
        while k < kinds.len()
            invariant
                0 <= k <= kinds@.len(),
                seen == (exists|m: int| 0 <= m < k && kinds@[m] == op.kind),
            decreases kinds@.len() - k,
        {
            if kinds[k] == op.kind {
                seen = true;
            }
            k += 1;
        }
        if sel && !seen {
            kinds.push(op.kind);
        }
        i += 1;
    }
    assert(ops@.take(i as int) =~= ops@);
    kinds
}

/// The resource a `Do` line paints: its operand without the leading `/`,
/// when there is one and it is not empty.
pub open spec fn do_resource(line: Seq<char>) -> Option<Seq<char>> {
    let ts = content_tokens(line);
    if ts.len() >= 2 && ts.last() == "Do"@ {
        let name = ts[ts.len() - 2];
        if name.len() > 1 && name[0] == '/' {
            Some(name.skip(1))
        } else {
            None
        }
    } else {
        None
    }
}

/// The resource a `Do` line paints.
pub fn nice_stream_do_resource_name(line: &str) -> (name: Option<String>)
    ensures
        crate::text::opt_text(name) == do_resource(line@),
{
    let chars = chars_of(line);
    let tokens = crate::content::content_tokens_of(&chars);
    let ghost ts = char_vec_views(tokens@);
    let n = tokens.len();
    if n < 2 {
        return None;
    }
    assert(ts.last() == tokens@[n - 1]@);
    if !crate::text::chars_eq_str(tokens[n - 1].as_slice(), "Do") {
        return None;
    }
    let name = &tokens[n - 2];
    assert(ts[n - 2] == name@);
    if name.len() > 1 && name[0] == '/' {
        let rest = crate::content::copy_range(name.as_slice(), 1, name.len());
        assert(name@.subrange(1, name@.len() as int) =~= name@.skip(1));
        Some(string_from_chars(&rest))
    } else {
        None
    }
}

/// The resource painted by the first selected `Do` line.
pub open spec fn selection_do_resource(rows: Seq<RenderView>, key: Seq<char>, k: int) -> Option<
    Seq<char>,
>
    decreases rows.len() - k,
{
    if k < 0 || k >= rows.len() {
        None
    } else if row_matches(rows[k], key) && do_resource(rows[k].line.text) is Some {
        do_resource(rows[k].line.text)
    } else {
        selection_do_resource(rows, key, k + 1)
    }
}

/// The resource painted by the first `Do` line that `selection_key`
/// selects.
pub fn nice_stream_do_resource_for_selection(
    rows: &[NiceStreamRenderLine],
    selection_key: &str,
) -> (name: Option<String>)
    ensures
        crate::text::opt_text(name) == selection_do_resource(render_views(rows@), selection_key@, 0),
{
    let ghost rv = render_views(rows@);
    let mut i: usize = 0;
    while i < rows.len()
        invariant
            rv == render_views(rows@),
            0 <= i <= rows@.len(),
            selection_do_resource(rv, selection_key@, i as int) == selection_do_resource(
                rv,
                selection_key@,
                0,
            ),
        decreases rows@.len() - i,
    {
        assert(rv[i as int] == rows@[i as int]@);
        if nice_stream_row_matches_selection(&rows[i], selection_key) {
            match nice_stream_do_resource_name(rows[i].line.text.as_str()) {
                Some(name) => return Some(name),
                None => {},
            }
        }
        i += 1;
    }
    None
}

// ---------------------------------------------------------------------------
// Collapsed blocks
// ---------------------------------------------------------------------------
/// Where the walk over the rows stands: the indentation of the collapsed
/// block being skipped, if any, and the rows shown so far.
pub struct VisibleState {
    pub hidden: Option<nat>,
    pub shown: Seq<usize>,
}

/// One row more of the walk. Inside a collapsed block, deeper rows are
/// skipped and so is the line that closes the block at its own depth; any
/// other row ends the block. A shown row that opens a collapsed block starts
/// skipping.
pub open spec fn visible_step(
    s: VisibleState,
    index: int,
    row: RenderView,
    collapsed: Seq<Seq<char>>,
) -> VisibleState {
    let (skip, hidden) = match s.hidden {
        Some(ind) => if row.line.indent > ind {
            (true, Some(ind))
        } else if row.line.indent == ind && row.line.block_close {
            (true, None::<nat>)
        } else {
            (false, None::<nat>)
        },
        None => (false, None::<nat>),
    };
    if skip {
        VisibleState { hidden, shown: s.shown }
    } else {
        VisibleState {
            hidden: if row.line.block_open && collapsed.contains(row.line_key) {
                Some(row.line.indent)
            } else {
                None
            },
            shown: s.shown.push(index as usize),
        }
    }
}

/// The walk over all of `rows`.
pub open spec fn visible_fold(rows: Seq<RenderView>, collapsed: Seq<Seq<char>>) -> VisibleState
    decreases rows.len(),
{
    if rows.len() == 0 {
        VisibleState { hidden: None, shown: seq![] }
    } else {
        visible_step(
            visible_fold(rows.drop_last(), collapsed),
            rows.len() - 1,
            rows.last(),
            collapsed,
        )
    }
}

/// The indices of the rows shown when the blocks whose keys are in
/// `collapsed` are collapsed.
pub open spec fn visible_rows(rows: Seq<RenderView>, collapsed: Seq<Seq<char>>) -> Seq<usize> {
    visible_fold(rows, collapsed).shown
}

/// The walk shows rows in order: the shown indices increase, each below
/// the number of rows.
proof fn lemma_visible_fold_sorted(rows: Seq<RenderView>, collapsed: Seq<Seq<char>>)
    requires
        rows.len() <= usize::MAX + 1,
    ensures
        forall|i: int|
            0 <= i < visible_rows(rows, collapsed).len() ==> #[trigger] visible_rows(
                rows,
                collapsed,
            )[i] < rows.len(),
        forall|i: int, j: int|
            0 <= i < j < visible_rows(rows, collapsed).len() ==> #[trigger] visible_rows(
                rows,
                collapsed,
            )[i] < #[trigger] visible_rows(rows, collapsed)[j],
    decreases rows.len(),
{
    if rows.len() > 0 {
        let g = rows.drop_last();
        lemma_visible_fold_sorted(g, collapsed);
        let old_shown = visible_rows(g, collapsed);
        let n = rows.len() - 1;
        let shown = visible_rows(rows, collapsed);
        assert(shown == old_shown || shown == old_shown.push(n as usize));
        assert((n as usize) as int == n);
        assert forall|i: int| 0 <= i < shown.len() implies #[trigger] shown[i] < rows.len() by {
            if i < old_shown.len() {
                assert(shown[i] == old_shown[i]);
            }
        }
        assert forall|i: int, j: int| 0 <= i < j < shown.len() implies #[trigger] shown[i]
            < #[trigger] shown[j] by {
            assert(shown[i] == old_shown[i]);
            if j < old_shown.len() {
                assert(shown[j] == old_shown[j]);
            } else {
                assert(old_shown[i] < g.len());
            }
        }
    }
}

/// The rows shown when blocks are collapsed come in order, each once: the
/// shown indices strictly increase and each names a row. When no block is
/// collapsed (no row's key is in `collapsed`), every row is shown.
pub proof fn lemma_visible_rows(rows: Seq<RenderView>, collapsed: Seq<Seq<char>>)
    requires
        rows.len() <= usize::MAX + 1,
    ensures
        forall|i: int|
            0 <= i < visible_rows(rows, collapsed).len() ==> #[trigger] visible_rows(
                rows,
                collapsed,
            )[i] < rows.len(),
        forall|i: int, j: int|
            0 <= i < j < visible_rows(rows, collapsed).len() ==> #[trigger] visible_rows(
                rows,
                collapsed,
            )[i] < #[trigger] visible_rows(rows, collapsed)[j],
        (forall|i: int| 0 <= i < rows.len() ==> !collapsed.contains(#[trigger] rows[i].line_key))
            ==> visible_rows(rows, collapsed) == Seq::new(rows.len(), |i: int| i as usize),
    decreases rows.len(),
{
    lemma_visible_fold_sorted(rows, collapsed);
    if forall|i: int| 0 <= i < rows.len() ==> !collapsed.contains(#[trigger] rows[i].line_key) {
        lemma_visible_all_shown(rows, collapsed);
    }
}

proof fn lemma_visible_all_shown(rows: Seq<RenderView>, collapsed: Seq<Seq<char>>)
    requires
        forall|i: int| 0 <= i < rows.len() ==> !collapsed.contains(#[trigger] rows[i].line_key),
    ensures
        visible_fold(rows, collapsed).hidden is None,
        visible_rows(rows, collapsed) == Seq::new(rows.len(), |i: int| i as usize),
    decreases rows.len(),
{
    if rows.len() > 0 {
        let g = rows.drop_last();
        assert forall|i: int| 0 <= i < g.len() implies !collapsed.contains(#[trigger] g[i].line_key)
            by {
            assert(g[i] == rows[i]);
        }
        lemma_visible_all_shown(g, collapsed);
        assert(!collapsed.contains(rows[rows.len() - 1].line_key));
        assert(visible_rows(rows, collapsed) =~= Seq::new(rows.len(), |i: int| i as usize));
    }
}

/// Which rows are shown depends only on which keys are collapsed, not on
/// the order or repetition of the list.
proof fn lemma_visible_fold_membership(
    rows: Seq<RenderView>,
    c1: Seq<Seq<char>>,
    c2: Seq<Seq<char>>,
)
    requires
        forall|k: Seq<char>| #[trigger] c1.contains(k) == c2.contains(k),
    ensures
        visible_fold(rows, c1) == visible_fold(rows, c2),
    decreases rows.len(),
{
    if rows.len() > 0 {
        lemma_visible_fold_membership(rows.drop_last(), c1, c2);
        assert(c1.contains(rows.last().line_key) == c2.contains(rows.last().line_key));
    }
}

/// Toggling a block twice gives back the same collapsed blocks, and so the
/// same shown rows.
pub proof fn lemma_toggle_twice(rows: Seq<RenderView>, collapsed: Seq<Seq<char>>, key: Seq<char>)
    ensures
        forall|k: Seq<char>| #[trigger] toggled(toggled(collapsed, key), key).contains(k)
            == collapsed.contains(k),
        visible_rows(rows, toggled(toggled(collapsed, key), key)) == visible_rows(rows, collapsed),
{
    let t1 = toggled(collapsed, key);
    let t2 = toggled(t1, key);
    assert forall|k: Seq<char>| #[trigger] t2.contains(k) == collapsed.contains(k) by {
        if collapsed.contains(key) {
            crate::recent::lemma_without_contains(collapsed, key, k);
            crate::recent::lemma_without_contains(collapsed, key, key);
            assert(!t1.contains(key));
            assert(t2 == t1.push(key));
            if t1.contains(k) {
                let i = choose|i: int| 0 <= i < t1.len() && t1[i] == k;
                assert(t2[i] == k);
            }
            if k == key {
                assert(t2[t1.len() as int] == key);
            }
            if t2.contains(k) && k != key {
                let i = choose|i: int| 0 <= i < t2.len() && t2[i] == k;
                assert(i < t1.len());
                assert(t1[i] == k);
            }
        } else {
            assert(t1 == collapsed.push(key));
            assert(t1[collapsed.len() as int] == key);
            assert(t1.contains(key));
            crate::recent::lemma_without_contains(t1, key, k);
            if collapsed.contains(k) {
                let i = choose|i: int| 0 <= i < collapsed.len() && collapsed[i] == k;
                assert(t1[i] == k);
            }
            if t1.contains(k) && k != key {
                let i = choose|i: int| 0 <= i < t1.len() && t1[i] == k;
                assert(i < collapsed.len());
                assert(collapsed[i] == k);
            }
        }
    }
    lemma_visible_fold_membership(rows, t2, collapsed);
}

/// Whether `key` is one of `keys`.
fn contains_key(keys: &[String], key: &str) -> (b: bool)
    ensures
        b == string_views(keys@).contains(key@),
{
    let mut i: usize = 0;
    while i < keys.len()
        invariant
            0 <= i <= keys@.len(),
            forall|k: int| 0 <= k < i ==> keys@[k]@ != key@,
        decreases keys@.len() - i,
    {
        if crate::text::str_eq(keys[i].as_str(), key) {
            assert(string_views(keys@)[i as int] == key@);
            return true;
        }
        i += 1;
    }
    assert forall|k: int| 0 <= k < string_views(keys@).len() implies string_views(keys@)[k]
        != key@ by {
        assert(string_views(keys@)[k] == keys@[k]@);
    }
    false
}

/// The rows the nice view shows, in order, when the blocks keyed in
/// `collapsed` are collapsed: the rows inside a collapsed block, and the
/// line closing it, are left out.
pub fn nice_stream_visible_rows(rows: &[NiceStreamRenderLine], collapsed: &[String]) -> (v: Vec<
    usize,
>)
    ensures
        v@ == visible_rows(render_views(rows@), string_views(collapsed@)),
{
    let ghost rv = render_views(rows@);
    let ghost cv = string_views(collapsed@);
    let mut shown: Vec<usize> = Vec::new();
    let mut hidden: Option<usize> = None;
    let mut i: usize = 0;
    assert(rv.take(0) =~= seq![]);
    while i < rows.len()
        invariant
            0 <= i <= rows@.len(),
            rv == render_views(rows@),
            cv == string_views(collapsed@),
            visible_fold(rv.take(i as int), cv) == (VisibleState {
                hidden: match hidden {
                    Some(h) => Some(h as nat),
                    None => None,
                },
                shown: shown@,
            }),
        decreases rows@.len() - i,
    {
        assert(rv.take(i + 1).drop_last() =~= rv.take(i as int));
        assert(rv.take(i + 1).last() == rows@[i as int]@);
        let line = &rows[i].line;
        let mut skip = false;
        match hidden {
            Some(ind) => {
                if line.indent > ind {
                    skip = true;
                } else if line.indent == ind && line.block_close {
                    skip = true;
                    hidden = None;
                } else {
                    hidden = None;
                }
            },
            None => {},
        }
        if !skip {
            shown.push(i);
            if line.block_open && contains_key(collapsed, rows[i].line_key.as_str()) {
                hidden = Some(line.indent);
            } else {
                hidden = None;
            }
        }
        i += 1;
    }
    assert(rv.take(i as int) =~= rv);
    shown
}

/// The collapsed set after `key` is toggled: its entries removed when it
/// is there, else added.
pub open spec fn toggled(collapsed: Seq<Seq<char>>, key: Seq<char>) -> Seq<Seq<char>> {
    if collapsed.contains(key) {
        crate::recent::without(collapsed, key)
    } else {
        collapsed.push(key)
    }
}

/// Collapses the block keyed `key` when it is open, expands it when it is
/// collapsed.
pub fn toggle_collapsed(collapsed: &mut Vec<String>, key: &str)
    ensures
        string_views(final(collapsed)@) == toggled(string_views(old(collapsed)@), key@),
        string_views(final(collapsed)@).contains(key@) <==> !string_views(old(collapsed)@).contains(
            key@,
        ),
{
    let ghost before = string_views(collapsed@);
    if !contains_key(collapsed.as_slice(), key) {
        collapsed.push(String::from_str(key));
        assert(string_views(collapsed@) =~= before.push(key@));
        assert(string_views(collapsed@)[before.len() as int] == key@);
        return;
    }
    let mut kept: Vec<String> = Vec::new();
    let mut i: usize = 0;
    assert(string_views(kept@) =~= crate::recent::without(before.take(0), key@));
    while i < collapsed.len()
        invariant
            0 <= i <= collapsed@.len(),
            before == string_views(collapsed@),
            string_views(kept@) == crate::recent::without(before.take(i as int), key@),
        decreases collapsed@.len() - i,
    {
        assert(before.take(i + 1).drop_last() =~= before.take(i as int));
        assert(before.take(i + 1).last() == collapsed@[i as int]@);
        if !crate::text::str_eq(collapsed[i].as_str(), key) {
            let ghost k = string_views(kept@);
            kept.push(collapsed[i].clone());
            assert(string_views(kept@) =~= k.push(collapsed@[i as int]@));
        }
        i += 1;
    }
    assert(before.take(i as int) =~= before);
    proof {
        crate::recent::lemma_without_excludes(before, key@);
    }
    *collapsed = kept;
}

} // verus!
