//! Laying out a content stream as indented instructions ("nice view").
//!
//! Tokens accumulate as operands until an operator arrives; the operator and
//! its operands then form one line. `q`, `BT`, `BDC` and `BX` open a block
//! and indent the lines after them (at most 64 levels); `Q`, `ET`, `EMC` and
//! `EX` close one and are printed one level further out.
use vstd::prelude::*;
use vstd::string::*;
use crate::content::{char_vec_views, content_tokens, content_tokens_of, copy_range};
use crate::text::{
    char_alphabetic, char_utf8_len, chars_eq_str, decode_utf8_lossy, is_alphabetic, is_control,
    all_ascii_chars, all_ascii_letters, all_ascii_bytes, ascii_chars, is_ascii_letter,
    push_all, push_str, seq_utf8_len, spec_is_control, string_from_chars, utf8_len, utf8_lossy,
    lemma_seq_utf8_len_push,
};

verus! {

/// Deepest indentation that the nice view uses.
pub const MAX_NICE_INDENT: usize = 64;

/// Byte length at which an operand is cut short.
pub const COMPACT_TOKEN_MAX_BYTES: usize = 96;

/// One line of the nice view, as a mathematical value.
pub struct NiceLine {
    pub indent: nat,
    pub text: Seq<char>,
    pub block_open: bool,
    pub block_close: bool,
}

/// One line of the nice view: an instruction (operands and operator) or the
/// operands left over at the end of the stream.
#[derive(Clone, Debug, PartialEq, Eq)]
pub struct NiceStreamLine {
    pub indent: usize,
    pub text: String,
    pub block_open: bool,
    pub block_close: bool,
}

impl View for NiceStreamLine {
    type V = NiceLine;

    open spec fn view(&self) -> NiceLine {
        NiceLine {
            indent: self.indent as nat,
            text: self.text@,
            block_open: self.block_open,
            block_close: self.block_close,
        }
    }
}

/// The values of a sequence of lines.
pub open spec fn line_views(v: Seq<NiceStreamLine>) -> Seq<NiceLine> {
    Seq::new(v.len(), |i: int| v[i]@)
}

/// The operators that the nice view always recognises.
pub open spec fn is_operator_keyword(t: Seq<char>) -> bool {
    ||| t == "Tf"@ ||| t == "Do"@ ||| t == "gs"@ ||| t == "sh"@ ||| t == "CS"@ ||| t == "cs"@
    ||| t == "BT"@ ||| t == "ET"@ ||| t == "Tj"@ ||| t == "TJ"@ ||| t == "'"@ ||| t == "\""@
    ||| t == "Td"@ ||| t == "TD"@ ||| t == "Tm"@ ||| t == "T*"@ ||| t == "Tc"@ ||| t == "TL"@
    ||| t == "Ts"@ ||| t == "Tw"@ ||| t == "Tz"@ ||| t == "q"@ ||| t == "Q"@ ||| t == "cm"@
    ||| t == "m"@ ||| t == "l"@ ||| t == "c"@ ||| t == "v"@ ||| t == "y"@ ||| t == "h"@
    ||| t == "re"@ ||| t == "S"@ ||| t == "s"@ ||| t == "f"@ ||| t == "F"@ ||| t == "f*"@
    ||| t == "B"@ ||| t == "B*"@ ||| t == "b"@ ||| t == "b*"@ ||| t == "n"@ ||| t == "W"@
    ||| t == "W*"@ ||| t == "rg"@ ||| t == "RG"@ ||| t == "g"@ ||| t == "G"@ ||| t == "k"@
    ||| t == "K"@ ||| t == "sc"@ ||| t == "SC"@ ||| t == "scn"@ ||| t == "SCN"@ ||| t == "MP"@
    ||| t == "DP"@ ||| t == "BDC"@ ||| t == "EMC"@ ||| t == "BX"@ ||| t == "EX"@ ||| t == "w"@
    ||| t == "J"@ ||| t == "j"@ ||| t == "M"@ ||| t == "d"@ ||| t == "ri"@ ||| t == "BI"@
    ||| t == "ID"@ ||| t == "EI"@
}

/// Whether every character of `t` is alphabetic.
pub open spec fn all_alphabetic(t: Seq<char>) -> bool {
    forall|i: int| 0 <= i < t.len() ==> char_alphabetic(#[trigger] t[i])
}

/// Whether token `t`, arriving after `operands`, is an operator: a known one,
/// or a short alphabetic word that follows at least one operand.
pub open spec fn is_content_operator(t: Seq<char>, operands: Seq<Seq<char>>) -> bool {
    is_operator_keyword(t) || (seq_utf8_len(t) <= 3 && operands.len() > 0 && all_alphabetic(t))
}

/// Operators that open a block.
pub open spec fn opens_block(t: Seq<char>) -> bool {
    t == "q"@ || t == "BT"@ || t == "BDC"@ || t == "BX"@
}

/// Operators that close a block.
pub open spec fn closes_block(t: Seq<char>) -> bool {
    t == "Q"@ || t == "ET"@ || t == "EMC"@ || t == "EX"@
}

/// Compacting `t` from index `i` on, with `out` produced so far: control
/// characters become spaces, and once the output reaches 96 bytes it ends
/// with `...`.
pub open spec fn compact_token_from(t: Seq<char>, i: nat, out: Seq<char>) -> Seq<char>
    decreases t.len() - i,
{
    if i >= t.len() {
        out
    } else {
        let ch = if spec_is_control(t[i as int]) {
            ' '
        } else {
            t[i as int]
        };
        let next = out.push(ch);
        if seq_utf8_len(next) >= 96 {
            next + "..."@
        } else {
            compact_token_from(t, i + 1, next)
        }
    }
}

/// An operand as the nice view prints it.
pub open spec fn compact_token(t: Seq<char>) -> Seq<char> {
    compact_token_from(t, 0, seq![])
}

/// `parts` joined by single spaces.
pub open spec fn join_spaced(parts: Seq<Seq<char>>) -> Seq<char>
    decreases parts.len(),
{
    if parts.len() == 0 {
        seq![]
    } else if parts.len() == 1 {
        parts[0]
    } else {
        join_spaced(parts.drop_last()) + seq![' '] + parts.last()
    }
}

/// The operands as the nice view prints them: compacted and space-separated,
/// or `-` when there are none.
pub open spec fn compact_operands(operands: Seq<Seq<char>>) -> Seq<char> {
    if operands.len() == 0 {
        "-"@
    } else {
        join_spaced(Seq::new(operands.len(), |i: int| compact_token(operands[i])))
    }
}

/// An instruction line: the compacted operands, a space and the operator, or
/// the operator alone.
pub open spec fn instruction_line(operator: Seq<char>, operands: Seq<Seq<char>>) -> Seq<char> {
    if operands.len() == 0 {
        operator
    } else {
        compact_operands(operands) + seq![' '] + operator
    }
}

/// What the layout has built after some tokens: finished lines, operands
/// waiting for their operator, and the current indentation.
pub struct NiceState {
    pub lines: Seq<NiceLine>,
    pub operands: Seq<Seq<char>>,
    pub indent: nat,
}

/// The layout state after one more token.
pub open spec fn nice_step(s: NiceState, token: Seq<char>) -> NiceState {
    if is_content_operator(token, s.operands) {
        let indent = if closes_block(token) && s.indent > 0 {
            (s.indent - 1) as nat
        } else {
            s.indent
        };
        let line = NiceLine {
            indent,
            text: instruction_line(token, s.operands),
            block_open: opens_block(token),
            block_close: closes_block(token),
        };
        let next_indent = if opens_block(token) {
            if indent + 1 <= 64 {
                indent + 1
            } else {
                64
            }
        } else {
            indent
        };
        NiceState { lines: s.lines.push(line), operands: seq![], indent: next_indent }
    } else {
        NiceState { lines: s.lines, operands: s.operands.push(token), indent: s.indent }
    }
}

/// The layout state after all of `tokens`.
pub open spec fn nice_fold(tokens: Seq<Seq<char>>) -> NiceState
    decreases tokens.len(),
{
    if tokens.len() == 0 {
        NiceState { lines: seq![], operands: seq![], indent: 0 }
    } else {
        nice_step(nice_fold(tokens.drop_last()), tokens.last())
    }
}

/// The line that stands for an empty content stream.
pub open spec fn empty_stream_line() -> NiceLine {
    NiceLine {
        indent: 0,
        text: "<empty content stream>"@,
        block_open: false,
        block_close: false,
    }
}

/// The nice view of a token sequence.
pub open spec fn nice_lines_of(tokens: Seq<Seq<char>>) -> Seq<NiceLine> {
    if tokens.len() == 0 {
        seq![empty_stream_line()]
    } else {
        let s = nice_fold(tokens);
        if s.operands.len() > 0 {
            s.lines.push(
                NiceLine {
                    indent: s.indent,
                    text: compact_operands(s.operands),
                    block_open: false,
                    block_close: false,
                },
            )
        } else {
            s.lines
        }
    }
}

/// The nice view of a content stream's bytes.
pub open spec fn content_nice_lines(bytes: Seq<u8>) -> Seq<NiceLine> {
    nice_lines_of(content_tokens(utf8_lossy(bytes)))
}

/// The content-stream operators the nice view lays out, by the part of
/// the content-stream language they belong to.
pub open spec fn standard_operators() -> Set<Seq<char>> {
    set![
        // text
        "BT"@, "ET"@, "Tf"@, "Td"@, "TD"@, "Tm"@, "T*"@, "Tc"@, "TL"@, "Ts"@, "Tw"@, "Tz"@, "Tj"@,
        "TJ"@, "'"@, "\""@,
        // graphics state
        "q"@, "Q"@, "cm"@, "gs"@, "w"@, "J"@, "j"@, "M"@, "d"@, "ri"@,
        // path construction, painting and clipping
        "m"@, "l"@, "c"@, "v"@, "y"@, "h"@, "re"@, "S"@, "s"@, "f"@, "F"@, "f*"@, "B"@, "B*"@,
        "b"@, "b*"@, "n"@, "W"@, "W*"@,
        // colour
        "CS"@, "cs"@, "SC"@, "sc"@, "SCN"@, "scn"@, "G"@, "g"@, "RG"@, "rg"@, "K"@, "k"@,
        // shading, XObjects, marked content, compatibility and inline images
        "sh"@, "Do"@, "MP"@, "DP"@, "BDC"@, "EMC"@, "BX"@, "EX"@, "BI"@, "ID"@, "EI"@,
    ]
}

/// The operators the nice view always recognises are exactly those of the
/// table.
pub proof fn lemma_operator_keywords(t: Seq<char>)
    ensures
        is_operator_keyword(t) <==> standard_operators().contains(t),
{
}

/// Every operator of the table ends the instruction it belongs to, whether
/// or not operands came before it: after it no operand is pending and one
/// line more is laid out, the operands before it followed by the operator;
/// with no operands pending, that line is the operator alone. The line
/// opens a block for `q`, `BT`, `BDC` and `BX` and closes one for `Q`,
/// `ET`, `EMC` and `EX`.
pub proof fn lemma_operator_ends_instruction(tokens: Seq<Seq<char>>, op: Seq<char>)
    requires
        standard_operators().contains(op),
    ensures
        forall|ops: Seq<Seq<char>>| #[trigger] is_content_operator(op, ops),
        nice_fold(tokens.push(op)).operands.len() == 0,
        nice_fold(tokens.push(op)).lines.len() == nice_fold(tokens).lines.len() + 1,
        nice_fold(tokens.push(op)).lines.drop_last() == nice_fold(tokens).lines,
        nice_fold(tokens.push(op)).lines.last().text == instruction_line(
            op,
            nice_fold(tokens).operands,
        ),
        nice_fold(tokens).operands.len() == 0 ==> nice_fold(tokens.push(op)).lines.last().text
            == op,
        nice_fold(tokens.push(op)).lines.last().block_open <==> set![
            "q"@,
            "BT"@,
            "BDC"@,
            "BX"@,
        ].contains(op),
        nice_fold(tokens.push(op)).lines.last().block_close <==> set![
            "Q"@,
            "ET"@,
            "EMC"@,
            "EX"@,
        ].contains(op),
{
    assert(is_operator_keyword(op));
    assert(tokens.push(op).drop_last() =~= tokens);
    let s = nice_fold(tokens);
    assert(nice_fold(tokens.push(op)) == nice_step(s, op));
    assert(nice_step(s, op).lines.drop_last() =~= s.lines);
}

/// Whether every line of `lines` is indented at most `MAX_NICE_INDENT`
/// levels.
pub open spec fn indents_bounded(lines: Seq<NiceLine>) -> bool {
    forall|k: int| 0 <= k < lines.len() ==> #[trigger] lines[k].indent <= MAX_NICE_INDENT
}

/// The layout never indents past the cap, neither its lines nor its
/// current level.
proof fn lemma_nice_fold_bounded(tokens: Seq<Seq<char>>)
    ensures
        indents_bounded(nice_fold(tokens).lines),
        nice_fold(tokens).indent <= MAX_NICE_INDENT,
    decreases tokens.len(),
{
    if tokens.len() > 0 {
        lemma_nice_fold_bounded(tokens.drop_last());
        let s = nice_fold(tokens.drop_last());
        let n = nice_step(s, tokens.last());
        assert forall|k: int| 0 <= k < n.lines.len() implies #[trigger] n.lines[k].indent
            <= MAX_NICE_INDENT by {
            if k < s.lines.len() {
                assert(n.lines[k] == s.lines[k]);
            }
        }
    }
}

/// The nice view of any content stream has at least one line, and no line
/// is indented more than `MAX_NICE_INDENT` levels, however deeply the
/// stream nests its blocks.
pub proof fn lemma_nice_lines_bounded(bytes: Seq<u8>)
    ensures
        content_nice_lines(bytes).len() >= 1,
        indents_bounded(content_nice_lines(bytes)),
{
    let tokens = content_tokens(utf8_lossy(bytes));
    if tokens.len() > 0 {
        lemma_nice_fold_bounded(tokens);
        let s = nice_fold(tokens);
        if s.operands.len() == 0 {
            assert(s.lines.len() >= 1) by {
                lemma_nice_fold_lines_or_operands(tokens);
            }
        }
    }
}

/// After at least one token, the layout has finished a line or holds an
/// operand.
proof fn lemma_nice_fold_lines_or_operands(tokens: Seq<Seq<char>>)
    requires
        tokens.len() > 0,
    ensures
        nice_fold(tokens).lines.len() > 0 || nice_fold(tokens).operands.len() > 0,
    decreases tokens.len(),
{
}

/// The level the line after `l` starts from: one deeper after a line that
/// opens a block (at most `MAX_NICE_INDENT`), else the same.
pub open spec fn after_indent(l: NiceLine) -> nat {
    if l.block_open {
        if l.indent + 1 <= 64 {
            l.indent + 1
        } else {
            64
        }
    } else {
        l.indent
    }
}

/// The indentation of a line after `prev`: the level after `prev`, one
/// less (not below 0) when the line closes a block.
pub open spec fn next_line_indent(prev: NiceLine, closes: bool) -> nat {
    let d = after_indent(prev);
    if closes && d > 0 {
        (d - 1) as nat
    } else {
        d
    }
}

/// Whether lines are indented as the nice view lays them out: the first at
/// level 0, each next one from the level its predecessor leaves, no line
/// both opening and closing a block.
pub open spec fn indents_follow(lines: Seq<NiceLine>) -> bool {
    &&& lines.len() > 0 ==> lines[0].indent == 0
    &&& forall|i: int|
        0 <= i < lines.len() - 1 ==> #[trigger] lines[i + 1].indent == next_line_indent(
            lines[i],
            lines[i + 1].block_close,
        )
    &&& forall|i: int| 0 <= i < lines.len() ==> !(#[trigger] lines[i].block_open && lines[i].block_close)
}

/// No operator both opens and closes a block.
proof fn lemma_open_close_disjoint(t: Seq<char>)
    ensures
        !(opens_block(t) && closes_block(t)),
{
    reveal_strlit("q");
    reveal_strlit("BT");
    reveal_strlit("BDC");
    reveal_strlit("BX");
    reveal_strlit("Q");
    reveal_strlit("ET");
    reveal_strlit("EMC");
    reveal_strlit("EX");
    if opens_block(t) && closes_block(t) {
        if t == "q"@ {
            assert(t[0] == 'q');
        } else if t == "BT"@ {
            assert(t[1] == 'T');
        } else if t == "BDC"@ {
            assert(t.len() == 3 && t[0] == 'B');
        } else {
            assert(t[1] == 'X');
        }
    }
}

/// The layout's lines follow one another as `indents_follow` says, and the
/// current level is the one the last line leaves.
proof fn lemma_nice_fold_follows(tokens: Seq<Seq<char>>)
    ensures
        indents_follow(nice_fold(tokens).lines),
        nice_fold(tokens).lines.len() == 0 ==> nice_fold(tokens).indent == 0,
        nice_fold(tokens).lines.len() > 0 ==> nice_fold(tokens).indent == after_indent(
            nice_fold(tokens).lines.last(),
        ),
    decreases tokens.len(),
{
    if tokens.len() > 0 {
        lemma_nice_fold_follows(tokens.drop_last());
        let s = nice_fold(tokens.drop_last());
        let t = tokens.last();
        let n = nice_step(s, t);
        if is_content_operator(t, s.operands) {
            lemma_open_close_disjoint(t);
            let l = n.lines.last();
            assert(n.lines == s.lines.push(l));
            assert forall|i: int| 0 <= i < n.lines.len() - 1 implies #[trigger] n.lines[i + 1].indent
                == next_line_indent(n.lines[i], n.lines[i + 1].block_close) by {
                assert(n.lines[i] == s.lines[i]);
                if i + 1 < s.lines.len() {
                    assert(n.lines[i + 1] == s.lines[i + 1]);
                }
            }
            assert forall|i: int| 0 <= i < n.lines.len() implies !(#[trigger] n.lines[i].block_open
                && n.lines[i].block_close) by {
                if i < s.lines.len() {
                    assert(n.lines[i] == s.lines[i]);
                }
            }
            if s.lines.len() > 0 {
                assert(n.lines[0] == s.lines[0]);
            }
        }
    }
}

/// The nice view's lines follow one another: the first is not indented;
/// after a line that opens a block the next is one level deeper (at most
/// `MAX_NICE_INDENT`), after any other line at the same level, and a line
/// that closes a block sits one level less (not below 0); no line both
/// opens and closes a block. An empty stream is one line,
/// `<empty content stream>`.
pub proof fn lemma_nice_lines_follow(bytes: Seq<u8>)
    ensures
        indents_follow(content_nice_lines(bytes)),
        content_tokens(utf8_lossy(bytes)).len() == 0 ==> content_nice_lines(bytes) == seq![
            empty_stream_line(),
        ],
{
    let tokens = content_tokens(utf8_lossy(bytes));
    if tokens.len() > 0 {
        lemma_nice_fold_follows(tokens);
        let s = nice_fold(tokens);
        if s.operands.len() > 0 {
            let l = NiceLine {
                indent: s.indent,
                text: compact_operands(s.operands),
                block_open: false,
                block_close: false,
            };
            let r = s.lines.push(l);
            assert(content_nice_lines(bytes) == r);
            assert forall|i: int| 0 <= i < r.len() - 1 implies #[trigger] r[i + 1].indent
                == next_line_indent(r[i], r[i + 1].block_close) by {
                assert(r[i] == s.lines[i]);
                if i + 1 < s.lines.len() {
                    assert(r[i + 1] == s.lines[i + 1]);
                }
            }
            assert forall|i: int| 0 <= i < r.len() implies !(#[trigger] r[i].block_open
                && r[i].block_close) by {
                if i < s.lines.len() {
                    assert(r[i] == s.lines[i]);
                }
            }
            if s.lines.len() > 0 {
                assert(r[0] == s.lines[0]);
            }
        }
    } else {
        let r = content_nice_lines(bytes);
        assert(r == seq![empty_stream_line()]);
        assert(r[0].indent == 0);
    }
}

/// Two spaces per indentation level.
pub open spec fn indent_spaces(indent: nat) -> Seq<char> {
    Seq::new(2 * indent, |i: int| ' ')
}

/// The text of the nice view: each line indented and ended by a newline.
pub open spec fn nice_text(lines: Seq<NiceLine>) -> Seq<char>
    decreases lines.len(),
{
    if lines.len() == 0 {
        seq![]
    } else {
        nice_text(lines.drop_last()) + indent_spaces(lines.last().indent) + lines.last().text
            + seq!['\n']
    }
}

/// Whether `t` is one of the operators that the nice view always recognises.
pub fn is_operator_keyword_exec(t: &[char]) -> (b: bool)
    ensures
        b == is_operator_keyword(t@),
{
    chars_eq_str(t, "Tf") || chars_eq_str(t, "Do") || chars_eq_str(t, "gs") || chars_eq_str(t, "sh")
        || chars_eq_str(t, "CS") || chars_eq_str(t, "cs") || chars_eq_str(t, "BT") || chars_eq_str(
        t,
        "ET",
    ) || chars_eq_str(t, "Tj") || chars_eq_str(t, "TJ") || chars_eq_str(t, "'") || chars_eq_str(
        t,
        "\"",
    ) || chars_eq_str(t, "Td") || chars_eq_str(t, "TD") || chars_eq_str(t, "Tm") || chars_eq_str(
        t,
        "T*",
    ) || chars_eq_str(t, "Tc") || chars_eq_str(t, "TL") || chars_eq_str(t, "Ts") || chars_eq_str(
        t,
        "Tw",
    ) || chars_eq_str(t, "Tz") || chars_eq_str(t, "q") || chars_eq_str(t, "Q") || chars_eq_str(
        t,
        "cm",
    ) || chars_eq_str(t, "m") || chars_eq_str(t, "l") || chars_eq_str(t, "c") || chars_eq_str(
        t,
        "v",
    ) || chars_eq_str(t, "y") || chars_eq_str(t, "h") || chars_eq_str(t, "re") || chars_eq_str(
        t,
        "S",
    ) || chars_eq_str(t, "s") || chars_eq_str(t, "f") || chars_eq_str(t, "F") || chars_eq_str(
        t,
        "f*",
    ) || chars_eq_str(t, "B") || chars_eq_str(t, "B*") || chars_eq_str(t, "b") || chars_eq_str(
        t,
        "b*",
    ) || chars_eq_str(t, "n") || chars_eq_str(t, "W") || chars_eq_str(t, "W*") || chars_eq_str(
        t,
        "rg",
    ) || chars_eq_str(t, "RG") || chars_eq_str(t, "g") || chars_eq_str(t, "G") || chars_eq_str(
        t,
        "k",
    ) || chars_eq_str(t, "K") || chars_eq_str(t, "sc") || chars_eq_str(t, "SC") || chars_eq_str(
        t,
        "scn",
    ) || chars_eq_str(t, "SCN") || chars_eq_str(t, "MP") || chars_eq_str(t, "DP") || chars_eq_str(
        t,
        "BDC",
    ) || chars_eq_str(t, "EMC") || chars_eq_str(t, "BX") || chars_eq_str(t, "EX") || chars_eq_str(
        t,
        "w",
    ) || chars_eq_str(t, "J") || chars_eq_str(t, "j") || chars_eq_str(t, "M") || chars_eq_str(
        t,
        "d",
    ) || chars_eq_str(t, "ri") || chars_eq_str(t, "BI") || chars_eq_str(t, "ID") || chars_eq_str(
        t,
        "EI",
    )
}

/// Whether `operator` opens a block (`q`, `BT`, `BDC`, `BX`).
pub fn is_pdf_content_block_open(operator: &[char]) -> (b: bool)
    ensures
        b == opens_block(operator@),
{
    chars_eq_str(operator, "q") || chars_eq_str(operator, "BT") || chars_eq_str(operator, "BDC")
        || chars_eq_str(operator, "BX")
}

/// Whether `operator` closes a block (`Q`, `ET`, `EMC`, `EX`).
pub fn is_pdf_content_block_close(operator: &[char]) -> (b: bool)
    ensures
        b == closes_block(operator@),
{
    chars_eq_str(operator, "Q") || chars_eq_str(operator, "ET") || chars_eq_str(operator, "EMC")
        || chars_eq_str(operator, "EX")
}

pub proof fn lemma_seq_utf8_len_prefix(s: Seq<char>, k: int)
    requires
        0 <= k <= s.len(),
    ensures
        seq_utf8_len(s.take(k)) <= seq_utf8_len(s),
    decreases s.len(),
{
    if k < s.len() {
        assert(s.drop_last().take(k) =~= s.take(k));
        lemma_seq_utf8_len_prefix(s.drop_last(), k);
    } else {
        assert(s.take(k) =~= s);
    }
}

/// `t` with every control character turned into a space.
pub open spec fn spaced_controls(t: Seq<char>) -> Seq<char> {
    t.map_values(|ch: char| if spec_is_control(ch) {
        ' '
    } else {
        ch
    })
}

proof fn lemma_compact_from_closed(t: Seq<char>, i: nat, out: Seq<char>) -> (k: int)
    requires
        i <= t.len(),
        out == spaced_controls(t).take(i as int),
        seq_utf8_len(out) < 96,
    ensures
        seq_utf8_len(spaced_controls(t)) < 96 ==> compact_token_from(t, i, out) == spaced_controls(t),
        seq_utf8_len(spaced_controls(t)) >= 96 ==> {
            let c = spaced_controls(t);
            &&& 1 <= k <= c.len()
            &&& compact_token_from(t, i, out) == c.take(k) + "..."@
            &&& seq_utf8_len(c.take(k)) >= 96
            &&& seq_utf8_len(c.take(k - 1)) < 96
        },
    decreases t.len() - i,
{
    let c = spaced_controls(t);
    if i >= t.len() {
        assert(out =~= c);
        0
    } else {
        let ch = if spec_is_control(t[i as int]) {
            ' '
        } else {
            t[i as int]
        };
        let next = out.push(ch);
        assert(next =~= c.take(i as int + 1));
        if seq_utf8_len(next) >= 96 {
            lemma_seq_utf8_len_prefix(c, i as int + 1);
            assert(c.take(i as int + 1 - 1) =~= out);
            i as int + 1
        } else {
            lemma_compact_from_closed(t, i + 1, next)
        }
    }
}

/// An operand as the nice view prints it, in closed form: its control
/// characters turned into spaces; when that takes 96 UTF-8 bytes or more,
/// cut after the shortest start that takes at least 96 bytes and followed
/// by `...`.
pub proof fn lemma_compact_token_closed(t: Seq<char>)
    ensures
        seq_utf8_len(spaced_controls(t)) < 96 ==> compact_token(t) == spaced_controls(t),
        seq_utf8_len(spaced_controls(t)) >= 96 ==> exists|k: int|
            1 <= k <= spaced_controls(t).len() && compact_token(t) == spaced_controls(t).take(k)
                + "..."@ && seq_utf8_len(#[trigger] spaced_controls(t).take(k)) >= 96
                && seq_utf8_len(spaced_controls(t).take(k - 1)) < 96,
{
    assert(spaced_controls(t).take(0) =~= Seq::<char>::empty());
    assert(seq_utf8_len(Seq::<char>::empty()) == 0);
    let k = lemma_compact_from_closed(t, 0, seq![]);
    if seq_utf8_len(spaced_controls(t)) >= 96 {
        assert(seq_utf8_len(spaced_controls(t).take(k)) >= 96);
    }
}

/// Whether the UTF-8 encoding of `t` takes at most three bytes.
fn utf8_len_at_most_3(t: &[char]) -> (b: bool)
    ensures
        b == (seq_utf8_len(t@) <= 3),
{
    let mut bytes: usize = 0;
    let mut i: usize = 0;
    while i < t.len()
        invariant
            0 <= i <= t@.len(),
            bytes == seq_utf8_len(t@.take(i as int)),
            bytes <= 3,
        decreases t@.len() - i,
    {
        proof {
            assert(t@.take(i + 1) =~= t@.take(i as int).push(t@[i as int]));
            lemma_seq_utf8_len_push(t@.take(i as int), t@[i as int]);
        }
        bytes = bytes + char_utf8_len(t[i]);
        if bytes > 3 {
            proof {
                lemma_seq_utf8_len_prefix(t@, i + 1);
            }
            return false;
        }
        i += 1;
    }
    assert(t@.take(i as int) =~= t@);
    true
}

/// Whether every character of `t` is alphabetic.
fn all_alphabetic_exec(t: &[char]) -> (b: bool)
    ensures
        b == all_alphabetic(t@),
        all_ascii_chars(t@) ==> (b <==> all_ascii_letters(t@)),
{
    let mut i: usize = 0;
    while i < t.len()
        invariant
            0 <= i <= t@.len(),
            forall|k: int| 0 <= k < i ==> char_alphabetic(#[trigger] t@[k]),
            all_ascii_chars(t@) ==> forall|k: int| 0 <= k < i ==> is_ascii_letter(#[trigger] t@[k]),
        decreases t@.len() - i,
    {
        if !is_alphabetic(t[i]) {
            return false;
        }
        i += 1;
    }
    true
}

/// Whether `operator`, arriving after `operand_count` operands, is an operator.
pub fn is_pdf_content_operator(operator: &[char], operand_count: usize) -> (b: bool)
    ensures
        forall|ops: Seq<Seq<char>>| ops.len() == operand_count ==> b == is_content_operator(
            operator@,
            ops,
        ),
        all_ascii_chars(operator@) ==> (b == (is_operator_keyword(operator@) || (seq_utf8_len(
            operator@,
        ) <= 3 && operand_count > 0 && all_ascii_letters(operator@)))),
{
    is_operator_keyword_exec(operator) || (utf8_len_at_most_3(operator) && operand_count > 0
        && all_alphabetic_exec(operator))
}

/// An operand as the nice view prints it: control characters become spaces
/// and a long operand is cut at 96 bytes and ends with `...`.
pub fn compact_pdf_token(token: &[char]) -> (out: Vec<char>)
    ensures
        out@ == compact_token(token@),
{
    let mut out: Vec<char> = Vec::new();
    let mut bytes: usize = 0;
    let mut i: usize = 0;
    while i < token.len()
        invariant
            0 <= i <= token@.len(),
            bytes == seq_utf8_len(out@),
            bytes < 96,
            compact_token_from(token@, i as nat, out@) == compact_token(token@),
        decreases token@.len() - i,
    {
        let ch = if is_control(token[i]) {
            ' '
        } else {
            token[i]
        };
        proof {
            lemma_seq_utf8_len_push(out@, ch);
        }
        out.push(ch);
        bytes = bytes + char_utf8_len(ch);
        if bytes >= 96 {
            push_str(&mut out, "...");
            return out;
        }
        i += 1;
    }
    out
}

pub proof fn lemma_join_spaced_take(parts: Seq<Seq<char>>, i: int)
    requires
        1 <= i < parts.len(),
    ensures
        join_spaced(parts.take(i + 1)) == join_spaced(parts.take(i)) + seq![' '] + parts[i],
{
    assert(parts.take(i + 1).drop_last() =~= parts.take(i));
}

/// The operands as the nice view prints them.
pub fn compact_pdf_operands(operands: &[Vec<char>]) -> (out: Vec<char>)
    ensures
        out@ == compact_operands(char_vec_views(operands@)),
{
    let ghost ops = char_vec_views(operands@);
    if operands.len() == 0 {
        let mut out = Vec::new();
        push_str(&mut out, "-");
        assert(out@ =~= "-"@);
        return out;
    }
    let ghost parts = Seq::new(ops.len(), |i: int| compact_token(ops[i]));
    let mut out = compact_pdf_token(operands[0].as_slice());
    assert(parts.take(1) =~= seq![parts[0]]);
    let mut i: usize = 1;
    while i < operands.len()
        invariant
            1 <= i <= operands@.len(),
            ops == char_vec_views(operands@),
            parts == Seq::new(ops.len(), |i: int| compact_token(ops[i])),
            out@ == join_spaced(parts.take(i as int)),
        decreases operands@.len() - i,
    {
        proof {
            lemma_join_spaced_take(parts, i as int);
        }
        out.push(' ');
        let part = compact_pdf_token(operands[i].as_slice());
        push_all(&mut out, &part);
        i += 1;
    }
    assert(parts.take(i as int) =~= parts);
    out
}

/// An instruction line: compacted operands, a space, then the operator.
pub fn pdf_content_instruction_line(operator: &[char], operands: &[Vec<char>]) -> (out: Vec<char>)
    ensures
        out@ == instruction_line(operator@, char_vec_views(operands@)),
{
    if operands.len() == 0 {
        copy_range(operator, 0, operator.len())
    } else {
        let mut out = compact_pdf_operands(operands);
        out.push(' ');
        let op = copy_range(operator, 0, operator.len());
        push_all(&mut out, &op);
        assert(operator@.subrange(0, operator@.len() as int) =~= operator@);
        out
    }
}

/// Copies the characters of `v` into a fresh vector.
fn copy_chars(v: &Vec<char>) -> (out: Vec<char>)
    ensures
        out@ == v@,
{
    let out = copy_range(v.as_slice(), 0, v.len());
    assert(v@.subrange(0, v@.len() as int) =~= v@);
    out
}

/// The nice view of a token sequence.
pub fn nice_lines_from_tokens(tokens: &Vec<Vec<char>>) -> (lines: Vec<NiceStreamLine>)
    ensures
        line_views(lines@) == nice_lines_of(char_vec_views(tokens@)),
{
    let ghost toks = char_vec_views(tokens@);
    if tokens.len() == 0 {
        let line = NiceStreamLine {
            indent: 0,
            text: String::from_str("<empty content stream>"),
            block_open: false,
            block_close: false,
        };
        let lines = vec![line];
        assert(line_views(lines@) =~= seq![empty_stream_line()]);
        return lines;
    }
    let mut lines: Vec<NiceStreamLine> = Vec::new();
    let mut operands: Vec<Vec<char>> = Vec::new();
    let mut indent: usize = 0;
    let mut i: usize = 0;
    assert(toks.take(0) =~= seq![]);
    assert(line_views(lines@) =~= seq![]);
    assert(char_vec_views(operands@) =~= seq![]);
    while i < tokens.len()
        invariant
            toks == char_vec_views(tokens@),
            0 <= i <= tokens@.len(),
            indent <= MAX_NICE_INDENT,
            nice_fold(toks.take(i as int)) == (NiceState {
                lines: line_views(lines@),
                operands: char_vec_views(operands@),
                indent: indent as nat,
            }),
        decreases tokens@.len() - i,
    {
        proof {
            assert(toks.take(i + 1).drop_last() =~= toks.take(i as int));
            assert(toks.take(i + 1).last() == toks[i as int]);
        }
        let token = &tokens[i];
        let ghost before_lines = line_views(lines@);
        let ghost before_operands = char_vec_views(operands@);
        if is_pdf_content_operator(token.as_slice(), operands.len()) {
            let block_close = is_pdf_content_block_close(token.as_slice());
            if block_close && indent > 0 {
                indent = indent - 1;
            }
            let text = pdf_content_instruction_line(token.as_slice(), operands.as_slice());
            let block_open = is_pdf_content_block_open(token.as_slice());
            let line = NiceStreamLine {
                indent,
                text: string_from_chars(&text),
                block_open,
                block_close,
            };
            lines.push(line);
            if block_open {
                indent = if indent + 1 <= MAX_NICE_INDENT {
                    indent + 1
                } else {
                    MAX_NICE_INDENT
                };
            }
            operands = Vec::new();
            assert(line_views(lines@) =~= before_lines.push(line@));
            assert(char_vec_views(operands@) =~= seq![]);
        } else {
            let copy = copy_chars(token);
            operands.push(copy);
            assert(char_vec_views(operands@) =~= before_operands.push(toks[i as int]));
        }
        i += 1;
    }
    assert(toks.take(i as int) =~= toks);
    if operands.len() > 0 {
        let ghost before_lines = line_views(lines@);
        let text = compact_pdf_operands(operands.as_slice());
        let line = NiceStreamLine {
            indent,
            text: string_from_chars(&text),
            block_open: false,
            block_close: false,
        };
        lines.push(line);
        assert(line_views(lines@) =~= before_lines.push(line@));
    }
    lines
}

/// The nice view of a content stream: its bytes decoded as UTF-8 (invalid
/// sequences replaced), split into tokens and laid out as instructions.
pub fn pdf_content_stream_nice_lines(bytes: &[u8]) -> (lines: Vec<NiceStreamLine>)
    ensures
        line_views(lines@) == content_nice_lines(bytes@),
        all_ascii_bytes(bytes@) ==> line_views(lines@) == nice_lines_of(
            content_tokens(ascii_chars(bytes@)),
        ),
{
    let chars = decode_utf8_lossy(bytes);
    let tokens = content_tokens_of(&chars);
    nice_lines_from_tokens(&tokens)
}

/// Appends one line of the nice view: two spaces per indentation level, the
/// line and a newline.
pub fn push_pdf_content_line(out: &mut String, indent: usize, line: &str)
    ensures
        final(out)@ == old(out)@ + indent_spaces(indent as nat) + line@ + seq!['\n'],
{
    let ghost start = out@;
    let mut k: usize = 0;
    proof {
        reveal_strlit("  ");
        reveal_strlit("\n");
    }
    assert(indent_spaces(0) =~= seq![]);
    while k < indent
        invariant
            0 <= k <= indent,
            out@ == start + indent_spaces(k as nat),
            "  "@ == seq![' ', ' '],
        decreases indent - k,
    {
        out.append("  ");
        assert(indent_spaces((k + 1) as nat) =~= indent_spaces(k as nat) + seq![' ', ' ']);
        k += 1;
    }
    out.append(line);
    out.append("\n");
}

/// The text of the nice view: every line on its own, indented, ending in a
/// newline.
pub fn nice_stream_lines_to_text(lines: &[NiceStreamLine]) -> (out: String)
    ensures
        out@ == nice_text(line_views(lines@)),
{
    let mut out = String::new();
    let mut i: usize = 0;
    assert(line_views(lines@).take(0) =~= seq![]);
    while i < lines.len()
        invariant
            0 <= i <= lines@.len(),
            out@ == nice_text(line_views(lines@).take(i as int)),
        decreases lines@.len() - i,
    {
        let ghost views = line_views(lines@);
        assert(views.take(i + 1).drop_last() =~= views.take(i as int));
        push_pdf_content_line(&mut out, lines[i].indent, lines[i].text.as_str());
        i += 1;
    }
    assert(line_views(lines@).take(i as int) =~= line_views(lines@));
    out
}

/// The nice view of a content stream as text.
pub fn pdf_content_stream_nice_text(bytes: &[u8]) -> (out: String)
    ensures
        out@ == nice_text(content_nice_lines(bytes@)),
        all_ascii_bytes(bytes@) ==> out@ == nice_text(
            nice_lines_of(content_tokens(ascii_chars(bytes@))),
        ),
{
    let lines = pdf_content_stream_nice_lines(bytes);
    nice_stream_lines_to_text(lines.as_slice())
}

} // verus!
