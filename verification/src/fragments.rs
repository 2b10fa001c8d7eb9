//! Text shown by a content stream's text operators.
//!
//! The operands of `Tj`, `TJ`, `'` and `"` are decoded (literal strings with
//! their escapes, hex strings as UTF-16BE when they carry a byte order mark
//! and as UTF-8 otherwise, arrays element by element) into fragments that
//! the viewer then matches against the page's text. Matching goes through a
//! normalised key: control characters dropped, runs of whitespace folded to
//! one space, letters lowercased.
use vstd::prelude::*;
use crate::content::{char_vec_views, content_tokens, content_tokens_of, copy_range, tokens_from,
    lemma_token_end_bounds, lemma_comment_end_bounds, token_end, comment_end, string_views};
use crate::text::{
    all_ascii_chars, all_ascii_bytes, ascii_chars, ascii_lower,
    char_from_u32, char_lowercase, chars_of, decode_utf8_lossy, is_control, is_whitespace,
    push_all, seq_utf8_len, spec_is_control, spec_is_whitespace, string_from_chars,
    to_lowercase, utf8_len, utf8_lossy, lemma_seq_utf8_len_push, char_utf8_len, is_scalar_value,
    chars_eq_str,
};

verus! {

// ---------------------------------------------------------------------------
// Literal strings
// ---------------------------------------------------------------------------
/// Whether `c` is an octal digit.
pub open spec fn is_octal(c: char) -> bool {
    '0' <= c && c <= '7'
}

/// The value of an octal digit.
pub open spec fn octal_digit(c: char) -> nat {
    (c as u32 - '0' as u32) as nat
}

/// Whether `c[j]` exists and is an octal digit.
pub open spec fn octal_at(c: Seq<char>, j: int) -> bool {
    0 <= j < c.len() && is_octal(c[j])
}

/// How many octal digits (at most three) start at `j`.
pub open spec fn octal_run(c: Seq<char>, j: int) -> nat {
    if !octal_at(c, j) {
        0
    } else if !octal_at(c, j + 1) {
        1
    } else if !octal_at(c, j + 2) {
        2
    } else {
        3
    }
}

/// The value of the first `n` octal digits at `j`.
pub open spec fn octal_value(c: Seq<char>, j: int, n: nat) -> nat
    decreases n,
{
    if n == 0 {
        0
    } else {
        octal_value(c, j, (n - 1) as nat) * 8 + octal_digit(c[j + n - 1])
    }
}

/// The text inside a literal string token: without its parentheses when it
/// has both, else the token as it is.
pub open spec fn literal_inner(t: Seq<char>) -> Seq<char> {
    if t.len() >= 2 && t[0] == '(' && t.last() == ')' {
        t.subrange(1, t.len() - 1)
    } else {
        t
    }
}

/// Decoding literal string text from index `i` on: `\n`, `\r`, `\t`, `\b`,
/// `\f` stand for control characters, `\(`, `\)` and `\\` for themselves, a
/// backslash before a line break continues the line, up to three octal
/// digits give a character code, and any other escaped character stands for
/// itself. A backslash at the very end is dropped.
pub open spec fn literal_decode_from(c: Seq<char>, i: nat) -> Seq<char>
    decreases c.len() - i,
{
    if i >= c.len() {
        seq![]
    } else if c[i as int] != '\\' {
        seq![c[i as int]] + literal_decode_from(c, i + 1)
    } else if i + 1 >= c.len() {
        seq![]
    } else {
        let e = c[i + 1int];
        if e == 'n' {
            seq!['\n'] + literal_decode_from(c, i + 2)
        } else if e == 'r' {
            seq!['\r'] + literal_decode_from(c, i + 2)
        } else if e == 't' {
            seq!['\t'] + literal_decode_from(c, i + 2)
        } else if e == 'b' {
            seq!['\u{8}'] + literal_decode_from(c, i + 2)
        } else if e == 'f' {
            seq!['\u{c}'] + literal_decode_from(c, i + 2)
        } else if e == '(' || e == ')' || e == '\\' {
            seq![e] + literal_decode_from(c, i + 2)
        } else if e == '\n' {
            literal_decode_from(c, i + 2)
        } else if e == '\r' {
            if i + 2 < c.len() && c[i + 2int] == '\n' {
                literal_decode_from(c, i + 3)
            } else {
                literal_decode_from(c, i + 2)
            }
        } else if is_octal(e) {
            let k = octal_run(c, i + 1int);
            seq![(octal_value(c, i + 1int, k) as u32) as char] + literal_decode_from(c, i + 1 + k)
        } else {
            seq![e] + literal_decode_from(c, i + 2)
        }
    }
}

/// The text of a literal string token.
pub open spec fn decode_literal(t: Seq<char>) -> Seq<char> {
    literal_decode_from(literal_inner(t), 0)
}

/// How a character is written inside a literal string: `(`, `)` and `\`
/// after a backslash, line feed, carriage return, tab, backspace and form
/// feed as `\n`, `\r`, `\t`, `\b`, `\f`, any other character as itself.
pub open spec fn literal_escape_char(x: char) -> Seq<char> {
    if x == '(' || x == ')' || x == '\\' {
        seq!['\\', x]
    } else if x == '\n' {
        seq!['\\', 'n']
    } else if x == '\r' {
        seq!['\\', 'r']
    } else if x == '\t' {
        seq!['\\', 't']
    } else if x == '\u{8}' {
        seq!['\\', 'b']
    } else if x == '\u{c}' {
        seq!['\\', 'f']
    } else {
        seq![x]
    }
}

/// A text written inside a literal string, character by character.
pub open spec fn literal_escape(t: Seq<char>) -> Seq<char>
    decreases t.len(),
{
    if t.len() == 0 {
        seq![]
    } else {
        literal_escape_char(t[0]) + literal_escape(t.drop_first())
    }
}

proof fn lemma_literal_escape_decodes(c: Seq<char>, i: nat, t: Seq<char>)
    requires
        i + literal_escape(t).len() <= c.len(),
        c.subrange(i as int, (i + literal_escape(t).len()) as int) == literal_escape(t),
    ensures
        literal_decode_from(c, i) == t + literal_decode_from(c, i + literal_escape(t).len()),
    decreases t.len(),
{
    if t.len() > 0 {
        let x = t[0];
        let ex = literal_escape_char(x);
        let rest = t.drop_first();
        assert(literal_escape(t) == ex + literal_escape(rest));
        let sub = c.subrange(i as int, (i + literal_escape(t).len()) as int);
        assert forall|k: int| 0 <= k < ex.len() implies c[i + k] == #[trigger] ex[k] by {
            assert(sub[k] == c[i + k]);
            assert(sub[k] == (ex + literal_escape(rest))[k]);
        }
        assert(c.subrange((i + ex.len()) as int, (i + ex.len() + literal_escape(rest).len()) as int)
            =~= literal_escape(rest)) by {
            assert forall|k: int| 0 <= k < literal_escape(rest).len() implies c[i + ex.len() + k]
                == #[trigger] literal_escape(rest)[k] by {
                assert(sub[ex.len() + k] == c[i + ex.len() + k]);
                assert(sub[ex.len() + k] == (ex + literal_escape(rest))[ex.len() + k]);
            }
        }
        lemma_literal_escape_decodes(c, (i + ex.len()) as nat, rest);
        assert(c[i as int] == ex[0]);
        if ex.len() == 2 {
            assert(c[i + 1int] == ex[1]);
            assert(c[i as int] == '\\');
        } else {
            assert(c[i as int] == x && x != '\\');
        }
        assert(literal_decode_from(c, i) == seq![x] + literal_decode_from(c, (i + ex.len()) as nat));
        assert(t =~= seq![x] + rest);
    } else {
        assert(t + literal_decode_from(c, i) =~= literal_decode_from(c, i));
    }
}

proof fn lemma_literal_escape_scans(c: Seq<char>, i: nat, t: Seq<char>)
    requires
        i + literal_escape(t).len() <= c.len(),
        c.subrange(i as int, (i + literal_escape(t).len()) as int) == literal_escape(t),
    ensures
        crate::content::string_token_end(c, i, 1, false) == crate::content::string_token_end(
            c,
            (i + literal_escape(t).len()) as nat,
            1,
            false,
        ),
    decreases t.len(),
{
    if t.len() > 0 {
        let x = t[0];
        let ex = literal_escape_char(x);
        let rest = t.drop_first();
        assert(literal_escape(t) == ex + literal_escape(rest));
        let sub = c.subrange(i as int, (i + literal_escape(t).len()) as int);
        assert forall|k: int| 0 <= k < ex.len() implies c[i + k] == #[trigger] ex[k] by {
            assert(sub[k] == c[i + k]);
            assert(sub[k] == (ex + literal_escape(rest))[k]);
        }
        assert(c.subrange((i + ex.len()) as int, (i + ex.len() + literal_escape(rest).len()) as int)
            =~= literal_escape(rest)) by {
            assert forall|k: int| 0 <= k < literal_escape(rest).len() implies c[i + ex.len() + k]
                == #[trigger] literal_escape(rest)[k] by {
                assert(sub[ex.len() + k] == c[i + ex.len() + k]);
                assert(sub[ex.len() + k] == (ex + literal_escape(rest))[ex.len() + k]);
            }
        }
        lemma_literal_escape_scans(c, (i + ex.len()) as nat, rest);
        assert(c[i as int] == ex[0]);
        if ex.len() == 2 {
            assert(c[i + 1int] == ex[1]);
            assert(c[i as int] == '\\');
            assert(crate::content::string_token_end(c, i + 1, 1, true)
                == crate::content::string_token_end(c, i + 2, 1, false));
        } else {
            assert(c[i as int] == x && x != '\\' && x != '(' && x != ')');
        }
    }
}

/// A text written inside a literal string is read as one token, however
/// many parentheses and backslashes it holds: the scan of the string stops
/// just past its closing parenthesis, whatever follows it, and a content
/// stream of that string alone is that single token.
pub proof fn lemma_literal_escape_one_token(t: Seq<char>, after: Seq<char>)
    ensures
        crate::content::string_token_end(
            seq!['('] + literal_escape(t) + seq![')'] + after,
            0,
            0,
            false,
        ) == literal_escape(t).len() + 2,
        crate::content::content_tokens(seq!['('] + literal_escape(t) + seq![')']) == seq![
            seq!['('] + literal_escape(t) + seq![')'],
        ],
{
    let e = literal_escape(t);
    let c = seq!['('] + e + seq![')'] + after;
    assert(c.subrange(1, 1 + e.len() as int) =~= e);
    lemma_literal_escape_scans(c, 1, t);
    assert(c[1 + e.len() as int] == ')');
    assert(crate::content::string_token_end(c, (1 + e.len()) as nat, 1, false) == e.len() + 2);
    assert(crate::content::string_token_end(c, 0, 0, false) == crate::content::string_token_end(
        c,
        1,
        1,
        false,
    ));
    let tok = seq!['('] + e + seq![')'];
    assert(tok.subrange(1, 1 + e.len() as int) =~= e);
    lemma_literal_escape_scans(tok, 1, t);
    assert(tok[1 + e.len() as int] == ')');
    assert(crate::content::string_token_end(tok, 0, 0, false) == tok.len());
    assert(crate::content::token_end(tok, 0) == tok.len());
    assert(!spec_is_whitespace(tok[0]));
    assert(crate::content::tokens_from(tok, tok.len()) =~= Seq::<Seq<char>>::empty());
    assert(tok.subrange(0, tok.len() as int) =~= tok);
    assert(crate::content::tokens_from(tok, 0) =~= seq![tok]);
}

/// Writing any text inside a literal string and decoding the token gives
/// the text back: each escape stands for exactly the character it writes,
/// `\\` for one backslash and `\(`, `\)` for the parentheses.
pub proof fn lemma_literal_round_trip(t: Seq<char>)
    ensures
        literal_decode_from(literal_escape(t), 0) == t,
        decode_literal(seq!['('] + literal_escape(t) + seq![')']) == t,
{
    let e = literal_escape(t);
    assert(e.subrange(0, e.len() as int) =~= e);
    lemma_literal_escape_decodes(e, 0, t);
    assert(t + seq![] =~= t);
    let tok = seq!['('] + e + seq![')'];
    assert(literal_inner(tok) =~= e);
}

/// Reads the octal escape whose first digit is at `j`: its value and the
/// number of digits.
fn read_octal(c: &Vec<char>, j: usize) -> (res: (u32, usize))
    requires
        octal_at(c@, j as int),
    ensures
        res.1 == octal_run(c@, j as int),
        res.0 == octal_value(c@, j as int, res.1 as nat),
        res.0 < 512,
        1 <= res.1 <= 3,
{
    let len = c.len();
    assert(j < len);
    let d0 = (c[j] as u32) - ('0' as u32);
    assert(octal_value(c@, j as int, 0) == 0);
    assert(octal_value(c@, j as int, 1) == octal_digit(c@[j as int]));
    if j + 1 >= len || !('0' <= c[j + 1] && c[j + 1] <= '7') {
        return (d0, 1);
    }
    let v1 = d0 * 8 + ((c[j + 1] as u32) - ('0' as u32));
    assert(octal_value(c@, j as int, 2) == octal_value(c@, j as int, 1) * 8 + octal_digit(
        c@[j + 1],
    ));
    if j + 2 >= len || !('0' <= c[j + 2] && c[j + 2] <= '7') {
        return (v1, 2);
    }
    let v2 = v1 * 8 + ((c[j + 2] as u32) - ('0' as u32));
    assert(octal_value(c@, j as int, 3) == octal_value(c@, j as int, 2) * 8 + octal_digit(
        c@[j + 2],
    ));
    (v2, 3)
}

/// Decodes the text of a literal string (without its parentheses).
fn decode_literal_text(c: &Vec<char>) -> (out: Vec<char>)
    ensures
        out@ == literal_decode_from(c@, 0),
{
    let mut out: Vec<char> = Vec::new();
    let mut index: usize = 0;
    let len = c.len();
    while index < len
        invariant
            len == c@.len(),
            index <= len,
            out@ + literal_decode_from(c@, index as nat) == literal_decode_from(c@, 0),
        decreases len - index,
    {
        let ghost before = out@;
        let ch = c[index];
        if ch != '\\' {
            out.push(ch);
            assert(out@ + literal_decode_from(c@, (index + 1) as nat) =~= before
                + literal_decode_from(c@, index as nat));
            index += 1;
        } else if index + 1 >= len {
            assert(literal_decode_from(c@, index as nat) =~= seq![]);
            assert(literal_decode_from(c@, len as nat) =~= seq![]);
            index = len;
        } else {
            let e = c[index + 1];
            if e == 'n' || e == 'r' || e == 't' || e == 'b' || e == 'f' || e == '(' || e == ')'
                || e == '\\' {
                let d = if e == 'n' {
                    '\n'
                } else if e == 'r' {
                    '\r'
                } else if e == 't' {
                    '\t'
                } else if e == 'b' {
                    '\u{8}'
                } else if e == 'f' {
                    '\u{c}'
                } else {
                    e
                };
                out.push(d);
                assert(out@ + literal_decode_from(c@, (index + 2) as nat) =~= before
                    + literal_decode_from(c@, index as nat));
                index += 2;
            } else if e == '\n' {
                index += 2;
            } else if e == '\r' {
                if index + 2 < len && c[index + 2] == '\n' {
                    index += 3;
                } else {
                    index += 2;
                }
            } else if '0' <= e && e <= '7' {
                let (value, count) = read_octal(c, index + 1);
                let ch = match char_from_u32(value) {
                    Some(ch) => ch,
                    None => '\u{fffd}',
                };
                out.push(ch);
                assert(out@ + literal_decode_from(c@, (index + 1 + count) as nat) =~= before
                    + literal_decode_from(c@, index as nat));
                index = index + 1 + count;
            } else {
                out.push(e);
                assert(out@ + literal_decode_from(c@, (index + 2) as nat) =~= before
                    + literal_decode_from(c@, index as nat));
                index += 2;
            }
        }
    }
    assert(literal_decode_from(c@, index as nat) =~= seq![]);
    assert(out@ + seq![] =~= out@);
    out
}

/// The text of a literal string token, such as `(Hello\)\n)`.
pub fn decode_literal_chars(token: &[char]) -> (out: Vec<char>)
    ensures
        out@ == decode_literal(token@),
{
    let n = token.len();
    let inner = if n >= 2 && token[0] == '(' && token[n - 1] == ')' {
        copy_range(token, 1, n - 1)
    } else {
        let v = copy_range(token, 0, n);
        assert(token@.subrange(0, n as int) =~= token@);
        v
    };
    decode_literal_text(&inner)
}

/// The text of a literal string token.
pub fn decode_pdf_literal_string_token(token: &str) -> (out: String)
    ensures
        out@ == decode_literal(token@),
{
    let chars = chars_of(token);
    let out = decode_literal_chars(chars.as_slice());
    string_from_chars(&out)
}

// ---------------------------------------------------------------------------
// Hex strings
// ---------------------------------------------------------------------------
/// The text inside a hex string token: without its angle brackets when it
/// has both, else the token as it is.
pub open spec fn hex_inner(t: Seq<char>) -> Seq<char> {
    if t.len() >= 2 && t[0] == '<' && t.last() == '>' {
        t.subrange(1, t.len() - 1)
    } else {
        t
    }
}

/// `t` without its whitespace.
pub open spec fn strip_whitespace(t: Seq<char>) -> Seq<char>
    decreases t.len(),
{
    if t.len() == 0 {
        seq![]
    } else if spec_is_whitespace(t.last()) {
        strip_whitespace(t.drop_last())
    } else {
        strip_whitespace(t.drop_last()).push(t.last())
    }
}

/// The hex digits of a hex string: whitespace removed, and a `0` appended
/// when their UTF-8 length is odd.
pub open spec fn hex_digits_of(t: Seq<char>) -> Seq<char> {
    let f = strip_whitespace(hex_inner(t));
    if seq_utf8_len(f) % 2 == 1 {
        f.push('0')
    } else {
        f
    }
}

/// The value of a hexadecimal digit.
pub open spec fn hex_value(c: char) -> Option<nat> {
    if '0' <= c && c <= '9' {
        Some((c as u32 - '0' as u32) as nat)
    } else if 'a' <= c && c <= 'f' {
        Some((c as u32 - 'a' as u32 + 10) as nat)
    } else if 'A' <= c && c <= 'F' {
        Some((c as u32 - 'A' as u32 + 10) as nat)
    } else {
        None
    }
}

/// What `u8::from_str_radix(_, 16)` gives for a two-character ASCII text:
/// two hex digits, or `+` and one hex digit; anything else is rejected.
pub open spec fn parse_hex_pair(a: char, b: char) -> Option<u8> {
    match hex_value(b) {
        Some(lo) => if a == '+' {
            Some(lo as u8)
        } else {
            match hex_value(a) {
                Some(hi) => Some((hi * 16 + lo) as u8),
                None => None,
            }
        },
        None => None,
    }
}

/// The bytes of a hex digit text, read two UTF-8 bytes at a time; a pair
/// that is not a hex byte is skipped. `None` when a two-byte window would
/// cut a character in two: then the window cannot be read at all.
pub open spec fn hex_pair_bytes(h: Seq<char>) -> Option<Seq<u8>>
    decreases h.len(),
{
    if h.len() == 0 {
        Some(seq![])
    } else if utf8_len(h[0]) == 2 {
        hex_pair_bytes(h.drop_first())
    } else if utf8_len(h[0]) == 1 && h.len() >= 2 && utf8_len(h[1]) == 1 {
        match hex_pair_bytes(h.skip(2)) {
            Some(rest) => match parse_hex_pair(h[0], h[1]) {
                Some(b) => Some(seq![b] + rest),
                None => Some(rest),
            },
            None => None,
        }
    } else {
        None
    }
}

/// Whether a hex string token can be read: no two-byte window of its digits
/// cuts a character in two.
pub open spec fn hex_token_decodable(t: Seq<char>) -> bool {
    hex_pair_bytes(hex_digits_of(t)) is Some
}

/// The character of a UTF-16 code unit: itself, or U+FFFD for a surrogate.
pub open spec fn utf16_unit_char(u: nat) -> char {
    if u < 0xD800 || u >= 0xE000 {
        (u as u32) as char
    } else {
        '\u{FFFD}'
    }
}

/// Bytes read as big-endian UTF-16 code units, each on its own; a trailing
/// odd byte is dropped.
pub open spec fn utf16be_units(b: Seq<u8>) -> Seq<char>
    decreases b.len(),
{
    if b.len() < 2 {
        seq![]
    } else {
        seq![utf16_unit_char(b[0] as nat * 256 + b[1] as nat)] + utf16be_units(b.skip(2))
    }
}

/// The text of decoded hex string bytes: UTF-16BE after a `FE FF` mark,
/// UTF-8 (with invalid sequences replaced) otherwise.
pub open spec fn hex_bytes_text(b: Seq<u8>) -> Seq<char> {
    if b.len() >= 2 && b[0] == 0xfe && b[1] == 0xff {
        utf16be_units(b.skip(2))
    } else {
        utf8_lossy(b)
    }
}

/// The text of a hex string token.
pub open spec fn decode_hex(t: Seq<char>) -> Seq<char> {
    match hex_pair_bytes(hex_digits_of(t)) {
        Some(b) => hex_bytes_text(b),
        None => seq![],
    }
}

/// The whitespace-free digits of a hex string token, padded to an even
/// UTF-8 length.
fn hex_digit_chars(token: &[char]) -> (h: Vec<char>)
    ensures
        h@ == hex_digits_of(token@),
{
    let n = token.len();
    let (start, end) = if n >= 2 && token[0] == '<' && token[n - 1] == '>' {
        (1, n - 1)
    } else {
        (0, n)
    };
    let ghost inner = token@.subrange(start as int, end as int);
    assert(inner =~= hex_inner(token@));
    let mut h: Vec<char> = Vec::new();
    let mut bytes: usize = 0;
    let mut i = start;
    assert(inner.take(0) =~= seq![]);
    while i < end
        invariant
            start <= i <= end <= token@.len(),
            inner == token@.subrange(start as int, end as int),
            h@ == strip_whitespace(inner.take(i - start)),
            bytes == seq_utf8_len(h@) % 2,
        decreases end - i,
    {
        assert(inner.take(i + 1 - start).drop_last() =~= inner.take(i - start));
        assert(inner.take(i + 1 - start).last() == token@[i as int]);
        let ch = token[i];
        if !is_whitespace(ch) {
            proof {
                lemma_seq_utf8_len_push(h@, ch);
            }
            h.push(ch);
            bytes = (bytes + char_utf8_len(ch)) % 2;
        }
        i += 1;
    }
    assert(inner.take(end - start) =~= inner);
    if bytes == 1 {
        h.push('0');
    }
    h
}

/// The value of a hex digit, if `c` is one.
fn hex_digit_value(c: char) -> (v: Option<u8>)
    ensures
        v matches Some(x) ==> hex_value(c) == Some(x as nat),
        v is None ==> hex_value(c) is None,
{
    if '0' <= c && c <= '9' {
        Some(((c as u32) - ('0' as u32)) as u8)
    } else if 'a' <= c && c <= 'f' {
        Some(((c as u32) - ('a' as u32) + 10) as u8)
    } else if 'A' <= c && c <= 'F' {
        Some(((c as u32) - ('A' as u32) + 10) as u8)
    } else {
        None
    }
}

/// Reads two ASCII characters as `u8::from_str_radix(_, 16)` would.
fn hex_pair(a: char, b: char) -> (r: Option<u8>)
    ensures
        r == parse_hex_pair(a, b),
{
    match hex_digit_value(b) {
        Some(lo) => if a == '+' {
            Some(lo)
        } else {
            match hex_digit_value(a) {
                Some(hi) => Some(hi * 16 + lo),
                None => None,
            }
        },
        None => None,
    }
}

/// The bytes of hex digits, read two UTF-8 bytes at a time.
fn hex_bytes(h: &Vec<char>) -> (b: Vec<u8>)
    requires
        hex_pair_bytes(h@) is Some,
    ensures
        hex_pair_bytes(h@) == Some(b@),
{
    let mut b: Vec<u8> = Vec::new();
    let mut i: usize = 0;
    let len = h.len();
    assert(h@.skip(0) =~= h@);
    assert(b@ + hex_pair_bytes(h@)->0 =~= hex_pair_bytes(h@)->0);
    while i < len
        invariant
            len == h@.len(),
            i <= len,
            hex_pair_bytes(h@.skip(i as int)) is Some,
            hex_pair_bytes(h@) == Some(b@ + hex_pair_bytes(h@.skip(i as int))->0),
        decreases len - i,
    {
        let ghost rest = h@.skip(i as int);
        let ghost before = b@;
        if char_utf8_len(h[i]) == 2 {
            assert(rest.drop_first() =~= h@.skip(i + 1));
            i += 1;
        } else {
            assert(i + 1 < len);
            assert(rest.skip(2) =~= h@.skip(i + 2));
            match hex_pair(h[i], h[i + 1]) {
                Some(x) => {
                    b.push(x);
                    assert(before + (seq![x] + hex_pair_bytes(h@.skip(i + 2))->0) =~= b@
                        + hex_pair_bytes(h@.skip(i + 2))->0);
                },
                None => {},
            }
            i += 2;
        }
    }
    assert(h@.skip(len as int) =~= seq![]);
    assert(b@ + seq![] =~= b@);
    b
}

/// The character of a UTF-16 code unit.
fn utf16_char(unit: u32) -> (c: char)
    requires
        unit < 0x10000,
    ensures
        c == utf16_unit_char(unit as nat),
{
    match char_from_u32(unit) {
        Some(c) => c,
        None => '\u{fffd}',
    }
}

/// The text of decoded hex string bytes.
fn hex_bytes_to_text(b: &Vec<u8>) -> (out: Vec<char>)
    ensures
        out@ == hex_bytes_text(b@),
        all_ascii_bytes(b@) ==> out@ == ascii_chars(b@),
{
    if b.len() >= 2 && b[0] == 0xfe && b[1] == 0xff {
        let mut out: Vec<char> = Vec::new();
        let mut i: usize = 2;
        let len = b.len();
        assert(b@.skip(2) =~= b@.skip(2));
        while i < len - 1
            invariant
                len == b@.len(),
                2 <= i <= len,
                out@ + utf16be_units(b@.skip(i as int)) == utf16be_units(b@.skip(2)),
            decreases len - i,
        {
            let unit = (b[i] as u32) * 256 + (b[i + 1] as u32);
            let ghost before = out@;
            out.push(utf16_char(unit));
            assert(b@.skip(i as int).skip(2) =~= b@.skip(i + 2));
            assert(out@ + utf16be_units(b@.skip(i + 2)) =~= before + utf16be_units(
                b@.skip(i as int),
            ));
            i += 2;
        }
        assert(utf16be_units(b@.skip(i as int)) =~= seq![]);
        assert(out@ + seq![] =~= out@);
        out
    } else {
        decode_utf8_lossy(b.as_slice())
    }
}

/// The text of a hex string token, such as `<FEFF0041>`.
pub fn decode_hex_chars(token: &[char]) -> (out: Vec<char>)
    requires
        hex_token_decodable(token@),
    ensures
        out@ == decode_hex(token@),
        hex_pair_bytes(hex_digits_of(token@)) matches Some(b) ==> (all_ascii_bytes(b) ==> out@
            == ascii_chars(b)),
{
    let h = hex_digit_chars(token);
    let b = hex_bytes(&h);
    hex_bytes_to_text(&b)
}

/// The text of a hex string token.
pub fn decode_pdf_hex_string_token(token: &str) -> (out: String)
    requires
        hex_token_decodable(token@),
    ensures
        out@ == decode_hex(token@),
        hex_pair_bytes(hex_digits_of(token@)) matches Some(b) ==> (all_ascii_bytes(b) ==> out@
            == ascii_chars(b)),
{
    let chars = chars_of(token);
    let out = decode_hex_chars(chars.as_slice());
    string_from_chars(&out)
}

proof fn lemma_ascii_utf8_len(t: Seq<char>)
    requires
        all_ascii_chars(t),
    ensures
        seq_utf8_len(t) == t.len(),
    decreases t.len(),
{
    if t.len() > 0 {
        assert(all_ascii_chars(t.drop_last())) by {
            assert forall|i: int| 0 <= i < t.drop_last().len() implies (
            #[trigger] t.drop_last()[i] as u32) < 0x80 by {
                assert(t.drop_last()[i] == t[i]);
            }
        }
        lemma_ascii_utf8_len(t.drop_last());
        assert((t[t.len() - 1] as u32) < 0x80);
    }
}

proof fn lemma_strip_whitespace_ascii(t: Seq<char>)
    requires
        all_ascii_chars(t),
    ensures
        all_ascii_chars(strip_whitespace(t)),
    decreases t.len(),
{
    if t.len() > 0 {
        assert(all_ascii_chars(t.drop_last())) by {
            assert forall|i: int| 0 <= i < t.drop_last().len() implies (
            #[trigger] t.drop_last()[i] as u32) < 0x80 by {
                assert(t.drop_last()[i] == t[i]);
            }
        }
        lemma_strip_whitespace_ascii(t.drop_last());
        let r = strip_whitespace(t.drop_last());
        assert((t[t.len() - 1] as u32) < 0x80);
        if !spec_is_whitespace(t.last()) {
            assert forall|i: int| 0 <= i < r.push(t.last()).len() implies (
            #[trigger] r.push(t.last())[i] as u32) < 0x80 by {
                if i < r.len() {
                    assert(r.push(t.last())[i] == r[i]);
                }
            }
        }
    }
}

proof fn lemma_hex_pair_bytes_ascii(h: Seq<char>)
    requires
        all_ascii_chars(h),
        h.len() % 2 == 0,
    ensures
        hex_pair_bytes(h) is Some,
    decreases h.len(),
{
    if h.len() > 0 {
        assert((h[0] as u32) < 0x80 && (h[1] as u32) < 0x80);
        assert(all_ascii_chars(h.skip(2))) by {
            assert forall|i: int| 0 <= i < h.skip(2).len() implies (
            #[trigger] h.skip(2)[i] as u32) < 0x80 by {
                assert(h.skip(2)[i] == h[i + 2]);
            }
        }
        lemma_hex_pair_bytes_ascii(h.skip(2));
    }
}

/// Every hex string token made of ASCII characters can be read: its digits,
/// with whitespace removed and a `0` appended to an odd count, split into
/// whole two-character pairs.
pub proof fn lemma_ascii_hex_token_decodable(t: Seq<char>)
    requires
        all_ascii_chars(t),
    ensures
        hex_token_decodable(t),
{
    let inner = hex_inner(t);
    assert(all_ascii_chars(inner)) by {
        if t.len() >= 2 && t[0] == '<' && t.last() == '>' {
            assert forall|i: int| 0 <= i < inner.len() implies (#[trigger] inner[i] as u32)
                < 0x80 by {
                assert(inner[i] == t[i + 1]);
            }
        }
    }
    lemma_strip_whitespace_ascii(inner);
    let f = strip_whitespace(inner);
    lemma_ascii_utf8_len(f);
    let h = hex_digits_of(t);
    assert(all_ascii_chars(h)) by {
        if seq_utf8_len(f) % 2 == 1 {
            assert forall|i: int| 0 <= i < h.len() implies (#[trigger] h[i] as u32) < 0x80 by {
                if i < f.len() {
                    assert(h[i] == f[i]);
                }
            }
        }
    }
    lemma_hex_pair_bytes_ascii(h);
}

// ---------------------------------------------------------------------------
// Match keys
// ---------------------------------------------------------------------------
/// The key being built: its text so far, and whether it ends in a folded
/// space.
pub struct KeyState {
    pub out: Seq<char>,
    pub last_space: bool,
}

/// One character more of a match key: control characters are dropped,
/// whitespace becomes one space (none at the start, none twice), anything
/// else is lowercased.
pub open spec fn key_step(s: KeyState, ch: char) -> KeyState {
    if spec_is_control(ch) {
        s
    } else if spec_is_whitespace(ch) {
        if s.out.len() > 0 && !s.last_space {
            KeyState { out: s.out.push(' '), last_space: true }
        } else {
            s
        }
    } else {
        KeyState { out: s.out + char_lowercase(ch), last_space: false }
    }
}

/// The key state after all of `t`.
pub open spec fn key_fold(t: Seq<char>) -> KeyState
    decreases t.len(),
{
    if t.len() == 0 {
        KeyState { out: seq![], last_space: false }
    } else {
        key_step(key_fold(t.drop_last()), t.last())
    }
}

/// The match key of a text: folded as above, without a trailing space.
pub open spec fn normalized_key(t: Seq<char>) -> Seq<char> {
    let o = key_fold(t).out;
    if o.len() > 0 && o.last() == ' ' {
        o.drop_last()
    } else {
        o
    }
}

/// Whether the lowercase of every ASCII character of `t` that is neither a
/// control character nor whitespace is its ASCII lowercase.
pub open spec fn ascii_lowercase_known(t: Seq<char>) -> bool {
    forall|i: int|
        0 <= i < t.len() && (t[i] as u32) < 0x80 && !spec_is_control(t[i]) && !spec_is_whitespace(
            t[i],
        ) ==> #[trigger] char_lowercase(t[i]) == seq![ascii_lower(t[i])]
}

/// The match key of `text`.
pub fn normalized_key_chars(text: &[char]) -> (out: Vec<char>)
    ensures
        out@ == normalized_key(text@),
        ascii_lowercase_known(text@),
{
    let mut out: Vec<char> = Vec::new();
    let mut last_space = false;
    let mut i: usize = 0;
    assert(text@.take(0) =~= seq![]);
    while i < text.len()
        invariant
            0 <= i <= text@.len(),
            key_fold(text@.take(i as int)) == (KeyState { out: out@, last_space }),
            forall|k: int|
                0 <= k < i && (text@[k] as u32) < 0x80 && !spec_is_control(text@[k])
                    && !spec_is_whitespace(text@[k]) ==> #[trigger] char_lowercase(text@[k])
                    == seq![ascii_lower(text@[k])],
        decreases text@.len() - i,
    {
        assert(text@.take(i + 1).drop_last() =~= text@.take(i as int));
        let ch = text[i];
        if is_control(ch) {
        } else if is_whitespace(ch) {
            if out.len() > 0 && !last_space {
                out.push(' ');
                last_space = true;
            }
        } else {
            let lower = to_lowercase(ch);
            push_all(&mut out, &lower);
            last_space = false;
        }
        i += 1;
    }
    assert(text@.take(i as int) =~= text@);
    if out.len() > 0 && out[out.len() - 1] == ' ' {
        out.pop();
    }
    out
}

/// The match key of `text`: control characters dropped, whitespace runs
/// folded to one space and trimmed, letters lowercased.
pub fn normalized_text_match_key(text: &str) -> (out: String)
    ensures
        out@ == normalized_key(text@),
        ascii_lowercase_known(text@),
{
    let chars = chars_of(text);
    let key = normalized_key_chars(chars.as_slice());
    string_from_chars(&key)
}

/// Whether a decoded fragment is worth matching: its key has at least two
/// characters.
pub open spec fn useful_fragment(t: Seq<char>) -> bool {
    normalized_key(t).len() >= 2
}

/// Whether a decoded fragment is worth matching.
pub fn is_useful_pdf_text_fragment(text: &str) -> (b: bool)
    ensures
        b == useful_fragment(text@),
{
    let chars = chars_of(text);
    normalized_key_chars(chars.as_slice()).len() >= 2
}

/// The fragments kept after all of `f`, and the keys seen: a fragment is
/// kept when its key is not empty and was not seen before.
pub open spec fn dedupe_fold(f: Seq<Seq<char>>) -> (Seq<Seq<char>>, Seq<Seq<char>>)
    decreases f.len(),
{
    if f.len() == 0 {
        (seq![], seq![])
    } else {
        let (kept, seen) = dedupe_fold(f.drop_last());
        let k = normalized_key(f.last());
        if k.len() > 0 && !seen.contains(k) {
            (kept.push(f.last()), seen.push(k))
        } else {
            (kept, seen)
        }
    }
}

/// The fragments in order, each kept only the first time its key occurs,
/// and none with an empty key.
pub open spec fn dedupe_fragments(f: Seq<Seq<char>>) -> Seq<Seq<char>> {
    dedupe_fold(f).0
}

/// Whether `f[m]` is the first fragment with its key.
pub open spec fn first_with_key(f: Seq<Seq<char>>, m: int) -> bool {
    forall|m2: int| 0 <= m2 < m ==> normalized_key(#[trigger] f[m2]) != normalized_key(f[m])
}

/// Deduplication keeps, in order, one fragment per non-empty key: the kept
/// keys are non-empty and pairwise distinct, every fragment with a non-empty
/// key has its key kept, and each kept fragment is the first one in `f`
/// with its key.
#[verifier::spinoff_prover]
#[verifier::rlimit(40)]
pub proof fn lemma_dedupe_fragments(f: Seq<Seq<char>>)
    ensures
        dedupe_fold(f).1 == Seq::new(
            dedupe_fold(f).0.len(),
            |i: int| normalized_key(dedupe_fold(f).0[i]),
        ),
        forall|i: int, j: int|
            0 <= i < j < dedupe_fragments(f).len() ==> normalized_key(
                #[trigger] dedupe_fragments(f)[i],
            ) != normalized_key(#[trigger] dedupe_fragments(f)[j]),
        forall|i: int|
            0 <= i < dedupe_fragments(f).len() ==> normalized_key(
                #[trigger] dedupe_fragments(f)[i],
            ).len() > 0,
        forall|m: int|
            0 <= m < f.len() && normalized_key(#[trigger] f[m]).len() > 0 ==> exists|i: int|
                0 <= i < dedupe_fragments(f).len() && normalized_key(
                    #[trigger] dedupe_fragments(f)[i],
                ) == normalized_key(f[m]),
        forall|i: int|
            #![trigger dedupe_fragments(f)[i]]
            0 <= i < dedupe_fragments(f).len() ==> exists|m: int|
                0 <= m < f.len() && #[trigger] f[m] == dedupe_fragments(f)[i] && first_with_key(
                    f,
                    m,
                ),
    decreases f.len(),
{
    if f.len() > 0 {
        let g = f.drop_last();
        lemma_dedupe_fragments(g);
        let (kept, seen) = dedupe_fold(g);
        let x = f.last();
        let k = normalized_key(x);
        assert forall|m: int| 0 <= m < g.len() implies #[trigger] f[m] == g[m] by {}
        if k.len() > 0 && !seen.contains(k) {
            let nk = kept.push(x);
            assert(dedupe_fragments(f) == nk);
            assert forall|i: int| 0 <= i < nk.len() implies normalized_key(#[trigger] nk[i]).len()
                > 0 by {
                if i < kept.len() {
                    assert(dedupe_fragments(g)[i] == kept[i]);
                }
            }
            assert forall|m: int|
                0 <= m < f.len() - 1 implies normalized_key(#[trigger] f[m]) != k by {
                assert(f[m] == g[m]);
                if normalized_key(g[m]) == k {
                    let i = choose|i: int|
                        0 <= i < kept.len() && normalized_key(#[trigger] kept[i])
                            == normalized_key(g[m]);
                    assert(seen[i] == k);
                }
            }
            assert forall|i: int, j: int|
                0 <= i < j < nk.len() implies normalized_key(#[trigger] nk[i]) != normalized_key(
                #[trigger] nk[j],
            ) by {
                if j == kept.len() {
                    assert(seen[i] == normalized_key(kept[i]));
                    assert(nk[i] == kept[i]);
                    assert(nk[j] == x);
                    assert(seen[i] != k);
                } else {
                    assert(nk[i] == kept[i] && nk[j] == kept[j]);
                    assert(dedupe_fragments(g)[i] == kept[i] && dedupe_fragments(g)[j] == kept[j]);
                }
            }
            assert forall|i: int| #![trigger nk[i]] 0 <= i < nk.len() implies exists|m: int|
                0 <= m < f.len() && #[trigger] f[m] == nk[i] && first_with_key(f, m) by {
                if i == kept.len() {
                    assert(f[f.len() - 1] == nk[i]);
                    assert(first_with_key(f, f.len() - 1));
                } else {
                    assert(dedupe_fragments(g)[i] == kept[i]);
                    assert(nk[i] == kept[i]);
                    let m = choose|m: int|
                        0 <= m < g.len() && #[trigger] g[m] == kept[i] && first_with_key(g, m);
                    assert(f[m] == nk[i]);
                    assert(first_with_key(f, m)) by {
                        assert forall|m2: int| 0 <= m2 < m implies normalized_key(
                            #[trigger] f[m2],
                        ) != normalized_key(f[m]) by {
                            assert(f[m2] == g[m2]);
                        }
                    }
                }
            }
            assert forall|m: int|
                0 <= m < f.len() && normalized_key(#[trigger] f[m]).len() > 0 implies exists|i: int|
                0 <= i < nk.len() && normalized_key(#[trigger] nk[i]) == normalized_key(f[m]) by {
                if m == f.len() - 1 {
                    assert(nk[kept.len() as int] == x);
                } else {
                    assert(f[m] == g[m]);
                    let i = choose|i: int|
                        0 <= i < kept.len() && normalized_key(#[trigger] kept[i])
                            == normalized_key(g[m]);
                    assert(nk[i] == kept[i]);
                }
            }
            assert(dedupe_fold(f).1 =~= Seq::new(
                nk.len(),
                |i: int| normalized_key(dedupe_fold(f).0[i]),
            ));
        } else {
            assert(dedupe_fragments(f) == kept);
            assert(dedupe_fragments(g) == kept);
            assert forall|i: int| 0 <= i < kept.len() implies normalized_key(
                #[trigger] kept[i],
            ).len() > 0 by {
                assert(dedupe_fragments(g)[i] == kept[i]);
            }
            assert forall|i: int, j: int|
                0 <= i < j < kept.len() implies normalized_key(#[trigger] kept[i]) != normalized_key(
                #[trigger] kept[j],
            ) by {
                assert(dedupe_fragments(g)[i] == kept[i] && dedupe_fragments(g)[j] == kept[j]);
            }
            assert forall|i: int| #![trigger kept[i]] 0 <= i < kept.len() implies exists|m: int|
                0 <= m < f.len() && #[trigger] f[m] == kept[i] && first_with_key(f, m) by {
                assert(dedupe_fragments(g)[i] == kept[i]);
                let m = choose|m: int|
                    0 <= m < g.len() && #[trigger] g[m] == kept[i] && first_with_key(g, m);
                assert(f[m] == kept[i]);
                assert(first_with_key(f, m)) by {
                    assert forall|m2: int| 0 <= m2 < m implies normalized_key(#[trigger] f[m2])
                        != normalized_key(f[m]) by {
                        assert(f[m2] == g[m2]);
                    }
                }
            }
            assert forall|m: int|
                0 <= m < f.len() && normalized_key(#[trigger] f[m]).len() > 0 implies exists|i: int|
                0 <= i < kept.len() && normalized_key(#[trigger] kept[i]) == normalized_key(f[m]) by {
                if m == f.len() - 1 {
                    let i = choose|i: int| 0 <= i < seen.len() && seen[i] == k;
                    assert(normalized_key(kept[i]) == k);
                } else {
                    assert(f[m] == g[m]);
                }
            }
        }
    }
}

/// Deduplication keeps fragments in their order, each at the first place
/// where its key occurs: the result lists, for increasing positions
/// `idx[0] < idx[1] < ...` of `f`, the fragments `f[idx[i]]`, each the first
/// fragment of `f` with its key, and that key is not empty.
pub proof fn lemma_dedupe_order(f: Seq<Seq<char>>) -> (idx: Seq<int>)
    ensures
        idx.len() == dedupe_fragments(f).len(),
        forall|i: int| 0 <= i < idx.len() ==> 0 <= #[trigger] idx[i] < f.len(),
        forall|i: int, j: int| 0 <= i < j < idx.len() ==> #[trigger] idx[i] < #[trigger] idx[j],
        forall|i: int|
            #![trigger idx[i]]
            0 <= i < idx.len() ==> f[idx[i]] == dedupe_fragments(f)[i] && first_with_key(
                f,
                idx[i],
            ) && normalized_key(f[idx[i]]).len() > 0,
    decreases f.len(),
{
    if f.len() == 0 {
        seq![]
    } else {
        let g = f.drop_last();
        let prev = lemma_dedupe_order(g);
        lemma_dedupe_fragments(g);
        let (kept, seen) = dedupe_fold(g);
        let x = f.last();
        let k = normalized_key(x);
        assert forall|m: int| 0 <= m < g.len() implies #[trigger] f[m] == g[m] by {}
        assert forall|i: int| 0 <= i < prev.len() implies first_with_key(f, #[trigger] prev[i])
            by {
            assert(first_with_key(g, prev[i]));
            assert forall|m2: int| 0 <= m2 < prev[i] implies normalized_key(#[trigger] f[m2])
                != normalized_key(f[prev[i]]) by {
                assert(f[m2] == g[m2]);
                assert(f[prev[i]] == g[prev[i]]);
            }
        }
        if k.len() > 0 && !seen.contains(k) {
            assert(dedupe_fragments(f) == kept.push(x));
            assert(first_with_key(f, f.len() - 1)) by {
                assert forall|m: int| 0 <= m < f.len() - 1 implies normalized_key(
                    #[trigger] f[m],
                ) != normalized_key(f[f.len() - 1]) by {
                    assert(f[m] == g[m]);
                    if normalized_key(g[m]) == k {
                        let i = choose|i: int|
                            0 <= i < dedupe_fragments(g).len() && normalized_key(
                                #[trigger] dedupe_fragments(g)[i],
                            ) == normalized_key(g[m]);
                        assert(seen[i] == k);
                    }
                }
            }
            let idx = prev.push(f.len() - 1);
            assert forall|i: int| #![trigger idx[i]] 0 <= i < idx.len() implies f[idx[i]]
                == dedupe_fragments(f)[i] && first_with_key(f, idx[i]) && normalized_key(
                f[idx[i]],
            ).len() > 0 by {
                if i < prev.len() {
                    assert(idx[i] == prev[i]);
                    assert(f[prev[i]] == g[prev[i]]);
                    assert(dedupe_fragments(f)[i] == kept[i]);
                }
            }
            idx
        } else {
            assert(dedupe_fragments(f) == kept);
            assert forall|i: int| #![trigger prev[i]] 0 <= i < prev.len() implies f[prev[i]]
                == dedupe_fragments(f)[i] && first_with_key(f, prev[i]) && normalized_key(
                f[prev[i]],
            ).len() > 0 by {
                assert(f[prev[i]] == g[prev[i]]);
            }
            prev
        }
    }
}

/// Whether `key` is among `seen`.
fn seen_contains(seen: &Vec<Vec<char>>, key: &Vec<char>) -> (b: bool)
    ensures
        b == char_vec_views(seen@).contains(key@),
{
    let mut i: usize = 0;
    while i < seen.len()
        invariant
            0 <= i <= seen@.len(),
            forall|j: int| 0 <= j < i ==> seen@[j]@ != key@,
        decreases seen@.len() - i,
    {
        if crate::text::chars_eq(seen[i].as_slice(), key.as_slice()) {
            assert(char_vec_views(seen@)[i as int] == key@);
            return true;
        }
        i += 1;
    }
    assert forall|j: int| 0 <= j < char_vec_views(seen@).len() implies char_vec_views(seen@)[j]
        != key@ by {
        assert(char_vec_views(seen@)[j] == seen@[j]@);
    }
    false
}

/// Keeps each fragment the first time its key occurs.
pub fn dedupe_fragment_chars(fragments: &Vec<Vec<char>>) -> (out: Vec<Vec<char>>)
    ensures
        char_vec_views(out@) == dedupe_fragments(char_vec_views(fragments@)),
{
    let ghost f = char_vec_views(fragments@);
    let mut out: Vec<Vec<char>> = Vec::new();
    let mut seen: Vec<Vec<char>> = Vec::new();
    let mut i: usize = 0;
    assert(f.take(0) =~= seq![]);
    assert(char_vec_views(out@) =~= seq![]);
    assert(char_vec_views(seen@) =~= seq![]);
    while i < fragments.len()
        invariant
            f == char_vec_views(fragments@),
            0 <= i <= fragments@.len(),
            dedupe_fold(f.take(i as int)) == (char_vec_views(out@), char_vec_views(seen@)),
        decreases fragments@.len() - i,
    {
        assert(f.take(i + 1).drop_last() =~= f.take(i as int));
        assert(f.take(i + 1).last() == fragments@[i as int]@);
        let key = normalized_key_chars(fragments[i].as_slice());
        if key.len() > 0 && !seen_contains(&seen, &key) {
            let ghost out_before = char_vec_views(out@);
            let ghost seen_before = char_vec_views(seen@);
            let copy = copy_range(fragments[i].as_slice(), 0, fragments[i].len());
            assert(fragments@[i as int]@.subrange(0, fragments@[i as int]@.len() as int)
                =~= fragments@[i as int]@);
            out.push(copy);
            seen.push(key);
            assert(char_vec_views(out@) =~= out_before.push(fragments@[i as int]@));
            assert(char_vec_views(seen@) =~= seen_before.push(
                normalized_key(fragments@[i as int]@),
            ));
        }
        i += 1;
    }
    assert(f.take(i as int) =~= f);
    out
}

/// The fragments in order, each kept only the first time its key occurs.
pub fn dedupe_text_fragments(fragments: Vec<String>) -> (out: Vec<String>)
    ensures
        string_views(out@) == dedupe_fragments(string_views(fragments@)),
{
    let mut chars: Vec<Vec<char>> = Vec::new();
    let mut i: usize = 0;
    while i < fragments.len()
        invariant
            0 <= i <= fragments@.len(),
            char_vec_views(chars@) == string_views(fragments@).take(i as int),
        decreases fragments@.len() - i,
    {
        let ghost before = char_vec_views(chars@);
        chars.push(chars_of(fragments[i].as_str()));
        assert(char_vec_views(chars@) =~= before.push(fragments@[i as int]@));
        assert(string_views(fragments@).take(i + 1) =~= string_views(fragments@).take(
            i as int,
        ).push(fragments@[i as int]@));
        i += 1;
    }
    assert(string_views(fragments@).take(i as int) =~= string_views(fragments@));
    let kept = dedupe_fragment_chars(&chars);
    strings_of(&kept)
}

/// Strings with the given characters.
pub fn strings_of(v: &Vec<Vec<char>>) -> (out: Vec<String>)
    ensures
        string_views(out@) == char_vec_views(v@),
{
    let mut out: Vec<String> = Vec::new();
    let mut i: usize = 0;
    while i < v.len()
        invariant
            0 <= i <= v@.len(),
            string_views(out@) == char_vec_views(v@).take(i as int),
        decreases v@.len() - i,
    {
        let ghost before = string_views(out@);
        out.push(string_from_chars(&v[i]));
        assert(string_views(out@) =~= before.push(v@[i as int]@));
        assert(char_vec_views(v@).take(i + 1) =~= char_vec_views(v@).take(i as int).push(
            v@[i as int]@,
        ));
        i += 1;
    }
    assert(char_vec_views(v@).take(i as int) =~= char_vec_views(v@));
    out
}

// ---------------------------------------------------------------------------
// Fragments of text operators
// ---------------------------------------------------------------------------
/// Whether `t` starts with `c`.
pub open spec fn starts_with(t: Seq<char>, c: char) -> bool {
    t.len() > 0 && t[0] == c
}

/// Whether `t` is a hex string token (`<` but not `<<`).
pub open spec fn is_hex_token(t: Seq<char>) -> bool {
    starts_with(t, '<') && !(t.len() >= 2 && t[1] == '<')
}

/// Whether `t` is an array token (`[` … `]`).
pub open spec fn is_array_token(t: Seq<char>) -> bool {
    starts_with(t, '[') && t.last() == ']'
}

/// The text between an array token's brackets.
pub open spec fn array_inner(t: Seq<char>) -> Seq<char> {
    t.subrange(1, t.len() - 1)
}

/// The fragment of a decoded string when it is worth matching.
pub open spec fn keep_useful(x: Seq<char>) -> Seq<Seq<char>> {
    if useful_fragment(x) {
        seq![x]
    } else {
        seq![]
    }
}

/// The text fragments of one operand: a literal or hex string gives its
/// text (when worth matching), an array gives those of its elements, and
/// anything else gives none.
pub open spec fn token_fragments(t: Seq<char>) -> Seq<Seq<char>>
    decreases t.len(), 1nat, 0nat,
{
    if starts_with(t, '(') {
        keep_useful(decode_literal(t))
    } else if is_hex_token(t) {
        keep_useful(decode_hex(t))
    } else if is_array_token(t) {
        tokens_fragments(content_tokens(array_inner(t)), t.len())
    } else {
        seq![]
    }
}

/// The fragments of the tokens `ts`, each shorter than `bound`, in order.
pub open spec fn tokens_fragments(ts: Seq<Seq<char>>, bound: nat) -> Seq<Seq<char>>
    decreases bound, 0nat, ts.len(),
{
    if ts.len() == 0 {
        seq![]
    } else if ts[0].len() < bound {
        token_fragments(ts[0]) + tokens_fragments(ts.drop_first(), bound)
    } else {
        seq![]
    }
}

/// Whether every hex string within an operand (nested arrays included) can
/// be read.
pub open spec fn token_decodable(t: Seq<char>) -> bool
    decreases t.len(), 1nat, 0nat,
{
    if starts_with(t, '(') {
        true
    } else if is_hex_token(t) {
        hex_token_decodable(t)
    } else if is_array_token(t) {
        tokens_decodable(content_tokens(array_inner(t)), t.len())
    } else {
        true
    }
}

/// Whether every token of `ts` (each shorter than `bound`) can be read.
pub open spec fn tokens_decodable(ts: Seq<Seq<char>>, bound: nat) -> bool
    decreases bound, 0nat, ts.len(),
{
    if ts.len() == 0 {
        true
    } else if ts[0].len() < bound {
        token_decodable(ts[0]) && tokens_decodable(ts.drop_first(), bound)
    } else {
        true
    }
}

/// Appends the text fragments of one operand to `out`.
pub fn push_pdf_text_fragments_from_token(token: &[char], out: &mut Vec<Vec<char>>)
    requires
        token_decodable(token@),
    ensures
        char_vec_views(final(out)@) == char_vec_views(old(out)@) + token_fragments(token@),
    decreases token@.len(),
{
    let ghost start = char_vec_views(out@);
    let n = token.len();
    if n > 0 && token[0] == '(' {
        let text = decode_literal_chars(token);
        if normalized_key_chars(text.as_slice()).len() >= 2 {
            out.push(text);
            assert(char_vec_views(out@) =~= start + token_fragments(token@));
        } else {
            assert(char_vec_views(out@) =~= start + token_fragments(token@));
        }
    } else if n > 0 && token[0] == '<' && !(n >= 2 && token[1] == '<') {
        let text = decode_hex_chars(token);
        if normalized_key_chars(text.as_slice()).len() >= 2 {
            out.push(text);
            assert(char_vec_views(out@) =~= start + token_fragments(token@));
        } else {
            assert(char_vec_views(out@) =~= start + token_fragments(token@));
        }
    } else if n > 0 && token[0] == '[' && token[n - 1] == ']' {
        let inner = copy_range(token, 1, n - 1);
        let nested = content_tokens_of(&inner);
        let ghost ts = char_vec_views(nested@);
        proof {
            crate::content::lemma_tokens_from_len(inner@, 0);
        }
        let mut k: usize = 0;
        assert(ts.skip(0) =~= ts);
        assert(char_vec_views(out@) =~= start);
        while k < nested.len()
            invariant
                ts == char_vec_views(nested@),
                ts == content_tokens(inner@),
                inner@ == array_inner(token@),
                n == token@.len(),
                inner@.len() + 2 == n,
                0 <= k <= nested@.len(),
                forall|j: int| 0 <= j < ts.len() ==> #[trigger] ts[j].len() <= inner@.len(),
                tokens_decodable(ts.skip(k as int), n as nat),
                start + token_fragments(token@) == char_vec_views(out@) + tokens_fragments(
                    ts.skip(k as int),
                    n as nat,
                ),
            decreases nested@.len() - k,
        {
            let ghost rest = ts.skip(k as int);
            assert(rest[0] == ts[k as int]);
            assert(rest.drop_first() =~= ts.skip(k + 1));
            assert(ts[k as int].len() < n);
            let ghost before = char_vec_views(out@);
            push_pdf_text_fragments_from_token(nested[k].as_slice(), out);
            assert(char_vec_views(out@) + tokens_fragments(ts.skip(k + 1), n as nat) =~= before
                + tokens_fragments(rest, n as nat));
            k += 1;
        }
        assert(ts.skip(k as int) =~= seq![]);
        assert(char_vec_views(out@) + seq![] =~= char_vec_views(out@));
    } else {
        assert(char_vec_views(out@) =~= start + token_fragments(token@));
    }
}

/// Whether `op` is a text-showing operator (`Tj`, `TJ`, `'`, `"`).
pub open spec fn is_text_show(op: Seq<char>) -> bool {
    op == "Tj"@ || op == "TJ"@ || op == "'"@ || op == "\""@
}

/// The fragments of each token of `ts` in turn.
pub open spec fn all_token_fragments(ts: Seq<Seq<char>>) -> Seq<Seq<char>>
    decreases ts.len(),
{
    if ts.len() == 0 {
        seq![]
    } else {
        all_token_fragments(ts.drop_last()) + token_fragments(ts.last())
    }
}

/// The text fragments that a nice-view line shows: the decoded operands of
/// a text-showing operator, and none for any other line.
pub open spec fn line_fragments(line: Seq<char>) -> Seq<Seq<char>> {
    let ts = content_tokens(line);
    if ts.len() > 0 && is_text_show(ts.last()) {
        all_token_fragments(ts.drop_last())
    } else {
        seq![]
    }
}

/// Whether the fragments of a line can be read: every operand of a
/// text-showing operator is readable.
pub open spec fn line_decodable(line: Seq<char>) -> bool {
    let ts = content_tokens(line);
    ts.len() > 0 && is_text_show(ts.last()) ==> forall|i: int|
        0 <= i < ts.len() - 1 ==> token_decodable(#[trigger] ts[i])
}

/// Whether `op` is a text-showing operator.
fn is_text_show_exec(op: &[char]) -> (b: bool)
    ensures
        b == is_text_show(op@),
{
    chars_eq_str(op, "Tj") || chars_eq_str(op, "TJ") || chars_eq_str(op, "'") || chars_eq_str(
        op,
        "\"",
    )
}

/// The text fragments of a nice-view line, as characters.
pub fn line_fragment_chars(line: &Vec<char>) -> (out: Vec<Vec<char>>)
    requires
        line_decodable(line@),
    ensures
        char_vec_views(out@) == line_fragments(line@),
{
    let tokens = content_tokens_of(line);
    let ghost ts = char_vec_views(tokens@);
    let mut out: Vec<Vec<char>> = Vec::new();
    if tokens.len() == 0 {
        assert(char_vec_views(out@) =~= seq![]);
        return out;
    }
    let last = tokens.len() - 1;
    if !is_text_show_exec(tokens[last].as_slice()) {
        assert(ts.last() == tokens@[last as int]@);
        assert(char_vec_views(out@) =~= seq![]);
        return out;
    }
    assert(ts.last() == tokens@[last as int]@);
    let mut k: usize = 0;
    assert(ts.drop_last().take(0) =~= seq![]);
    assert(char_vec_views(out@) =~= seq![]);
    while k < last
        invariant
            ts == char_vec_views(tokens@),
            ts == content_tokens(line@),
            last == ts.len() - 1,
            line_decodable(line@),
            is_text_show(ts.last()),
            0 <= k <= last,
            char_vec_views(out@) == all_token_fragments(ts.drop_last().take(k as int)),
        decreases last - k,
    {
        assert(ts.drop_last().take(k + 1).drop_last() =~= ts.drop_last().take(k as int));
        assert(ts.drop_last().take(k + 1).last() == ts[k as int]);
        assert(token_decodable(ts[k as int]));
        push_pdf_text_fragments_from_token(tokens[k].as_slice(), &mut out);
        k += 1;
    }
    assert(ts.drop_last().take(k as int) =~= ts.drop_last());
    out
}

/// The text fragments of a nice-view line: the decoded operands of `Tj`,
/// `TJ`, `'` and `"`.
pub fn nice_stream_line_text_fragments(line: &str) -> (out: Vec<String>)
    requires
        line_decodable(line@),
    ensures
        string_views(out@) == line_fragments(line@),
{
    let chars = chars_of(line);
    let frags = line_fragment_chars(&chars);
    strings_of(&frags)
}

/// Whether hex digits can be read two UTF-8 bytes at a time.
fn hex_pairs_readable(h: &Vec<char>) -> (b: bool)
    ensures
        b == hex_pair_bytes(h@) is Some,
{
    let mut i: usize = 0;
    let len = h.len();
    assert(h@.skip(0) =~= h@);
    while i < len
        invariant
            len == h@.len(),
            i <= len,
            (hex_pair_bytes(h@) is Some) == (hex_pair_bytes(h@.skip(i as int)) is Some),
        decreases len - i,
    {
        let ghost rest = h@.skip(i as int);
        let w = char_utf8_len(h[i]);
        if w == 2 {
            assert(rest.drop_first() =~= h@.skip(i + 1));
            i += 1;
        } else if w == 1 && i + 1 < len && char_utf8_len(h[i + 1]) == 1 {
            assert(rest.skip(2) =~= h@.skip(i + 2));
            i += 2;
        } else {
            return false;
        }
    }
    assert(h@.skip(len as int) =~= seq![]);
    true
}

/// Whether every hex string within an operand can be read.
pub fn token_readable(token: &[char]) -> (b: bool)
    ensures
        b == token_decodable(token@),
    decreases token@.len(),
{
    let n = token.len();
    if n > 0 && token[0] == '(' {
        true
    } else if n > 0 && token[0] == '<' && !(n >= 2 && token[1] == '<') {
        let h = hex_digit_chars(token);
        hex_pairs_readable(&h)
    } else if n > 0 && token[0] == '[' && token[n - 1] == ']' {
        let inner = copy_range(token, 1, n - 1);
        let nested = content_tokens_of(&inner);
        let ghost ts = char_vec_views(nested@);
        proof {
            crate::content::lemma_tokens_from_len(inner@, 0);
        }
        let mut k: usize = 0;
        assert(ts.skip(0) =~= ts);
        while k < nested.len()
            invariant
                ts == char_vec_views(nested@),
                ts == content_tokens(inner@),
                inner@ == array_inner(token@),
                n == token@.len(),
                inner@.len() + 2 == n,
                0 <= k <= nested@.len(),
                forall|j: int| 0 <= j < ts.len() ==> #[trigger] ts[j].len() <= inner@.len(),
                token_decodable(token@) == tokens_decodable(ts.skip(k as int), n as nat),
            decreases nested@.len() - k,
        {
            let ghost rest = ts.skip(k as int);
            assert(rest[0] == ts[k as int]);
            assert(rest.drop_first() =~= ts.skip(k + 1));
            assert(ts[k as int].len() < n);
            if !token_readable(nested[k].as_slice()) {
                return false;
            }
            k += 1;
        }
        assert(ts.skip(k as int) =~= seq![]);
        true
    } else {
        true
    }
}

/// Whether the fragments of a nice-view line can be read.
pub fn line_fragments_readable(line: &str) -> (b: bool)
    ensures
        b == line_decodable(line@),
{
    let chars = chars_of(line);
    let tokens = content_tokens_of(&chars);
    let ghost ts = char_vec_views(tokens@);
    if tokens.len() == 0 {
        return true;
    }
    let last = tokens.len() - 1;
    assert(ts.last() == tokens@[last as int]@);
    if !is_text_show_exec(tokens[last].as_slice()) {
        return true;
    }
    let mut k: usize = 0;
    while k < last
        invariant
            ts == char_vec_views(tokens@),
            ts == content_tokens(line@),
            last == ts.len() - 1,
            is_text_show(ts.last()),
            0 <= k <= last,
            forall|i: int| 0 <= i < k ==> token_decodable(#[trigger] ts[i]),
        decreases last - k,
    {
        assert(ts[k as int] == tokens@[k as int]@);
        if !token_readable(tokens[k].as_slice()) {
            return false;
        }
        k += 1;
    }
    true
}

} // verus!
