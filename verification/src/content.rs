//! Tokenising PDF content streams.
//!
//! A content stream is split into tokens the way the viewer needs to show it:
//! whitespace separates tokens, `%` starts a comment that runs to the end of
//! the line, literal strings `( … )` (with nesting and escapes), arrays
//! `[ … ]` and hex strings `< … >` are single tokens, `<<` and `>>` stand
//! alone, and every other run of regular characters is one token.
use vstd::prelude::*;
use crate::text::{chars_of, is_whitespace, spec_is_whitespace, string_from_chars};

verus! {

/// Characters that end a bare token.
pub open spec fn ends_atom(c: char) -> bool {
    spec_is_whitespace(c) || c == '[' || c == ']' || c == '(' || c == ')' || c == '<' || c == '>'
        || c == '%'
}

/// Index just past the literal string that is being scanned at `i`, given
/// the nesting `depth` so far and whether the previous character was a
/// backslash. A string that never closes runs to the end of the input.
pub open spec fn string_token_end(c: Seq<char>, i: nat, depth: nat, escaped: bool) -> nat
    decreases c.len() - i,
{
    if i >= c.len() {
        i
    } else {
        let ch = c[i as int];
        if escaped {
            string_token_end(c, i + 1, depth, false)
        } else if ch == '\\' {
            string_token_end(c, i + 1, depth, true)
        } else if ch == '(' {
            string_token_end(c, i + 1, depth + 1, false)
        } else if ch == ')' {
            if depth <= 1 {
                i + 1
            } else {
                string_token_end(c, i + 1, (depth - 1) as nat, false)
            }
        } else {
            string_token_end(c, i + 1, depth, false)
        }
    }
}

/// A literal string token ends just past a closing parenthesis (the one
/// that brings the nesting back to 0) or at the end of the input.
pub proof fn lemma_string_token_end_bounds(c: Seq<char>, i: nat, depth: nat, escaped: bool)
    ensures
        i < c.len() ==> i < string_token_end(c, i, depth, escaped) <= c.len(),
        i >= c.len() ==> string_token_end(c, i, depth, escaped) == i,
        i < c.len() ==> (string_token_end(c, i, depth, escaped) == c.len() || c[string_token_end(
            c,
            i,
            depth,
            escaped,
        ) - 1] == ')'),
    decreases c.len() - i,
{
    if i < c.len() {
        let ch = c[i as int];
        if escaped {
            lemma_string_token_end_bounds(c, i + 1, depth, false);
        } else if ch == '\\' {
            lemma_string_token_end_bounds(c, i + 1, depth, true);
        } else if ch == '(' {
            lemma_string_token_end_bounds(c, i + 1, depth + 1, false);
        } else if ch == ')' {
            if depth > 1 {
                lemma_string_token_end_bounds(c, i + 1, (depth - 1) as nat, false);
            }
        } else {
            lemma_string_token_end_bounds(c, i + 1, depth, false);
        }
    }
}

/// How many backslashes stand right before index `k`, counting no further
/// back than `lo`.
pub open spec fn backslashes_before(c: Seq<char>, lo: int, k: int) -> nat
    decreases k - lo,
{
    if k <= lo || k > c.len() || c[k - 1] != '\\' {
        0
    } else {
        1 + backslashes_before(c, lo, k - 1)
    }
}

proof fn lemma_string_end_unescaped(c: Seq<char>, lo: int, i: nat, depth: nat, escaped: bool)
    requires
        0 <= lo <= i <= c.len(),
        escaped <==> backslashes_before(c, lo, i as int) % 2 == 1,
    ensures
        ({
            let e = string_token_end(c, i, depth, escaped);
            e == c.len() || (lo < e && c[e - 1] == ')' && backslashes_before(c, lo, e - 1) % 2
                == 0)
        }),
    decreases c.len() - i,
{
    if i < c.len() {
        let ch = c[i as int];
        let n = backslashes_before(c, lo, i as int);
        assert(backslashes_before(c, lo, (i + 1) as int) == if ch == '\\' {
            n + 1
        } else {
            0
        });
        if escaped {
            lemma_string_end_unescaped(c, lo, i + 1, depth, false);
        } else if ch == '\\' {
            lemma_string_end_unescaped(c, lo, i + 1, depth, true);
        } else if ch == '(' {
            lemma_string_end_unescaped(c, lo, i + 1, depth + 1, false);
        } else if ch == ')' {
            if depth > 1 {
                lemma_string_end_unescaped(c, lo, i + 1, (depth - 1) as nat, false);
            }
        } else {
            lemma_string_end_unescaped(c, lo, i + 1, depth, false);
        }
    }
}

/// A backslash escapes the character after it: a literal string never ends
/// at an escaped `)`. The scan of a string opened at `start` stops at the end
/// of the input or just past a `)` preceded (within the string) by an even
/// number of backslashes; and a backslash with a character after it is
/// passed over together with that character, whatever the character is.
pub proof fn lemma_string_token_escapes(c: Seq<char>, start: nat, i: nat, depth: nat)
    requires
        start < c.len(),
        c[start as int] == '(',
    ensures
        ({
            let e = string_token_end(c, start, 0, false);
            e == c.len() || (start < e && c[e - 1] == ')' && backslashes_before(
                c,
                start as int,
                e - 1,
            ) % 2 == 0)
        }),
        i + 1 < c.len() && c[i as int] == '\\' ==> string_token_end(c, i, depth, false)
            == string_token_end(c, i + 2, depth, false) && string_token_end(c, i, depth, false)
            >= i + 2,
{
    lemma_string_end_unescaped(c, start as int, start, 0, false);
    if i + 1 < c.len() && c[i as int] == '\\' {
        lemma_string_token_end_bounds(c, i + 2, depth, false);
        assert(string_token_end(c, i + 1, depth, true) == string_token_end(c, i + 2, depth, false));
    }
}

/// Index just past the bracketed token (`[ … ]` or `< … >`) being scanned
/// at `i` with nesting `depth`; literal strings inside it are skipped whole.
pub open spec fn balanced_token_end(c: Seq<char>, i: nat, depth: nat, open: char, close: char) -> nat
    decreases c.len() - i,
{
    if i >= c.len() {
        i
    } else {
        let ch = c[i as int];
        if ch == '(' {
            let e = string_token_end(c, i, 0, false);
            if e <= i || e > c.len() {
                c.len()
            } else {
                balanced_token_end(c, e, depth, open, close)
            }
        } else if ch == open {
            balanced_token_end(c, i + 1, depth + 1, open, close)
        } else if ch == close {
            if depth <= 1 {
                i + 1
            } else {
                balanced_token_end(c, i + 1, (depth - 1) as nat, open, close)
            }
        } else {
            balanced_token_end(c, i + 1, depth, open, close)
        }
    }
}

/// A bracketed token ends just past the closing bracket that brings the
/// nesting back to 0, or at the end of the input; a literal string inside
/// it is skipped whole, so brackets within the string do not count.
pub proof fn lemma_balanced_token_end_bounds(
    c: Seq<char>,
    i: nat,
    depth: nat,
    open: char,
    close: char,
)
    ensures
        i < c.len() ==> i < balanced_token_end(c, i, depth, open, close) <= c.len(),
        i >= c.len() ==> balanced_token_end(c, i, depth, open, close) == i,
        i < c.len() ==> (balanced_token_end(c, i, depth, open, close) == c.len() || c[balanced_token_end(
            c,
            i,
            depth,
            open,
            close,
        ) - 1] == close),
    decreases c.len() - i,
{
    if i < c.len() {
        let ch = c[i as int];
        if ch == '(' {
            lemma_string_token_end_bounds(c, i, 0, false);
            let e = string_token_end(c, i, 0, false);
            lemma_balanced_token_end_bounds(c, e, depth, open, close);
        } else if ch == open {
            lemma_balanced_token_end_bounds(c, i + 1, depth + 1, open, close);
        } else if ch == close {
            if depth > 1 {
                lemma_balanced_token_end_bounds(c, i + 1, (depth - 1) as nat, open, close);
            }
        } else {
            lemma_balanced_token_end_bounds(c, i + 1, depth, open, close);
        }
    }
}

/// Index of the first character at or after `i` that ends a bare token.
pub open spec fn atom_end(c: Seq<char>, i: nat) -> nat
    decreases c.len() - i,
{
    if i >= c.len() {
        i
    } else if ends_atom(c[i as int]) {
        i
    } else {
        atom_end(c, i + 1)
    }
}

/// An atom token is the longest run from `i` of characters that are not
/// whitespace or delimiters: none inside it is one, and it stops at the end
/// of the input or at one; it is empty exactly when `i` is at the end or
/// at such a character.
pub proof fn lemma_atom_end_bounds(c: Seq<char>, i: nat)
    ensures
        i <= c.len() ==> i <= atom_end(c, i) <= c.len(),
        i >= c.len() ==> atom_end(c, i) == i,
        forall|k: int| i <= k < atom_end(c, i) ==> !ends_atom(#[trigger] c[k]),
        atom_end(c, i) < c.len() ==> ends_atom(c[atom_end(c, i) as int]),
        (atom_end(c, i) == i) <==> (i >= c.len() || ends_atom(c[i as int])),
    decreases c.len() - i,
{
    if i < c.len() && !ends_atom(c[i as int]) {
        lemma_atom_end_bounds(c, i + 1);
    }
}

/// Index of the line break that ends a comment whose text starts at `i`.
pub open spec fn comment_end(c: Seq<char>, i: nat) -> nat
    decreases c.len() - i,
{
    if i >= c.len() {
        i
    } else if c[i as int] == '\n' || c[i as int] == '\r' {
        i
    } else {
        comment_end(c, i + 1)
    }
}

pub proof fn lemma_comment_end_bounds(c: Seq<char>, i: nat)
    ensures
        i <= c.len() ==> i <= comment_end(c, i) <= c.len(),
        i >= c.len() ==> comment_end(c, i) == i,
    decreases c.len() - i,
{
    if i < c.len() && !(c[i as int] == '\n' || c[i as int] == '\r') {
        lemma_comment_end_bounds(c, i + 1);
    }
}

/// End of the token that starts at `i` (which holds no whitespace and no `%`).
pub open spec fn token_end(c: Seq<char>, i: nat) -> nat {
    let ch = c[i as int];
    let next_is_lt = i + 1 < c.len() && c[i + 1int] == '<';
    let next_is_gt = i + 1 < c.len() && c[i + 1int] == '>';
    if ch == '(' {
        string_token_end(c, i, 0, false)
    } else if ch == '[' {
        balanced_token_end(c, i, 0, '[', ']')
    } else if ch == '<' && !next_is_lt {
        balanced_token_end(c, i, 0, '<', '>')
    } else if ch == '<' && next_is_lt {
        i + 2
    } else if ch == '>' && next_is_gt {
        i + 2
    } else {
        atom_end(c, i)
    }
}

pub proof fn lemma_token_end_bounds(c: Seq<char>, i: nat)
    requires
        i < c.len(),
    ensures
        i <= token_end(c, i) <= c.len(),
{
    lemma_string_token_end_bounds(c, i, 0, false);
    lemma_balanced_token_end_bounds(c, i, 0, '[', ']');
    lemma_balanced_token_end_bounds(c, i, 0, '<', '>');
    lemma_atom_end_bounds(c, i);
}

/// The tokens of `c` from index `i` on.
pub open spec fn tokens_from(c: Seq<char>, i: nat) -> Seq<Seq<char>>
    decreases c.len() - i,
{
    if i >= c.len() {
        seq![]
    } else if spec_is_whitespace(c[i as int]) {
        tokens_from(c, i + 1)
    } else if c[i as int] == '%' {
        let e = comment_end(c, i + 1);
        if e <= i || e > c.len() {
            seq![]
        } else {
            tokens_from(c, e)
        }
    } else {
        let e = token_end(c, i);
        let next = if e > i {
            e
        } else {
            i + 1
        };
        if next <= i || next > c.len() {
            seq![]
        } else if e <= i {
            tokens_from(c, next)
        } else {
            seq![c.subrange(i as int, e as int)] + tokens_from(c, next)
        }
    }
}

/// No token of `c` taken from index `i` on is longer than what is left of `c`.
pub proof fn lemma_tokens_from_len(c: Seq<char>, i: nat)
    requires
        i <= c.len(),
    ensures
        forall|k: int|
            0 <= k < tokens_from(c, i).len() ==> #[trigger] tokens_from(c, i)[k].len() <= c.len()
                - i,
    decreases c.len() - i,
{
    if i < c.len() {
        if spec_is_whitespace(c[i as int]) {
            lemma_tokens_from_len(c, i + 1);
            assert(tokens_from(c, i) == tokens_from(c, i + 1));
        } else if c[i as int] == '%' {
            lemma_comment_end_bounds(c, i + 1);
            let e = comment_end(c, i + 1);
            if e > i && e <= c.len() {
                lemma_tokens_from_len(c, e);
                assert(tokens_from(c, i) == tokens_from(c, e));
            } else {
                assert(tokens_from(c, i).len() == 0);
            }
        } else {
            lemma_token_end_bounds(c, i);
            let e = token_end(c, i);
            let next = if e > i {
                e
            } else {
                i + 1
            };
            lemma_tokens_from_len(c, next);
            if e > i {
                let rest = tokens_from(c, next);
                assert(tokens_from(c, i) == seq![c.subrange(i as int, e as int)] + rest);
                assert forall|k: int| 0 <= k < tokens_from(c, i).len() implies #[trigger] tokens_from(
                    c,
                    i,
                )[k].len() <= c.len() - i by {
                    if k > 0 {
                        assert(tokens_from(c, i)[k] == rest[k - 1]);
                    }
                }
            } else {
                assert(tokens_from(c, i) == tokens_from(c, next));
            }
        }
    }
}

/// The tokens of a content stream's text.
pub open spec fn content_tokens(c: Seq<char>) -> Seq<Seq<char>> {
    tokens_from(c, 0)
}

/// The views of a vector of character vectors.
pub open spec fn char_vec_views(v: Seq<Vec<char>>) -> Seq<Seq<char>> {
    Seq::new(v.len(), |i: int| v[i]@)
}

/// The views of a vector of strings.
pub open spec fn string_views(v: Seq<String>) -> Seq<Seq<char>> {
    Seq::new(v.len(), |i: int| v[i]@)
}

/// Copies `chars[start..end]`.
pub fn copy_range(chars: &[char], start: usize, end: usize) -> (v: Vec<char>)
    requires
        start <= end <= chars@.len(),
    ensures
        v@ == chars@.subrange(start as int, end as int),
{
    let mut v = Vec::new();
    let mut i = start;
    while i < end
        invariant
            start <= i <= end <= chars@.len(),
            v@ == chars@.subrange(start as int, i as int),
        decreases end - i,
    {
        v.push(chars[i]);
        assert(chars@.subrange(start as int, i + 1) =~= chars@.subrange(start as int, i as int).push(
            chars@[i as int],
        ));
        i += 1;
    }
    v
}

/// Scans the literal string that starts at `start`: returns its text and the
/// index just past its closing parenthesis (or the end of the input).
pub fn parse_pdf_string_token(chars: &[char], start: usize) -> (res: (Vec<char>, usize))
    ensures
        res.1 == string_token_end(chars@, start as nat, 0, false),
        start <= chars@.len() ==> res.0@ == chars@.subrange(start as int, res.1 as int),
        start > chars@.len() ==> res.0@.len() == 0,
{
    let end = string_token_scan(chars, start);
    if start > chars.len() {
        return (Vec::new(), end);
    }
    proof {
        lemma_string_token_end_bounds(chars@, start as nat, 0, false);
    }
    (copy_range(chars, start, end), end)
}

fn string_token_scan(chars: &[char], start: usize) -> (end: usize)
    ensures
        end == string_token_end(chars@, start as nat, 0, false),
{
    let mut depth: usize = 0;
    let mut escaped = false;
    let mut index = start;
    while index < chars.len()
        invariant
            start <= index,
            depth <= index - start,
            string_token_end(chars@, index as nat, depth as nat, escaped) == string_token_end(
                chars@,
                start as nat,
                0,
                false,
            ),
        decreases chars@.len() - index,
    {
        let ch = chars[index];
        if escaped {
            escaped = false;
        } else if ch == '\\' {
            escaped = true;
        } else if ch == '(' {
            depth += 1;
        } else if ch == ')' {
            if depth <= 1 {
                return index + 1;
            }
            depth -= 1;
        }
        index += 1;
    }
    index
}

/// Scans the bracketed token that starts at `start` and is delimited by
/// `open` and `close`: returns its text and the index just past it.
pub fn parse_balanced_pdf_token(chars: &[char], start: usize, open: char, close: char) -> (res: (
    Vec<char>,
    usize,
))
    requires
        open != '(',
        close != '(',
    ensures
        res.1 == balanced_token_end(chars@, start as nat, 0, open, close),
        start <= chars@.len() ==> res.0@ == chars@.subrange(start as int, res.1 as int),
        start > chars@.len() ==> res.0@.len() == 0,
{
    let end = balanced_token_scan(chars, start, open, close);
    if start > chars.len() {
        return (Vec::new(), end);
    }
    proof {
        lemma_balanced_token_end_bounds(chars@, start as nat, 0, open, close);
    }
    (copy_range(chars, start, end), end)
}

fn balanced_token_scan(chars: &[char], start: usize, open: char, close: char) -> (end: usize)
    requires
        open != '(',
        close != '(',
    ensures
        end == balanced_token_end(chars@, start as nat, 0, open, close),
{
    let mut depth: usize = 0;
    let mut index = start;
    while index < chars.len()
        invariant
            start <= index,
            depth <= index - start,
            open != '(',
            close != '(',
            balanced_token_end(chars@, index as nat, depth as nat, open, close)
                == balanced_token_end(chars@, start as nat, 0, open, close),
        decreases chars@.len() - index,
    {
        let ch = chars[index];
        if ch == '(' {
            proof {
                lemma_string_token_end_bounds(chars@, index as nat, 0, false);
            }
            let next = string_token_scan(chars, index);
            index = next;
        } else {
            if ch == open {
                depth += 1;
            } else if ch == close {
                if depth <= 1 {
                    return index + 1;
                }
                depth -= 1;
            }
            index += 1;
        }
    }
    index
}

/// Whether `ch` ends a bare token.
pub fn is_atom_terminator(ch: char) -> (b: bool)
    ensures
        b == ends_atom(ch),
{
    is_whitespace(ch) || ch == '[' || ch == ']' || ch == '(' || ch == ')' || ch == '<' || ch == '>'
        || ch == '%'
}

/// Scans the bare token that starts at `start`: returns its text and the
/// index of the character that ends it.
pub fn parse_pdf_atom_token(chars: &[char], start: usize) -> (res: (Vec<char>, usize))
    ensures
        res.1 == atom_end(chars@, start as nat),
        start <= chars@.len() ==> res.0@ == chars@.subrange(start as int, res.1 as int),
        start > chars@.len() ==> res.0@.len() == 0,
{
    let mut index = start;
    let mut out: Vec<char> = Vec::new();
    while index < chars.len() && !is_atom_terminator(chars[index])
        invariant
            start <= index,
            start <= chars@.len() ==> index <= chars@.len(),
            start <= chars@.len() ==> out@ == chars@.subrange(start as int, index as int),
            atom_end(chars@, index as nat) == atom_end(chars@, start as nat),
        decreases chars@.len() - index,
    {
        let ch = chars[index];
        out.push(ch);
        assert(chars@.subrange(start as int, index + 1) =~= chars@.subrange(
            start as int,
            index as int,
        ).push(ch));
        index += 1;
    }
    if start > chars.len() {
        return (Vec::new(), index);
    }
    (out, index)
}

/// Index of the line break that ends the comment whose text starts at `start`.
fn skip_comment(chars: &Vec<char>, start: usize) -> (end: usize)
    requires
        start <= chars@.len(),
    ensures
        end == comment_end(chars@, start as nat),
{
    let mut index = start;
    while index < chars.len() && chars[index] != '\n' && chars[index] != '\r'
        invariant
            start <= index <= chars@.len(),
            comment_end(chars@, index as nat) == comment_end(chars@, start as nat),
        decreases chars@.len() - index,
    {
        index += 1;
    }
    index
}

/// Scans the token that starts at `start`, which holds neither whitespace
/// nor `%`: returns its text and the index just past it.
fn scan_token(chars: &Vec<char>, start: usize) -> (res: (Vec<char>, usize))
    requires
        start < chars@.len(),
    ensures
        res.1 == token_end(chars@, start as nat),
        start <= res.1 <= chars@.len(),
        res.0@ == chars@.subrange(start as int, res.1 as int),
{
    proof {
        lemma_token_end_bounds(chars@, start as nat);
    }
    let ch = chars[start];
    let len = chars.len();
    let next_is_lt = start + 1 < len && chars[start + 1] == '<';
    let next_is_gt = start + 1 < len && chars[start + 1] == '>';
    if ch == '(' {
        parse_pdf_string_token(chars.as_slice(), start)
    } else if ch == '[' {
        parse_balanced_pdf_token(chars.as_slice(), start, '[', ']')
    } else if ch == '<' && !next_is_lt {
        parse_balanced_pdf_token(chars.as_slice(), start, '<', '>')
    } else if (ch == '<' && next_is_lt) || (ch == '>' && next_is_gt) {
        (copy_range(chars.as_slice(), start, start + 2), start + 2)
    } else {
        parse_pdf_atom_token(chars.as_slice(), start)
    }
}

/// The tokens of `chars`, in order.
pub fn content_tokens_of(chars: &Vec<char>) -> (tokens: Vec<Vec<char>>)
    ensures
        char_vec_views(tokens@) == content_tokens(chars@),
{
    let mut tokens: Vec<Vec<char>> = Vec::new();
    let mut index: usize = 0;
    let len = chars.len();
    assert(char_vec_views(tokens@) =~= seq![]);
    while index < len
        invariant
            len == chars@.len(),
            index <= len,
            char_vec_views(tokens@) + tokens_from(chars@, index as nat) == content_tokens(chars@),
        decreases len - index,
    {
        let ghost before = char_vec_views(tokens@);
        let ch = chars[index];
        if is_whitespace(ch) {
            index += 1;
        } else if ch == '%' {
            proof {
                lemma_comment_end_bounds(chars@, (index + 1) as nat);
            }
            index = skip_comment(chars, index + 1);
        } else {
            let (token, next) = scan_token(chars, index);
            let ghost step = tokens_from(chars@, index as nat);
            let ghost rest = tokens_from(chars@, if next > index { next as nat } else { (index + 1) as nat });
            if token.len() > 0 {
                tokens.push(token);
                assert(char_vec_views(tokens@) =~= before.push(chars@.subrange(index as int, next as int)));
                assert(step == seq![chars@.subrange(index as int, next as int)] + rest);
                assert(before + step =~= char_vec_views(tokens@) + rest);
            } else {
                assert(step == rest);
            }
            index = if next > index { next } else { index + 1 };
        }
    }
    assert(tokens_from(chars@, index as nat) =~= seq![]);
    assert(char_vec_views(tokens@) + seq![] =~= char_vec_views(tokens@));
    tokens
}

/// Splits the text of a content stream into tokens.
pub fn pdf_content_tokens(input: &str) -> (tokens: Vec<String>)
    ensures
        string_views(tokens@) == content_tokens(input@),
{
    let chars = chars_of(input);
    let token_chars = content_tokens_of(&chars);
    let mut tokens: Vec<String> = Vec::new();
    let mut i: usize = 0;
    while i < token_chars.len()
        invariant
            0 <= i <= token_chars@.len(),
            string_views(tokens@) == char_vec_views(token_chars@).subrange(0, i as int),
        decreases token_chars@.len() - i,
    {
        let ghost before = string_views(tokens@);
        tokens.push(string_from_chars(&token_chars[i]));
        assert(string_views(tokens@) =~= before.push(token_chars@[i as int]@));
        assert(char_vec_views(token_chars@).subrange(0, i + 1) =~= char_vec_views(token_chars@).subrange(0, i as int).push(token_chars@[i as int]@));
        i += 1;
    }
    assert(char_vec_views(token_chars@).subrange(0, i as int) =~= char_vec_views(token_chars@));
    tokens
}

} // verus!
