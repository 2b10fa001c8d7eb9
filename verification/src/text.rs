//! Character classes, string building blocks and number formatting shared by
//! the rest of the library.
use vstd::prelude::*;

verus! {

/// The Unicode `White_Space` property.
pub open spec fn spec_is_whitespace(c: char) -> bool {
    let v = c as u32;
    ||| 0x09 <= v <= 0x0d
    ||| v == 0x20
    ||| v == 0x85
    ||| v == 0xa0
    ||| v == 0x1680
    ||| 0x2000 <= v <= 0x200a
    ||| v == 0x2028
    ||| v == 0x2029
    ||| v == 0x202f
    ||| v == 0x205f
    ||| v == 0x3000
}

/// The Unicode general category `Cc` (control codes).
pub open spec fn spec_is_control(c: char) -> bool {
    let v = c as u32;
    v <= 0x1f || (0x7f <= v <= 0x9f)
}

/// Whether `c` carries the Unicode `White_Space` property.
pub fn is_whitespace(c: char) -> (b: bool)
    ensures
        b == spec_is_whitespace(c),
{
    let v = c as u32;
    (0x09 <= v && v <= 0x0d) || v == 0x20 || v == 0x85 || v == 0xa0 || v == 0x1680 || (0x2000 <= v
        && v <= 0x200a) || v == 0x2028 || v == 0x2029 || v == 0x202f || v == 0x205f || v == 0x3000
}

/// Whether `c` is a control code (general category `Cc`).
pub fn is_control(c: char) -> (b: bool)
    ensures
        b == spec_is_control(c),
{
    let v = c as u32;
    v <= 0x1f || (0x7f <= v && v <= 0x9f)
}

/// Number of bytes that the UTF-8 encoding of `c` takes.
pub open spec fn utf8_len(c: char) -> nat {
    let v = c as u32;
    if v < 0x80 {
        1
    } else if v < 0x800 {
        2
    } else if v < 0x10000 {
        3
    } else {
        4
    }
}

/// Number of bytes that the UTF-8 encoding of `s` takes.
pub open spec fn seq_utf8_len(s: Seq<char>) -> nat
    decreases s.len(),
{
    if s.len() == 0 {
        0
    } else {
        seq_utf8_len(s.drop_last()) + utf8_len(s.last())
    }
}

pub proof fn lemma_seq_utf8_len_push(s: Seq<char>, c: char)
    ensures
        seq_utf8_len(s.push(c)) == seq_utf8_len(s) + utf8_len(c),
{
    assert(s.push(c).drop_last() =~= s);
}

pub proof fn lemma_seq_utf8_len_bounds(s: Seq<char>)
    ensures
        s.len() <= seq_utf8_len(s) <= 4 * s.len(),
    decreases s.len(),
{
    if s.len() > 0 {
        lemma_seq_utf8_len_bounds(s.drop_last());
    }
}

/// Byte length of a concatenation.
pub proof fn lemma_seq_utf8_len_concat(a: Seq<char>, b: Seq<char>)
    ensures
        seq_utf8_len(a + b) == seq_utf8_len(a) + seq_utf8_len(b),
    decreases b.len(),
{
    if b.len() > 0 {
        lemma_seq_utf8_len_concat(a, b.drop_last());
        assert((a + b).drop_last() =~= a + b.drop_last());
    } else {
        assert(a + b =~= a);
    }
}

/// Byte length of the UTF-8 encoding of `c`.
pub fn char_utf8_len(c: char) -> (n: usize)
    ensures
        n == utf8_len(c),
{
    let v = c as u32;
    if v < 0x80 {
        1
    } else if v < 0x800 {
        2
    } else if v < 0x10000 {
        3
    } else {
        4
    }
}

/// The Unicode `Alphabetic` property of a character, as `char::is_alphabetic`
/// reports it.
pub uninterp spec fn char_alphabetic(c: char) -> bool;

/// The characters that `char::to_lowercase` yields for a character.
pub uninterp spec fn char_lowercase(c: char) -> Seq<char>;

/// The characters that `String::from_utf8_lossy` decodes from a byte string.
pub uninterp spec fn utf8_lossy(bytes: Seq<u8>) -> Seq<char>;

/// Whether `c` is one of the ASCII letters `A`..=`Z`, `a`..=`z`.
pub open spec fn is_ascii_letter(c: char) -> bool {
    (0x41 <= c as u32 && c as u32 <= 0x5a) || (0x61 <= c as u32 && c as u32 <= 0x7a)
}

/// The ASCII lowercase of `c`: `A`..=`Z` moved to `a`..=`z`, every other
/// character kept.
pub open spec fn ascii_lower(c: char) -> char {
    if 0x41 <= c as u32 && c as u32 <= 0x5a {
        ((c as u32) + 32) as char
    } else {
        c
    }
}

/// Whether every character of `t` is below U+0080.
pub open spec fn all_ascii_chars(t: Seq<char>) -> bool {
    forall|i: int| 0 <= i < t.len() ==> (#[trigger] t[i] as u32) < 0x80
}

/// Whether every character of `t` is an ASCII letter.
pub open spec fn all_ascii_letters(t: Seq<char>) -> bool {
    forall|i: int| 0 <= i < t.len() ==> is_ascii_letter(#[trigger] t[i])
}

/// The characters with the codes of `bytes`, one per byte.
pub open spec fn ascii_chars(bytes: Seq<u8>) -> Seq<char> {
    bytes.map_values(|b: u8| b as char)
}

/// Whether every byte of `bytes` is below 0x80.
pub open spec fn all_ascii_bytes(bytes: Seq<u8>) -> bool {
    forall|i: int| 0 <= i < bytes.len() ==> #[trigger] bytes[i] < 0x80
}

/// Calls `char::is_alphabetic`; the result is the character's Unicode
/// `Alphabetic` property, which is named here and not spelled out beyond
/// ASCII, where the alphabetic characters are exactly the ASCII letters.
#[verifier::external_body]
pub(crate) fn is_alphabetic(c: char) -> (b: bool)
    ensures
        b == char_alphabetic(c),
        (c as u32) < 0x80 ==> (b <==> is_ascii_letter(c)),
{
    c.is_alphabetic()
}

/// Calls `char::to_lowercase` and collects the characters it yields; the
/// Unicode case mapping is named here and not spelled out beyond ASCII, where
/// it yields the single ASCII lowercase character.
#[verifier::external_body]
pub(crate) fn to_lowercase(c: char) -> (v: Vec<char>)
    ensures
        v@ == char_lowercase(c),
        (c as u32) < 0x80 ==> v@ == seq![ascii_lower(c)],
{
    c.to_lowercase().collect()
}

/// Calls `String::from_utf8_lossy`: the bytes decoded as UTF-8, each invalid
/// sequence replaced by U+FFFD. The decoding is named here; beyond that the
/// contract states only that bytes all below 0x80 decode one character each,
/// the character with that code.
#[verifier::external_body]
pub(crate) fn decode_utf8_lossy(bytes: &[u8]) -> (v: Vec<char>)
    ensures
        v@ == utf8_lossy(bytes@),
        all_ascii_bytes(bytes@) ==> v@ == ascii_chars(bytes@),
{
    String::from_utf8_lossy(bytes).chars().collect()
}

/// The characters of `s` in order.
pub(crate) fn chars_of(s: &str) -> (v: Vec<char>)
    ensures
        v@ == s@,
{
    broadcast use vstd::string::axiom_spec_iter;
    let mut v: Vec<char> = Vec::new();
    for c in it: s.chars()
        invariant
            it.seq() == s@,
            v@ == it.seq().take(it.index() as int),
    {
        v.push(c);
    }
    v
}

/// Collects characters into a `String` (`FromIterator<char>` for `String`).
#[verifier::external_body]
pub(crate) fn string_from_chars(v: &Vec<char>) -> (s: String)
    ensures
        s@ == v@,
{
    v.iter().collect()
}

/// Appends every character of `src` to `out`.
pub fn push_all(out: &mut Vec<char>, src: &Vec<char>)
    ensures
        final(out)@ == old(out)@ + src@,
{
    let ghost start = out@;
    let mut i: usize = 0;
    while i < src.len()
        invariant
            0 <= i <= src.len(),
            out@ == start + src@.subrange(0, i as int),
        decreases src.len() - i,
    {
        out.push(src[i]);
        assert(src@.subrange(0, i + 1) =~= src@.subrange(0, i as int).push(src@[i as int]));
        i += 1;
    }
    assert(src@.subrange(0, src.len() as int) =~= src@);
}

/// Appends the characters of `lit` to `out`.
pub fn push_str(out: &mut Vec<char>, lit: &str)
    ensures
        final(out)@ == old(out)@ + lit@,
{
    let chars = chars_of(lit);
    push_all(out, &chars);
}

/// Whether the characters `a` spell exactly `lit`.
pub fn chars_eq_str(a: &[char], lit: &str) -> (b: bool)
    ensures
        b == (a@ == lit@),
{
    let l = chars_of(lit);
    if a.len() != l.len() {
        return false;
    }
    let mut i: usize = 0;
    while i < a.len()
        invariant
            a@.len() == l@.len(),
            l@ == lit@,
            0 <= i <= a@.len(),
            forall|j: int| 0 <= j < i ==> a@[j] == l@[j],
        decreases a@.len() - i,
    {
        if a[i] != l[i] {
            assert(a@[i as int] != l@[i as int]);
            return false;
        }
        i += 1;
    }
    assert(a@ =~= l@);
    true
}

/// Whether two character sequences are equal.
pub fn chars_eq(a: &[char], b: &[char]) -> (r: bool)
    ensures
        r == (a@ == b@),
{
    if a.len() != b.len() {
        return false;
    }
    let mut i: usize = 0;
    while i < a.len()
        invariant
            a@.len() == b@.len(),
            0 <= i <= a@.len(),
            forall|j: int| 0 <= j < i ==> a@[j] == b@[j],
        decreases a@.len() - i,
    {
        if a[i] != b[i] {
            assert(a@[i as int] != b@[i as int]);
            return false;
        }
        i += 1;
    }
    assert(a@ =~= b@);
    true
}

/// Lowercase hexadecimal digit for `d < 16`.
pub open spec fn hex_digit(d: nat) -> char {
    if d < 10 {
        (('0' as u32) + d) as char
    } else {
        (('a' as u32) + (d - 10)) as char
    }
}

/// `value` in lowercase hexadecimal, left-padded with zeros to `width` digits.
pub open spec fn hex_padded(value: nat, width: nat) -> Seq<char>
    decreases width, value,
{
    if width == 0 {
        if value == 0 {
            seq![]
        } else {
            hex_padded(value / 16, 0).push(hex_digit(value % 16))
        }
    } else {
        hex_padded(value / 16, (width - 1) as nat).push(hex_digit(value % 16))
    }
}

/// Decimal digits of `value`, with no leading zeros (`"0"` for zero).
pub open spec fn decimal(value: nat) -> Seq<char>
    decreases value,
{
    if value < 10 {
        seq![(('0' as u32) + value) as char]
    } else {
        decimal(value / 10).push((('0' as u32) + (value % 10)) as char)
    }
}

/// Decimal digits of `value`, left-padded with zeros to at least `width` digits.
pub open spec fn decimal_padded(value: nat, width: nat) -> Seq<char> {
    let digits = decimal(value);
    if digits.len() >= width {
        digits
    } else {
        Seq::new((width - digits.len()) as nat, |i: int| '0') + digits
    }
}

pub proof fn lemma_decimal_len(value: nat)
    ensures
        decimal(value).len() >= 1,
        value < 10 ==> decimal(value).len() == 1,
    decreases value,
{
    if value >= 10 {
        lemma_decimal_len(value / 10);
    }
}

/// Decimal digits are `0` to `9`.
pub proof fn lemma_decimal_digits(value: nat)
    ensures
        forall|k: int| 0 <= k < decimal(value).len() ==> '0' <= #[trigger] decimal(value)[k] <= '9',
    decreases value,
{
    if value >= 10 {
        lemma_decimal_digits(value / 10);
        let r = decimal(value / 10);
        assert forall|k: int| 0 <= k < decimal(value).len() implies '0' <= #[trigger] decimal(
            value,
        )[k] <= '9' by {
            if k < r.len() {
                assert(decimal(value)[k] == r[k]);
            }
        }
    }
}

/// Different digits are different characters.
proof fn lemma_digit_char_injective(a: nat, b: nat)
    requires
        a < 10,
        b < 10,
        (('0' as u32) + a) as char == (('0' as u32) + b) as char,
    ensures
        a == b,
{
    assert(((('0' as u32) + a) as char) as u32 == ('0' as u32) + a);
    assert(((('0' as u32) + b) as char) as u32 == ('0' as u32) + b);
}

/// Different numbers have different decimal digits.
pub proof fn lemma_decimal_injective(a: nat, b: nat)
    requires
        decimal(a) == decimal(b),
    ensures
        a == b,
    decreases a,
{
    lemma_decimal_len(a / 10);
    lemma_decimal_len(b / 10);
    if a < 10 && b < 10 {
        assert(decimal(a) == seq![(('0' as u32) + a) as char]);
        assert(decimal(b) == seq![(('0' as u32) + b) as char]);
        let xa = (('0' as u32) + a) as char;
        let xb = (('0' as u32) + b) as char;
        assert(seq![xa][0] == xa);
        assert(seq![xb][0] == xb);
        assert(decimal(a)[0] == decimal(b)[0]);
        assert(xa == xb);
        lemma_digit_char_injective(a, b);
    } else if a >= 10 && b >= 10 {
        let da = decimal(a / 10);
        let db = decimal(b / 10);
        assert(decimal(a).drop_last() =~= da);
        assert(decimal(b).drop_last() =~= db);
        lemma_decimal_injective(a / 10, b / 10);
        assert(decimal(a).last() == (('0' as u32) + (a % 10)) as char);
        assert(decimal(b).last() == (('0' as u32) + (b % 10)) as char);
        assert(decimal(a).last() == decimal(b).last());
        lemma_digit_char_injective(a % 10, b % 10);
    } else {
        assert(decimal(a).len() != decimal(b).len());
    }
}

fn digit_char(d: u64) -> (c: char)
    requires
        d < 10,
    ensures
        c == (('0' as u32) + d) as char,
{
    if d == 0 { '0' }
    else if d == 1 { '1' }
    else if d == 2 { '2' }
    else if d == 3 { '3' }
    else if d == 4 { '4' }
    else if d == 5 { '5' }
    else if d == 6 { '6' }
    else if d == 7 { '7' }
    else if d == 8 { '8' }
    else { '9' }
}

fn hex_char(d: u64) -> (c: char)
    requires
        d < 16,
    ensures
        c == hex_digit(d as nat),
{
    if d < 10 {
        digit_char(d)
    } else if d == 10 { 'a' }
    else if d == 11 { 'b' }
    else if d == 12 { 'c' }
    else if d == 13 { 'd' }
    else if d == 14 { 'e' }
    else { 'f' }
}

/// Appends the decimal digits of `value` to `out`.
pub fn push_decimal(out: &mut Vec<char>, value: u64)
    ensures
        final(out)@ == old(out)@ + decimal(value as nat),
    decreases value,
{
    if value < 10 {
        out.push(digit_char(value));
        assert(decimal(value as nat) =~= seq![(('0' as u32) + value) as char]);
    } else {
        push_decimal(out, value / 10);
        out.push(digit_char(value % 10));
        assert(decimal(value as nat) == decimal((value / 10) as nat).push(
            (('0' as u32) + (value % 10)) as char,
        ));
    }
}

/// The decimal digits of `value`.
pub fn decimal_chars(value: u64) -> (v: Vec<char>)
    ensures
        v@ == decimal(value as nat),
{
    let mut v = Vec::new();
    push_decimal(&mut v, value);
    assert(v@ =~= decimal(value as nat));
    v
}

/// Appends `value` in lowercase hexadecimal, zero-padded to `width` digits.
pub fn push_hex_padded(out: &mut Vec<char>, value: u64, width: u64)
    ensures
        final(out)@ == old(out)@ + hex_padded(value as nat, width as nat),
    decreases width, value,
{
    if width == 0 {
        if value == 0 {
            assert(hex_padded(0, 0) =~= seq![]);
            assert(out@ =~= old(out)@ + hex_padded(value as nat, width as nat));
        } else {
            push_hex_padded(out, value / 16, 0);
            out.push(hex_char(value % 16));
        }
    } else {
        push_hex_padded(out, value / 16, width - 1);
        out.push(hex_char(value % 16));
    }
}

/// Appends the decimal digits of `value`, zero-padded to at least `width` digits.
pub fn push_decimal_padded(out: &mut Vec<char>, value: u64, width: usize)
    ensures
        final(out)@ == old(out)@ + decimal_padded(value as nat, width as nat),
{
    let digits = decimal_chars(value);
    if digits.len() < width {
        let ghost start = out@;
        let pad = width - digits.len();
        let mut i: usize = 0;
        while i < pad
            invariant
                0 <= i <= pad,
                out@ == start + Seq::new(i as nat, |k: int| '0'),
            decreases pad - i,
        {
            out.push('0');
            assert(Seq::new((i + 1) as nat, |k: int| '0') =~= Seq::new(i as nat, |k: int| '0').push(
                '0',
            ));
            i += 1;
        }
        push_all(out, &digits);
        assert(out@ =~= start + (Seq::new(pad as nat, |k: int| '0') + digits@));
    } else {
        push_all(out, &digits);
    }
}

/// Whether the text `a` is exactly `lit`.
pub fn str_eq(a: &str, lit: &str) -> (b: bool)
    ensures
        b == (a@ == lit@),
{
    let chars = chars_of(a);
    chars_eq_str(chars.as_slice(), lit)
}

/// An indirect reference as it is written: `num gen R`.
pub open spec fn ref_text(num: nat, gen: nat) -> Seq<char> {
    decimal(num) + seq![' '] + decimal(gen) + seq![' ', 'R']
}

/// Appends `num gen R` to `out`.
pub fn push_ref_text(out: &mut Vec<char>, num: u64, gen: u64)
    ensures
        final(out)@ == old(out)@ + ref_text(num as nat, gen as nat),
{
    push_decimal(out, num);
    out.push(' ');
    push_decimal(out, gen);
    out.push(' ');
    out.push('R');
    assert(out@ =~= old(out)@ + ref_text(num as nat, gen as nat));
}

/// Whether `v` is a Unicode scalar value (a code point that is not a
/// surrogate).
pub open spec fn is_scalar_value(v: u32) -> bool {
    v < 0xD800 || (0xE000 <= v && v <= 0x10FFFF)
}

/// Calls `char::from_u32`: the character with code point `v` when `v` is a
/// Unicode scalar value, and `None` otherwise, as its documentation states.
#[verifier::external_body]
pub(crate) fn char_from_u32(v: u32) -> (c: Option<char>)
    ensures
        c == (if is_scalar_value(v) {
            Some(v as char)
        } else {
            None
        }),
{
    char::from_u32(v)
}

/// `t` without its leading whitespace.
pub open spec fn trim_front(t: Seq<char>) -> Seq<char>
    decreases t.len(),
{
    if t.len() > 0 && spec_is_whitespace(t[0]) {
        trim_front(t.drop_first())
    } else {
        t
    }
}

/// `t` without its trailing whitespace.
pub open spec fn trim_back(t: Seq<char>) -> Seq<char>
    decreases t.len(),
{
    if t.len() > 0 && spec_is_whitespace(t.last()) {
        trim_back(t.drop_last())
    } else {
        t
    }
}

/// `t` without leading and trailing whitespace, as `str::trim` gives it.
pub open spec fn trimmed(t: Seq<char>) -> Seq<char> {
    trim_back(trim_front(t))
}

/// `t` without leading and trailing whitespace.
pub fn trim_chars(t: &[char]) -> (r: Vec<char>)
    ensures
        r@ == trimmed(t@),
{
    let n = t.len();
    let mut i: usize = 0;
    assert(t@.subrange(0, n as int) =~= t@);
    while i < n && is_whitespace(t[i])
        invariant
            n == t@.len(),
            0 <= i <= n,
            trim_front(t@.subrange(i as int, n as int)) == trim_front(t@),
        decreases n - i,
    {
        assert(t@.subrange(i as int, n as int).drop_first() =~= t@.subrange(i + 1, n as int));
        i += 1;
    }
    let ghost front = t@.subrange(i as int, n as int);
    assert(trim_front(t@) == front);
    let mut j: usize = n;
    assert(front.subrange(0, (j - i) as int) =~= front);
    while j > i && is_whitespace(t[j - 1])
        invariant
            n == t@.len(),
            i <= j <= n,
            front == t@.subrange(i as int, n as int),
            trim_back(t@.subrange(i as int, j as int)) == trim_back(front),
        decreases j - i,
    {
        assert(t@.subrange(i as int, j as int).drop_last() =~= t@.subrange(i as int, j - 1));
        j -= 1;
    }
    let mut r: Vec<char> = Vec::new();
    let mut k = i;
    while k < j
        invariant
            i <= k <= j <= n,
            n == t@.len(),
            r@ == t@.subrange(i as int, k as int),
        decreases j - k,
    {
        r.push(t[k]);
        assert(t@.subrange(i as int, k + 1) =~= t@.subrange(i as int, k as int).push(t@[k as int]));
        k += 1;
    }
    r
}

/// `s` without leading and trailing whitespace.
pub fn str_trim(s: &str) -> (r: Vec<char>)
    ensures
        r@ == trimmed(s@),
{
    let chars = chars_of(s);
    trim_chars(chars.as_slice())
}

/// The characters of an optional text.
pub open spec fn opt_text(o: Option<String>) -> Option<Seq<char>> {
    match o {
        Some(s) => Some(s@),
        None => None,
    }
}

/// The characters of an optional text slice.
pub open spec fn opt_str(o: Option<&str>) -> Option<Seq<char>> {
    match o {
        Some(s) => Some(s@),
        None => None,
    }
}

/// Whether `b` occurs in `a` at index `i`.
pub open spec fn run_at_index(a: Seq<char>, b: Seq<char>, i: int) -> bool {
    0 <= i && i + b.len() <= a.len() && a.subrange(i, i + b.len()) == b
}

/// The first index from `from` on where `b` occurs in `a`.
pub open spec fn first_run_from(a: Seq<char>, b: Seq<char>, from: int) -> Option<int>
    decreases a.len() + 1 - from,
{
    if from < 0 || from + b.len() > a.len() {
        None
    } else if run_at_index(a, b, from) {
        Some(from)
    } else {
        first_run_from(a, b, from + 1)
    }
}

pub proof fn lemma_first_run_from(a: Seq<char>, b: Seq<char>, from: int)
    ensures
        first_run_from(a, b, from) matches Some(i) ==> from <= i && run_at_index(a, b, i),
    decreases a.len() + 1 - from,
{
    if !(from < 0 || from + b.len() > a.len()) && !run_at_index(a, b, from) {
        lemma_first_run_from(a, b, from + 1);
    }
}

/// Where `b` first occurs in `a`.
pub fn find_chars(a: &[char], b: &[char]) -> (r: Option<usize>)
    ensures
        match first_run_from(a@, b@, 0) {
            Some(i) => r matches Some(j) && j as int == i,
            None => r is None,
        },
        r matches Some(i) ==> run_at_index(a@, b@, i as int),
{
    proof {
        lemma_first_run_from(a@, b@, 0);
    }
    if b.len() > a.len() {
        return None;
    }
    let alen = a.len();
    let last = a.len() - b.len();
    let mut i: usize = 0;
    while i <= last
        invariant
            alen == a@.len(),
            last == a@.len() - b@.len(),
            b@.len() <= a@.len(),
            0 <= i <= last + 1,
            first_run_from(a@, b@, i as int) == first_run_from(a@, b@, 0),
        decreases last + 1 - i,
    {
        let mut j: usize = 0;
        let mut same = true;
        while j < b.len() && same
            invariant
                0 <= j <= b@.len(),
                alen == a@.len(),
                i <= last,
                last == a@.len() - b@.len(),
                b@.len() <= a@.len(),
                same == (forall|m: int| 0 <= m < j ==> a@[i + m] == b@[m]),
            decreases b@.len() - j,
        {
            if a[i + j] != b[j] {
                same = false;
            }
            j += 1;
        }
        if same {
            assert(a@.subrange(i as int, i + b@.len()) =~= b@);
            return Some(i);
        }
        assert(!run_at_index(a@, b@, i as int)) by {
            let m = choose|m: int| 0 <= m < j && a@[i + m] != b@[m];
            assert(a@.subrange(i as int, i + b@.len())[m] == a@[i + m]);
        }
        if i == last {
            assert(first_run_from(a@, b@, i + 1) is None);
            return None;
        }
        i += 1;
    }
    None
}

} // verus!
