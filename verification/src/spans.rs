//! Which text spans of a page show a text fragment, matched by the folded
//! match keys of the fragment and of the spans' texts.
//!
//! A fragment is found in the first span whose key holds the fragment's key;
//! failing that, in the first run of consecutive non-blank spans whose keys,
//! joined by spaces, hold it. A run is given up once the joined keys are more
//! than 128 bytes longer than the fragment's key.
use vstd::prelude::*;
use crate::content::{char_vec_views, string_views};
use crate::fragments::{normalized_key, normalized_key_chars};
use crate::model::TextSearchHit;
use crate::stream::{contains_chars, contains_run};
use crate::text::{char_utf8_len, chars_eq, chars_of, lemma_seq_utf8_len_concat, seq_utf8_len};

verus! {

/// How far joined span keys may outgrow the fragment's key, in bytes.
pub const SPAN_JOIN_SLACK_BYTES: usize = 128;

/// The match keys of span texts.
pub open spec fn span_keys(texts: Seq<Seq<char>>) -> Seq<Seq<char>> {
    Seq::new(texts.len(), |i: int| normalized_key(texts[i]))
}

/// The first span from `i` on whose non-empty key holds `fk`.
pub open spec fn first_containing(keys: Seq<Seq<char>>, fk: Seq<char>, i: int) -> Option<int>
    decreases keys.len() - i,
{
    if i < 0 || i >= keys.len() {
        None
    } else if keys[i].len() > 0 && contains_run(keys[i], fk) {
        Some(i)
    } else {
        first_containing(keys, fk, i + 1)
    }
}

/// The byte length that joined keys may reach: the fragment key's length
/// plus the slack, saturating at the largest `usize`.
pub open spec fn join_limit(fk: Seq<char>) -> nat {
    if seq_utf8_len(fk) + SPAN_JOIN_SLACK_BYTES > usize::MAX {
        usize::MAX as nat
    } else {
        (seq_utf8_len(fk) + SPAN_JOIN_SLACK_BYTES) as nat
    }
}

/// The joined keys with one key more: a space between keys.
pub open spec fn join_key(combined: Seq<char>, key: Seq<char>) -> Seq<char> {
    if combined.len() > 0 {
        combined.push(' ') + key
    } else {
        key
    }
}

/// Joins the non-blank keys from `idx` on to `combined` (whose spans are
/// `indices`): the spans joined when the joined keys first hold `fk`, or
/// nothing when they outgrow the limit or the keys run out.
pub open spec fn join_scan(
    keys: Seq<Seq<char>>,
    fk: Seq<char>,
    idx: int,
    combined: Seq<char>,
    indices: Seq<usize>,
) -> Option<Seq<usize>>
    decreases keys.len() - idx,
{
    if idx < 0 || idx >= keys.len() {
        None
    } else if keys[idx].len() == 0 {
        join_scan(keys, fk, idx + 1, combined, indices)
    } else {
        let c2 = join_key(combined, keys[idx]);
        let i2 = indices.push(idx as usize);
        if contains_run(c2, fk) {
            Some(i2)
        } else if seq_utf8_len(c2) > join_limit(fk) {
            None
        } else {
            join_scan(keys, fk, idx + 1, c2, i2)
        }
    }
}

/// The spans of the first run, starting at `start` or later, whose joined
/// keys hold `fk`; none when there is no such run.
pub open spec fn first_join(keys: Seq<Seq<char>>, fk: Seq<char>, start: int) -> Seq<usize>
    decreases keys.len() - start,
{
    if start < 0 || start >= keys.len() {
        seq![]
    } else {
        match join_scan(keys, fk, start, seq![], seq![]) {
            Some(v) => v,
            None => first_join(keys, fk, start + 1),
        }
    }
}

/// The spans that show `fragment`: none for a fragment with an empty key,
/// else the first span holding it, else the first run of spans holding it.
pub open spec fn fragment_span_indices(texts: Seq<Seq<char>>, fragment: Seq<char>) -> Seq<usize> {
    let fk = normalized_key(fragment);
    let keys = span_keys(texts);
    if fk.len() == 0 {
        seq![]
    } else {
        match first_containing(keys, fk, 0) {
            Some(i) => seq![i as usize],
            None => first_join(keys, fk, 0),
        }
    }
}

/// `out` with each index of `add` that it does not hold yet, in order.
pub open spec fn push_new_indices(out: Seq<usize>, add: Seq<usize>) -> Seq<usize>
    decreases add.len(),
{
    if add.len() == 0 {
        out
    } else {
        push_new_indices(
            if out.contains(add[0]) {
                out
            } else {
                out.push(add[0])
            },
            add.drop_first(),
        )
    }
}

/// The spans that show any of `fragments`, each once, in the order they are
/// first found.
pub open spec fn fragments_span_indices(texts: Seq<Seq<char>>, fragments: Seq<Seq<char>>) -> Seq<
    usize,
>
    decreases fragments.len(),
{
    if fragments.len() == 0 {
        seq![]
    } else {
        push_new_indices(
            fragments_span_indices(texts, fragments.drop_last()),
            fragment_span_indices(texts, fragments.last()),
        )
    }
}

/// A joined run holds only indices from its start up to where it stopped,
/// increasing.
proof fn lemma_join_scan_indices(
    keys: Seq<Seq<char>>,
    fk: Seq<char>,
    idx: int,
    combined: Seq<char>,
    indices: Seq<usize>,
)
    requires
        0 <= idx,
        keys.len() <= usize::MAX,
        forall|k: int| 0 <= k < indices.len() ==> indices[k] < idx,
        forall|a: int, b: int| 0 <= a < b < indices.len() ==> indices[a] < indices[b],
    ensures
        join_scan(keys, fk, idx, combined, indices) matches Some(v) ==> (forall|k: int|
            0 <= k < v.len() ==> v[k] < keys.len()) && (forall|a: int, b: int|
            0 <= a < b < v.len() ==> v[a] < v[b]),
    decreases keys.len() - idx,
{
    if idx < keys.len() {
        if keys[idx].len() == 0 {
            lemma_join_scan_indices(keys, fk, idx + 1, combined, indices);
        } else {
            let c2 = join_key(combined, keys[idx]);
            let i2 = indices.push(idx as usize);
            if !contains_run(c2, fk) && seq_utf8_len(c2) <= join_limit(fk) {
                lemma_join_scan_indices(keys, fk, idx + 1, c2, i2);
            }
        }
    }
}

/// Every index that a run gives names a span, and they increase.
pub proof fn lemma_first_join_indices(keys: Seq<Seq<char>>, fk: Seq<char>, start: int)
    requires
        0 <= start,
        keys.len() <= usize::MAX,
    ensures
        forall|k: int|
            0 <= k < first_join(keys, fk, start).len() ==> first_join(keys, fk, start)[k]
                < keys.len(),
        forall|a: int, b: int|
            0 <= a < b < first_join(keys, fk, start).len() ==> first_join(keys, fk, start)[a]
                < first_join(keys, fk, start)[b],
    decreases keys.len() - start,
{
    if start < keys.len() {
        lemma_join_scan_indices(keys, fk, start, seq![], seq![]);
        lemma_first_join_indices(keys, fk, start + 1);
        let r = join_scan(keys, fk, start, seq![], seq![]);
        if let Some(v) = r {
            assert(first_join(keys, fk, start) == v);
        } else {
            assert(first_join(keys, fk, start) == first_join(keys, fk, start + 1));
        }
    }
}

/// The first span holding a key is a span.
proof fn lemma_first_containing_bound(keys: Seq<Seq<char>>, fk: Seq<char>, i: int)
    ensures
        first_containing(keys, fk, i) matches Some(j) ==> i <= j < keys.len(),
    decreases keys.len() - i,
{
    if 0 <= i < keys.len() && !(keys[i].len() > 0 && contains_run(keys[i], fk)) {
        lemma_first_containing_bound(keys, fk, i + 1);
    }
}

/// The spans that show a fragment name spans of the page, in increasing
/// order.
pub proof fn lemma_fragment_span_indices_in_page(texts: Seq<Seq<char>>, fragment: Seq<char>)
    requires
        texts.len() <= usize::MAX,
    ensures
        forall|k: int|
            0 <= k < fragment_span_indices(texts, fragment).len() ==> fragment_span_indices(
                texts,
                fragment,
            )[k] < texts.len(),
        forall|a: int, b: int|
            0 <= a < b < fragment_span_indices(texts, fragment).len() ==> fragment_span_indices(
                texts,
                fragment,
            )[a] < fragment_span_indices(texts, fragment)[b],
{
    let fk = normalized_key(fragment);
    let keys = span_keys(texts);
    lemma_first_containing_bound(keys, fk, 0);
    lemma_first_join_indices(keys, fk, 0);
}

/// The byte length of the UTF-8 encoding of `v`.
fn utf8_byte_len(v: &[char]) -> (n: u128)
    ensures
        n == seq_utf8_len(v@),
{
    let mut n: u128 = 0;
    let mut i: usize = 0;
    while i < v.len()
        invariant
            0 <= i <= v@.len(),
            n == seq_utf8_len(v@.take(i as int)),
            n <= 4 * i,
        decreases v@.len() - i,
    {
        assert(v@.take(i + 1).drop_last() =~= v@.take(i as int));
        n = n + char_utf8_len(v[i]) as u128;
        i += 1;
    }
    assert(v@.take(i as int) =~= v@);
    n
}

/// Joins keys from `start` on as `join_scan` describes.
fn join_scan_exec(keys: &Vec<Vec<char>>, fk: &Vec<char>, start: usize, limit: u128) -> (r: Option<
    Vec<usize>,
>)
    requires
        limit == join_limit(fk@),
    ensures
        match r {
            Some(v) => join_scan(char_vec_views(keys@), fk@, start as int, seq![], seq![]) == Some(
                v@,
            ),
            None => join_scan(char_vec_views(keys@), fk@, start as int, seq![], seq![]) is None,
        },
{
    let ghost kv = char_vec_views(keys@);
    let mut combined: Vec<char> = Vec::new();
    let mut clen: u128 = 0;
    let mut indices: Vec<usize> = Vec::new();
    let mut idx: usize = start;
    while idx < keys.len()
        invariant
            kv == char_vec_views(keys@),
            limit == join_limit(fk@),
            limit <= usize::MAX,
            clen == seq_utf8_len(combined@),
            clen <= limit,
            start <= idx,
            idx <= keys@.len() || idx == start,
            join_scan(kv, fk@, idx as int, combined@, indices@) == join_scan(
                kv,
                fk@,
                start as int,
                seq![],
                seq![],
            ),
        decreases keys@.len() - idx,
    {
        let key = &keys[idx];
        assert(kv[idx as int] == key@);
        if key.len() == 0 {
            idx += 1;
            continue;
        }
        let ghost c2 = join_key(combined@, key@);
        let ghost old_c = combined@;
        let kl = key.len();
        let klen = utf8_byte_len(key.as_slice());
        proof {
            crate::text::lemma_seq_utf8_len_bounds(key@);
        }
        let mut added: u128 = klen;
        if combined.len() > 0 {
            combined.push(' ');
            added = added + 1;
        }
        let ghost before = combined@;
        proof {
            if old_c.len() > 0 {
                crate::text::lemma_seq_utf8_len_push(old_c, ' ');
            }
        }
        let mut j: usize = 0;
        while j < key.len()
            invariant
                0 <= j <= key@.len(),
                combined@ == before + key@.take(j as int),
            decreases key@.len() - j,
        {
            combined.push(key[j]);
            assert((before + key@.take(j as int)).push(key@[j as int]) =~= before + key@.take(
                j + 1,
            ));
            j += 1;
        }
        assert(key@.take(j as int) =~= key@);
        assert(combined@ =~= c2);
        proof {
            lemma_seq_utf8_len_concat(before, key@);
        }
        indices.push(idx);
        if contains_chars(combined.as_slice(), fk.as_slice()) {
            return Some(indices);
        }
        let new_len = clen + added;
        if new_len > limit {
            return None;
        }
        clen = new_len;
        idx += 1;
    }
    None
}

/// The spans that show `fragment`, found by match keys as the module text
/// says; `span_texts` are the texts of the page's spans in order.
pub fn text_span_indices_for_fragment(span_texts: &[String], fragment: &str) -> (v: Vec<usize>)
    ensures
        v@ == fragment_span_indices(string_views(span_texts@), fragment@),
{
    let ghost texts = string_views(span_texts@);
    let fchars = chars_of(fragment);
    let fk = normalized_key_chars(fchars.as_slice());
    if fk.len() == 0 {
        return Vec::new();
    }
    let mut keys: Vec<Vec<char>> = Vec::new();
    let mut k: usize = 0;
    while k < span_texts.len()
        invariant
            0 <= k <= span_texts@.len(),
            texts == string_views(span_texts@),
            keys@.len() == k,
            forall|m: int| 0 <= m < k ==> #[trigger] keys@[m]@ == normalized_key(texts[m]),
        decreases span_texts@.len() - k,
    {
        let t = chars_of(span_texts[k].as_str());
        keys.push(normalized_key_chars(t.as_slice()));
        k += 1;
    }
    let ghost kv = char_vec_views(keys@);
    assert(kv =~= span_keys(texts));
    assert(fk@ == normalized_key(fragment@));
    let mut i: usize = 0;
    while i < keys.len()
        invariant
            0 <= i <= keys@.len(),
            kv == char_vec_views(keys@),
            kv == span_keys(texts),
            fk@ == normalized_key(fragment@),
            fk@.len() > 0,
            texts == string_views(span_texts@),
            first_containing(kv, fk@, i as int) == first_containing(kv, fk@, 0),
        decreases keys@.len() - i,
    {
        assert(kv[i as int] == keys@[i as int]@);
        if keys[i].len() > 0 && contains_chars(keys[i].as_slice(), fk.as_slice()) {
            assert(first_containing(kv, fk@, i as int) == Some(i as int));
            assert(fk@ == normalized_key(fragment@));
            assert(fragment_span_indices(texts, fragment@) == seq![i]);
            let v = vec![i];
            assert(v@ =~= seq![i]);
            return v;
        }
        i += 1;
    }
    assert(first_containing(kv, fk@, i as int) is None);
    let fkb = utf8_byte_len(fk.as_slice());
    proof {
        crate::text::lemma_seq_utf8_len_bounds(fk@);
    }
    let limit: u128 = if fkb + 128 > usize::MAX as u128 {
        usize::MAX as u128
    } else {
        fkb + 128
    };
    let mut start: usize = 0;
    while start < keys.len()
        invariant
            0 <= start <= keys@.len(),
            kv == char_vec_views(keys@),
            kv == span_keys(texts),
            fk@ == normalized_key(fragment@),
            fk@.len() > 0,
            texts == string_views(span_texts@),
            first_containing(kv, fk@, 0) is None,
            limit == join_limit(fk@),
            first_join(kv, fk@, start as int) == first_join(kv, fk@, 0),
        decreases keys@.len() - start,
    {
        match join_scan_exec(&keys, &fk, start, limit) {
            Some(v) => {
                assert(first_join(kv, fk@, start as int) == v@);
                return v;
            },
            None => {},
        }
        start += 1;
    }
    Vec::new()
}

/// Adds each index of `add` that `out` does not hold yet.
fn push_new(out: &mut Vec<usize>, add: &Vec<usize>)
    ensures
        final(out)@ == push_new_indices(old(out)@, add@),
{
    let mut j: usize = 0;
    assert(add@.skip(0) =~= add@);
    while j < add.len()
        invariant
            0 <= j <= add@.len(),
            push_new_indices(out@, add@.skip(j as int)) == push_new_indices(old(out)@, add@),
        decreases add@.len() - j,
    {
        assert(add@.skip(j as int).drop_first() =~= add@.skip(j + 1));
        let x = add[j];
        let mut found = false;
        let mut m: usize = 0;
        while m < out.len()
            invariant
                0 <= m <= out@.len(),
                found == (exists|q: int| 0 <= q < m && out@[q] == x),
            decreases out@.len() - m,
        {
            if out[m] == x {
                found = true;
            }
            m += 1;
        }
        if !found {
            out.push(x);
        }
        j += 1;
    }
    assert(add@.skip(j as int) =~= seq![]);
}

/// The spans that show any of `fragments`, each once, in the order they are
/// first found.
pub fn text_fragment_span_indices(span_texts: &[String], fragments: &[String]) -> (v: Vec<usize>)
    ensures
        v@ == fragments_span_indices(string_views(span_texts@), string_views(fragments@)),
{
    let ghost texts = string_views(span_texts@);
    let mut out: Vec<usize> = Vec::new();
    let mut f: usize = 0;
    while f < fragments.len()
        invariant
            0 <= f <= fragments@.len(),
            texts == string_views(span_texts@),
            out@ == fragments_span_indices(texts, string_views(fragments@).take(f as int)),
        decreases fragments@.len() - f,
    {
        let found = text_span_indices_for_fragment(span_texts, fragments[f].as_str());
        push_new(&mut out, &found);
        let ghost fv = string_views(fragments@);
        assert(fv.take(f + 1).drop_last() =~= fv.take(f as int));
        assert(fv.take(f + 1).last() == fragments@[f as int]@);
        f += 1;
    }
    assert(string_views(fragments@).take(f as int) =~= string_views(fragments@));
    out
}

/// Whether two text hits are at the same place: the same page, span and
/// excerpt.
pub fn text_hits_same_position(left: &TextSearchHit, right: &TextSearchHit) -> (b: bool)
    ensures
        b == (left.page_index == right.page_index && left.span_index == right.span_index
            && left.excerpt@ == right.excerpt@),
{
    if left.page_index != right.page_index || left.span_index != right.span_index {
        return false;
    }
    let a = chars_of(left.excerpt.as_str());
    let b = chars_of(right.excerpt.as_str());
    chars_eq(a.as_slice(), b.as_slice())
}

} // verus!
