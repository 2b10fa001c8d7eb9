//! The list of recently opened files: which entries are safe to keep, how
//! a newly opened file joins the list, and how the list reads from and
//! writes to its file (one path per line).
use vstd::prelude::*;
use crate::content::string_views;
use crate::paths::{
    extension_facts, lemma_plain_name_path, name_extension, path_extension, plain_name,
    spells_names, ends_in_parent,
};
use crate::text::{chars_of, push_all, spec_is_whitespace, str_trim, string_from_chars, trimmed};

verus! {

/// Most files the list keeps.
pub const RECENT_PDF_MAX_ITEMS: usize = 10;

/// Whether a list entry is safe: not blank, on one line.
pub open spec fn entry_safe(p: Seq<char>) -> bool {
    trimmed(p).len() > 0 && !p.contains('\n') && !p.contains('\r')
}

/// Whether `c` is a line break character.
fn has_line_break(c: &Vec<char>) -> (b: bool)
    ensures
        b == (c@.contains('\n') || c@.contains('\r')),
{
    let mut i: usize = 0;
    while i < c.len()
        invariant
            0 <= i <= c@.len(),
            forall|k: int| 0 <= k < i ==> c@[k] != '\n' && c@[k] != '\r',
        decreases c@.len() - i,
    {
        if c[i] == '\n' || c[i] == '\r' {
            return true;
        }
        i += 1;
    }
    false
}

/// Whether a list entry is safe: not blank, and without line breaks.
pub fn is_recent_path_entry_safe(path: &str) -> (b: bool)
    ensures
        b == entry_safe(path@),
{
    let t = str_trim(path);
    let c = chars_of(path);
    t.len() > 0 && !has_line_break(&c)
}

/// A character with ASCII letters lowercased.
pub open spec fn ascii_lower(c: char) -> char {
    if 'A' <= c && c <= 'Z' {
        ((c as u32) + 32) as char
    } else {
        c
    }
}

/// Whether a file extension is `pdf`, ASCII case ignored.
pub open spec fn pdf_extension(ext: Option<Seq<char>>) -> bool {
    match ext {
        Some(e) => e.len() == 3 && ascii_lower(e[0]) == 'p' && ascii_lower(e[1]) == 'd'
            && ascii_lower(e[2]) == 'f',
        None => false,
    }
}

/// Lowercases an ASCII letter.
fn ascii_lower_exec(c: char) -> (l: char)
    ensures
        l == ascii_lower(c),
{
    if 'A' <= c && c <= 'Z' {
        let v = (c as u32) + 32;
        assert('a' as u32 <= v <= 'z' as u32);
        crate::text::char_from_u32(v).unwrap()
    } else {
        c
    }
}

/// Whether an extension is `pdf`, ASCII case ignored.
pub fn is_pdf_extension(ext: Option<&str>) -> (b: bool)
    ensures
        b == pdf_extension(crate::text::opt_str(ext)),
{
    match ext {
        Some(e) => {
            let c = chars_of(e);
            c.len() == 3 && ascii_lower_exec(c[0]) == 'p' && ascii_lower_exec(c[1]) == 'd'
                && ascii_lower_exec(c[2]) == 'f'
        },
        None => false,
    }
}

/// Whether a path names a PDF file by its extension. For a path of plain
/// names joined by `/`, that is the extension of the last name.
pub fn is_pdf_path(path: &str) -> (b: bool)
    ensures
        exists|ext: Option<Seq<char>>| extension_facts(path@, ext) && b == pdf_extension(ext),
        plain_name(path@) ==> b == pdf_extension(name_extension(path@)),
        forall|cs: Seq<Seq<char>>, rooted: bool|
            #[trigger] spells_names(path@, cs, rooted) ==> b == pdf_extension(
                name_extension(cs.last()),
            ),
        ends_in_parent(path@) ==> !b,
{
    let ext = path_extension(path);
    let ghost e = crate::text::opt_text(ext);
    let b = match ext {
        Some(e) => is_pdf_extension(Some(e.as_str())),
        None => is_pdf_extension(None),
    };
    proof {
        assert(b == pdf_extension(e));
        if plain_name(path@) {
            lemma_plain_name_path(path@);
            assert(e == name_extension(path@));
        }
    }
    b
}

/// The list entry for a path, given what the file system made of it: the
/// trimmed path must be safe; its canonical form (or, when there is none,
/// the trimmed path) is the entry if that is safe too.
pub open spec fn normalized_entry(path: Seq<char>, canonical: Option<Seq<char>>) -> Option<
    Seq<char>,
> {
    let t = trimmed(path);
    if !entry_safe(t) {
        None
    } else {
        let text = match canonical {
            Some(c) => c,
            None => t,
        };
        if entry_safe(text) {
            Some(text)
        } else {
            None
        }
    }
}

/// The list entry for a path, given the canonical form of the trimmed path
/// when the file system gave one.
pub fn normalize_recent_pdf_path(path: &str, canonical: Option<String>) -> (e: Option<String>)
    ensures
        crate::text::opt_text(e) == normalized_entry(path@, crate::text::opt_text(canonical)),
{
    let t = str_trim(path);
    let ts = string_from_chars(&t);
    if !is_recent_path_entry_safe(ts.as_str()) {
        return None;
    }
    let text = match canonical {
        Some(c) => c,
        None => ts,
    };
    if is_recent_path_entry_safe(text.as_str()) {
        Some(text)
    } else {
        None
    }
}

/// `s` without the entries equal to `p`.
pub open spec fn without(s: Seq<Seq<char>>, p: Seq<char>) -> Seq<Seq<char>>
    decreases s.len(),
{
    if s.len() == 0 {
        seq![]
    } else if s.last() == p {
        without(s.drop_last(), p)
    } else {
        without(s.drop_last(), p).push(s.last())
    }
}

/// The list after `p` is opened: `p` first, then the other entries in
/// order, at most ten in all.
pub open spec fn recorded(list: Seq<Seq<char>>, p: Seq<char>) -> Seq<Seq<char>> {
    let l = seq![p] + without(list, p);
    if l.len() > RECENT_PDF_MAX_ITEMS {
        l.take(RECENT_PDF_MAX_ITEMS as int)
    } else {
        l
    }
}

/// Puts an entry first in the list (once), keeping at most ten; gives
/// whether the list changed.
pub fn record_normalized_recent_path(paths: &mut Vec<String>, path: String) -> (changed: bool)
    ensures
        string_views(final(paths)@) == recorded(string_views(old(paths)@), path@),
        changed == (string_views(final(paths)@) != string_views(old(paths)@)),
{
    let ghost before = string_views(paths@);
    let mut kept: Vec<String> = Vec::new();
    kept.push(path.clone());
    let mut i: usize = 0;
    assert(string_views(kept@) =~= seq![path@] + without(before.take(0), path@));
    while i < paths.len()
        invariant
            0 <= i <= paths@.len(),
            before == string_views(paths@),
            string_views(kept@) == seq![path@] + without(before.take(i as int), path@),
        decreases paths@.len() - i,
    {
        assert(before.take(i + 1).drop_last() =~= before.take(i as int));
        assert(before.take(i + 1).last() == paths@[i as int]@);
        if !crate::text::str_eq(paths[i].as_str(), path.as_str()) {
            let ghost k = string_views(kept@);
            kept.push(paths[i].clone());
            assert(string_views(kept@) =~= k.push(paths@[i as int]@));
        }
        i += 1;
    }
    assert(before.take(i as int) =~= before);
    if kept.len() > RECENT_PDF_MAX_ITEMS {
        kept.truncate(RECENT_PDF_MAX_ITEMS);
        assert(string_views(kept@) =~= (seq![path@] + without(before, path@)).take(
            RECENT_PDF_MAX_ITEMS as int,
        ));
    }
    let changed = !same_lists(&kept, paths);
    *paths = kept;
    changed
}

/// Whether two lists hold the same texts in the same order.
fn same_lists(a: &Vec<String>, b: &Vec<String>) -> (r: bool)
    ensures
        r == (string_views(a@) == string_views(b@)),
{
    if a.len() != b.len() {
        assert(string_views(a@).len() != string_views(b@).len());
        return false;
    }
    let mut i: usize = 0;
    while i < a.len()
        invariant
            a@.len() == b@.len(),
            0 <= i <= a@.len(),
            forall|k: int| 0 <= k < i ==> a@[k]@ == b@[k]@,
        decreases a@.len() - i,
    {
        if !crate::text::str_eq(a[i].as_str(), b[i].as_str()) {
            assert(string_views(a@)[i as int] != string_views(b@)[i as int]);
            return false;
        }
        i += 1;
    }
    assert(string_views(a@) =~= string_views(b@));
    true
}

/// Records that `path` was opened, given the canonical form of the trimmed
/// path when the file system gave one: its entry goes first in the list;
/// gives whether the list changed (never for an unsafe path).
pub fn record_recent_pdf_path(paths: &mut Vec<String>, path: &str, canonical: Option<String>) -> (changed:
    bool)
    ensures
        match normalized_entry(path@, crate::text::opt_text(canonical)) {
            Some(e) => string_views(final(paths)@) == recorded(string_views(old(paths)@), e),
            None => final(paths)@ == old(paths)@,
        },
        changed == (string_views(final(paths)@) != string_views(old(paths)@)),
{
    match normalize_recent_pdf_path(path, canonical) {
        Some(entry) => record_normalized_recent_path(paths, entry),
        None => false,
    }
}

// ---------------------------------------------------------------------------
// The list's file
// ---------------------------------------------------------------------------
/// The lines of a text: the pieces between line feeds (the last one too,
/// even when empty).
pub open spec fn pieces(t: Seq<char>) -> Seq<Seq<char>>
    decreases t.len(),
{
    if t.len() == 0 {
        seq![seq![]]
    } else {
        let p = pieces(t.drop_last());
        if t.last() == '\n' {
            p.push(seq![])
        } else {
            p.update(p.len() - 1, p.last().push(t.last()))
        }
    }
}

pub proof fn lemma_pieces_nonempty(t: Seq<char>)
    ensures
        pieces(t).len() >= 1,
    decreases t.len(),
{
    if t.len() > 0 {
        lemma_pieces_nonempty(t.drop_last());
    }
}

/// The entries read from lines: each line trimmed, unsafe ones skipped,
/// repeats skipped, at most ten.
pub open spec fn read_entries(lines: Seq<Seq<char>>) -> Seq<Seq<char>>
    decreases lines.len(),
{
    if lines.len() == 0 {
        seq![]
    } else {
        let before = read_entries(lines.drop_last());
        let e = trimmed(lines.last());
        if before.len() >= RECENT_PDF_MAX_ITEMS || !entry_safe(e) || before.contains(e) {
            before
        } else {
            before.push(e)
        }
    }
}

/// The entries of the list's file.
pub open spec fn parse_recent(contents: Seq<char>) -> Seq<Seq<char>> {
    read_entries(pieces(contents))
}

/// Reads the list from its file's text.
pub fn parse_recent_pdf_paths(contents: &str) -> (paths: Vec<String>)
    ensures
        string_views(paths@) == parse_recent(contents@),
{
    let c = chars_of(contents);
    let mut paths: Vec<String> = Vec::new();
    let mut line: Vec<char> = Vec::new();
    let mut i: usize = 0;
    let ghost done: Seq<Seq<char>> = seq![];
    assert(c@.take(0) =~= seq![]);
    assert(pieces(c@.take(0)) == seq![Seq::<char>::empty()]);
    assert(string_views(paths@) =~= seq![]);
    while i < c.len()
        invariant
            0 <= i <= c@.len(),
            pieces(c@.take(i as int)) == done.push(line@),
            string_views(paths@) == read_entries(done),
        decreases c@.len() - i,
    {
        assert(c@.take(i + 1).drop_last() =~= c@.take(i as int));
        assert(c@.take(i + 1).last() == c@[i as int]);
        if c[i] == '\n' {
            take_entry(&mut paths, &line);
            proof {
                assert(done.push(line@).drop_last() =~= done);
                done = done.push(line@);
            }
            line = Vec::new();
            assert(pieces(c@.take(i + 1)) =~= done.push(line@));
        } else {
            let ghost prev = line@;
            line.push(c[i]);
            assert(pieces(c@.take(i + 1)) =~= done.push(line@));
        }
        i += 1;
    }
    assert(c@.take(i as int) =~= c@);
    take_entry(&mut paths, &line);
    assert(done.push(line@).drop_last() =~= done);
    paths
}

/// Reads one more line into the list.
fn take_entry(paths: &mut Vec<String>, line: &Vec<char>)
    ensures
        string_views(final(paths)@) == ({
            let before = string_views(old(paths)@);
            let e = trimmed(line@);
            if before.len() >= RECENT_PDF_MAX_ITEMS || !entry_safe(e) || before.contains(e) {
                before
            } else {
                before.push(e)
            }
        }),
{
    if paths.len() >= RECENT_PDF_MAX_ITEMS {
        return;
    }
    let e = crate::text::trim_chars(line.as_slice());
    let es = string_from_chars(&e);
    if !is_recent_path_entry_safe(es.as_str()) {
        return;
    }
    let mut i: usize = 0;
    while i < paths.len()
        invariant
            0 <= i <= paths@.len(),
            es@ == trimmed(line@),
            forall|k: int| 0 <= k < i ==> paths@[k]@ != es@,
        decreases paths@.len() - i,
    {
        if crate::text::str_eq(paths[i].as_str(), es.as_str()) {
            assert(string_views(paths@)[i as int] == es@);
            return;
        }
        i += 1;
    }
    let ghost before = string_views(paths@);
    assert(!before.contains(es@)) by {
        assert forall|k: int| 0 <= k < before.len() implies before[k] != es@ by {
            assert(before[k] == paths@[k]@);
        }
    }
    paths.push(es);
    assert(string_views(paths@) =~= before.push(trimmed(line@)));
}

/// The list's file text for `paths`: each safe entry (at most ten) on a
/// line of its own.
pub open spec fn recent_file_text(paths: Seq<Seq<char>>) -> Seq<char> {
    lines_text(safe_prefix(paths))
}

/// The safe entries of `paths`, at most ten, in order.
pub open spec fn safe_prefix(paths: Seq<Seq<char>>) -> Seq<Seq<char>>
    decreases paths.len(),
{
    if paths.len() == 0 {
        seq![]
    } else {
        let before = safe_prefix(paths.drop_last());
        if entry_safe(paths.last()) && before.len() < RECENT_PDF_MAX_ITEMS {
            before.push(paths.last())
        } else {
            before
        }
    }
}

/// Entries each followed by a line feed.
pub open spec fn lines_text(entries: Seq<Seq<char>>) -> Seq<char>
    decreases entries.len(),
{
    if entries.len() == 0 {
        seq![]
    } else {
        lines_text(entries.drop_last()) + entries.last() + seq!['\n']
    }
}

/// The list's file text.
pub fn recent_pdf_paths_text(paths: &[String]) -> (out: String)
    ensures
        out@ == recent_file_text(string_views(paths@)),
{
    let ghost pv = string_views(paths@);
    let mut out: Vec<char> = Vec::new();
    let mut count: usize = 0;
    let mut i: usize = 0;
    assert(pv.take(0) =~= seq![]);
    while i < paths.len()
        invariant
            0 <= i <= paths@.len(),
            pv == string_views(paths@),
            count == safe_prefix(pv.take(i as int)).len(),
            count <= RECENT_PDF_MAX_ITEMS,
            out@ == lines_text(safe_prefix(pv.take(i as int))),
        decreases paths@.len() - i,
    {
        assert(pv.take(i + 1).drop_last() =~= pv.take(i as int));
        assert(pv.take(i + 1).last() == paths@[i as int]@);
        let ghost prev = safe_prefix(pv.take(i as int));
        if is_recent_path_entry_safe(paths[i].as_str()) && count < RECENT_PDF_MAX_ITEMS {
            let p = chars_of(paths[i].as_str());
            push_all(&mut out, &p);
            out.push('\n');
            count += 1;
            assert(prev.push(paths@[i as int]@).drop_last() =~= prev);
            assert(out@ =~= lines_text(prev) + paths@[i as int]@ + seq!['\n']);
        }
        i += 1;
    }
    assert(pv.take(i as int) =~= pv);
    string_from_chars(&out)
}

/// Whether a list can be written and read back as it is: at most ten
/// entries, each safe, without surrounding whitespace, and none twice.
pub open spec fn storable(paths: Seq<Seq<char>>) -> bool {
    &&& paths.len() <= RECENT_PDF_MAX_ITEMS
    &&& forall|i: int| 0 <= i < paths.len() ==> entry_safe(#[trigger] paths[i]) && trimmed(paths[i])
        == paths[i]
    &&& forall|i: int, j: int| 0 <= i < j < paths.len() ==> paths[i] != paths[j]
}

pub proof fn lemma_safe_prefix_all(paths: Seq<Seq<char>>)
    requires
        storable(paths),
    ensures
        safe_prefix(paths) == paths,
    decreases paths.len(),
{
    if paths.len() > 0 {
        let init = paths.drop_last();
        assert(storable(init)) by {
            assert forall|i: int| 0 <= i < init.len() implies entry_safe(#[trigger] init[i]) && trimmed(init[i]) == init[i] by {
                assert(init[i] == paths[i]);
            }
            assert forall|i: int, j: int| 0 <= i < j < init.len() implies init[i] != init[j] by {
                assert(init[i] == paths[i] && init[j] == paths[j]);
            }
        }
        lemma_safe_prefix_all(init);
        assert(entry_safe(paths[paths.len() - 1]));
        assert(init.push(paths.last()) =~= paths);
    }
}

pub proof fn lemma_pieces_append(t: Seq<char>, u: Seq<char>)
    requires
        !u.contains('\n'),
    ensures
        pieces(t + u) == pieces(t).update(pieces(t).len() - 1, pieces(t).last() + u),
    decreases u.len(),
{
    lemma_pieces_nonempty(t);
    if u.len() == 0 {
        assert(t + u =~= t);
        assert(pieces(t).last() + u =~= pieces(t).last());
        assert(pieces(t).update(pieces(t).len() - 1, pieces(t).last()) =~= pieces(t));
    } else {
        let v = u.drop_last();
        assert(!v.contains('\n')) by {
            if v.contains('\n') {
                let k = choose|k: int| 0 <= k < v.len() && v[k] == '\n';
                assert(u[k] == '\n');
            }
        }
        lemma_pieces_append(t, v);
        assert((t + u).drop_last() =~= t + v);
        assert((t + u).last() == u.last());
        assert(u.last() != '\n') by {
            assert(u[u.len() - 1] == u.last());
        }
        lemma_pieces_nonempty(t + v);
        let p = pieces(t);
        let q = pieces(t + v);
        assert(q == p.update(p.len() - 1, p.last() + v));
        assert(q.len() == p.len());
        assert(q.last() == p.last() + v);
        assert(pieces(t + u) == q.update(q.len() - 1, q.last().push(u.last())));
        assert((p.last() + v).push(u.last()) =~= p.last() + u);
        assert(pieces(t + u) =~= p.update(p.len() - 1, p.last() + u));
    }
}

pub proof fn lemma_pieces_of_lines(es: Seq<Seq<char>>)
    requires
        forall|i: int| 0 <= i < es.len() ==> !(#[trigger] es[i]).contains('\n'),
    ensures
        pieces(lines_text(es)) == es.push(seq![]),
    decreases es.len(),
{
    if es.len() == 0 {
        assert(lines_text(es) =~= seq![]);
        assert(es.push(seq![]) =~= seq![Seq::<char>::empty()]);
    } else {
        let init = es.drop_last();
        assert forall|i: int| 0 <= i < init.len() implies !(#[trigger] init[i]).contains('\n') by {
            assert(init[i] == es[i]);
        }
        lemma_pieces_of_lines(init);
        let t = lines_text(init);
        assert(!es.last().contains('\n')) by {
            assert(es[es.len() - 1] == es.last());
        }
        lemma_pieces_append(t, es.last());
        let whole = t + es.last() + seq!['\n'];
        assert(lines_text(es) == whole);
        assert(whole.drop_last() =~= t + es.last());
        assert(whole.last() == '\n');
        assert(init.push(seq![]).update(init.len() as int, Seq::<char>::empty() + es.last()) =~= es);
        assert(pieces(whole) =~= es.push(seq![]));
    }
}

pub proof fn lemma_read_entries_storable(es: Seq<Seq<char>>)
    requires
        storable(es),
    ensures
        read_entries(es) == es,
    decreases es.len(),
{
    if es.len() > 0 {
        let init = es.drop_last();
        assert(storable(init)) by {
            assert forall|i: int| 0 <= i < init.len() implies entry_safe(#[trigger] init[i]) && trimmed(init[i]) == init[i] by {
                assert(init[i] == es[i]);
            }
            assert forall|i: int, j: int| 0 <= i < j < init.len() implies init[i] != init[j] by {
                assert(init[i] == es[i] && init[j] == es[j]);
            }
        }
        lemma_read_entries_storable(init);
        let e = es.last();
        assert(trimmed(e) == e && entry_safe(e)) by {
            assert(es[es.len() - 1] == e);
        }
        assert(!init.contains(e)) by {
            if init.contains(e) {
                let k = choose|k: int| 0 <= k < init.len() && init[k] == e;
                assert(es[k] == e && es[es.len() - 1] == e);
            }
        }
        assert(init.push(e) =~= es);
    }
}

/// Writing a list to its file and reading the file back gives the same
/// list, for a list of at most ten distinct, safe, trimmed entries.
pub proof fn lemma_recent_file_round_trip(paths: Seq<Seq<char>>)
    requires
        storable(paths),
    ensures
        parse_recent(recent_file_text(paths)) == paths,
{
    lemma_safe_prefix_all(paths);
    assert forall|i: int| 0 <= i < paths.len() implies !(#[trigger] paths[i]).contains('\n') by {
        assert(entry_safe(paths[i]));
    }
    lemma_pieces_of_lines(paths);
    lemma_read_entries_storable(paths);
    assert(paths.push(seq![]).drop_last() =~= paths);
    assert(trimmed(Seq::<char>::empty()) =~= seq![]) by {
        assert(crate::text::trim_front(Seq::<char>::empty()) =~= seq![]);
    }
}

/// After a file is recorded, its entry comes first, occurs once, and the
/// list holds at most ten entries.
pub proof fn lemma_recorded_first_once(list: Seq<Seq<char>>, p: Seq<char>)
    ensures
        recorded(list, p).len() >= 1,
        recorded(list, p)[0] == p,
        recorded(list, p).len() <= RECENT_PDF_MAX_ITEMS,
        forall|i: int| 1 <= i < recorded(list, p).len() ==> #[trigger] recorded(list, p)[i] != p,
{
    lemma_without_excludes(list, p);
    let l = seq![p] + without(list, p);
    assert forall|i: int| 1 <= i < recorded(list, p).len() implies #[trigger] recorded(list, p)[i] != p by {
        assert(recorded(list, p)[i] == l[i]);
        assert(l[i] == without(list, p)[i - 1]);
    }
}

/// Leaving out `p` keeps every other entry and nothing else.
pub proof fn lemma_without_contains(s: Seq<Seq<char>>, p: Seq<char>, x: Seq<char>)
    ensures
        without(s, p).contains(x) <==> s.contains(x) && x != p,
    decreases s.len(),
{
    if s.len() > 0 {
        lemma_without_contains(s.drop_last(), p, x);
        let r = without(s.drop_last(), p);
        if s.contains(x) && x != p {
            let i = choose|i: int| 0 <= i < s.len() && s[i] == x;
            if i < s.len() - 1 {
                assert(s.drop_last()[i] == x);
            }
            if s.last() != p {
                if i == s.len() - 1 {
                    assert(r.push(s.last())[r.len() as int] == x);
                } else {
                    let j = choose|j: int| 0 <= j < r.len() && r[j] == x;
                    assert(r.push(s.last())[j] == x);
                }
            }
        }
        if without(s, p).contains(x) {
            let j = choose|j: int| 0 <= j < without(s, p).len() && without(s, p)[j] == x;
            if s.last() != p && j == r.len() {
                assert(s[s.len() - 1] == x);
            } else {
                assert(r[j] == x);
                let i = choose|i: int| 0 <= i < s.drop_last().len() && s.drop_last()[i] == x;
                assert(s[i] == x);
            }
        }
    }
}

pub proof fn lemma_without_excludes(s: Seq<Seq<char>>, p: Seq<char>)
    ensures
        forall|i: int| 0 <= i < without(s, p).len() ==> #[trigger] without(s, p)[i] != p,
        without(s, p).len() <= s.len(),
    decreases s.len(),
{
    if s.len() > 0 {
        lemma_without_excludes(s.drop_last(), p);
    }
}

} // verus!
