//! The About dialog: its text, and the MuPDF version read from a version
//! header or a source directory's name.
use vstd::prelude::*;
use crate::paths::{
    file_name_facts, file_name_of, lemma_plain_name_path, path_ancestors, plain_name, plain_names,
    spells_names,
    slash_path,
};
use crate::text::{
    chars_of, first_run_from, find_chars, push_all, push_str, str_eq, string_from_chars,
    trim_chars, trimmed,
};

verus! {

/// The name of the viewer.
pub open spec fn app_title() -> Seq<char> {
    "Scalpel"@
}

/// The backend as the About dialog names it.
pub open spec fn backend_text(version: Seq<char>) -> Seq<char> {
    if version == "linked (version unavailable)"@ {
        "MuPDF (version unavailable)"@
    } else {
        "MuPDF "@ + version
    }
}

/// The backend as the About dialog names it, from the linked MuPDF version.
pub fn backend_label(mupdf_version: &str) -> (s: String)
    ensures
        s@ == backend_text(mupdf_version@),
{
    if str_eq(mupdf_version, "linked (version unavailable)") {
        String::from_str("MuPDF (version unavailable)")
    } else {
        let mut out: Vec<char> = Vec::new();
        push_str(&mut out, "MuPDF ");
        let v = chars_of(mupdf_version);
        push_all(&mut out, &v);
        string_from_chars(&out)
    }
}

/// The About text: one `label: value` line per fact.
pub open spec fn about_text(
    version: Seq<char>,
    commit: Seq<char>,
    release_date: Seq<char>,
    backend: Seq<char>,
    platform: Seq<char>,
    build: Seq<char>,
    render_limit: Seq<char>,
) -> Seq<char> {
    app_title() + " "@ + version + "\nCommit: "@ + commit + "\nRelease date: "@ + release_date
        + "\nBackend: "@ + backend + "\nOS: "@ + platform + "\nBuild: "@ + build
        + "\nRender limit: "@ + render_limit + "\nGitHub: https://github.com/tooluse-labs/xreflab"@
}

/// The About text, from the facts of this build and machine.
pub fn about_info_text(
    version: &str,
    commit: &str,
    release_date: &str,
    backend: &str,
    platform: &str,
    build: &str,
    render_limit: &str,
) -> (s: String)
    ensures
        s@ == about_text(
            version@,
            commit@,
            release_date@,
            backend@,
            platform@,
            build@,
            render_limit@,
        ),
{
    let mut out: Vec<char> = Vec::new();
    push_str(&mut out, "Scalpel");
    push_str(&mut out, " ");
    push_all(&mut out, &chars_of(version));
    push_str(&mut out, "\nCommit: ");
    push_all(&mut out, &chars_of(commit));
    push_str(&mut out, "\nRelease date: ");
    push_all(&mut out, &chars_of(release_date));
    push_str(&mut out, "\nBackend: ");
    push_all(&mut out, &chars_of(backend));
    push_str(&mut out, "\nOS: ");
    push_all(&mut out, &chars_of(platform));
    push_str(&mut out, "\nBuild: ");
    push_all(&mut out, &chars_of(build));
    push_str(&mut out, "\nRender limit: ");
    push_all(&mut out, &chars_of(render_limit));
    push_str(&mut out, "\nGitHub: https://github.com/tooluse-labs/xreflab");
    assert(out@ =~= about_text(
        version@,
        commit@,
        release_date@,
        backend@,
        platform@,
        build@,
        render_limit@,
    ));
    string_from_chars(&out)
}

/// Whether a text looks like a version number: digits and dots, with at
/// least one dot.
pub open spec fn looks_like_version(v: Seq<char>) -> bool {
    (forall|i: int| 0 <= i < v.len() ==> (('0' <= #[trigger] v[i] && v[i] <= '9') || v[i] == '.'))
        && v.contains('.')
}

/// The MuPDF version in a directory name such as `mupdf-1.24.2-source`: what
/// follows the first `mupdf-`, up to `-source`, trimmed, if it looks like a
/// version.
pub open spec fn component_version(c: Seq<char>) -> Option<Seq<char>> {
    match first_run_from(c, "mupdf-"@, 0) {
        None => None,
        Some(i) => {
            let rest = c.skip(i + 6);
            let v0 = match first_run_from(rest, "-source"@, 0) {
                Some(j) => rest.take(j),
                None => rest,
            };
            let v = trimmed(v0);
            if looks_like_version(v) {
                Some(v)
            } else {
                None
            }
        },
    }
}

/// Whether a text looks like a version number.
fn looks_like_version_exec(v: &Vec<char>) -> (b: bool)
    ensures
        b == looks_like_version(v@),
{
    let mut dot = false;
    let mut i: usize = 0;
    while i < v.len()
        invariant
            0 <= i <= v@.len(),
            forall|k: int| 0 <= k < i ==> (('0' <= #[trigger] v@[k] && v@[k] <= '9') || v@[k] == '.'),
            dot == (exists|k: int| 0 <= k < i && v@[k] == '.'),
        decreases v@.len() - i,
    {
        let c = v[i];
        if !(('0' <= c && c <= '9') || c == '.') {
            return false;
        }
        if c == '.' {
            dot = true;
        }
        i += 1;
    }
    dot
}

/// Copies `v[from..]`.
fn tail_from(v: &Vec<char>, from: usize) -> (t: Vec<char>)
    requires
        from <= v@.len(),
    ensures
        t@ == v@.skip(from as int),
{
    let t = crate::content::copy_range(v.as_slice(), from, v.len());
    assert(v@.subrange(from as int, v@.len() as int) =~= v@.skip(from as int));
    t
}

/// Copies `v[..to]`.
fn head_to(v: &Vec<char>, to: usize) -> (t: Vec<char>)
    requires
        to <= v@.len(),
    ensures
        t@ == v@.take(to as int),
{
    let t = crate::content::copy_range(v.as_slice(), 0, to);
    assert(v@.subrange(0, to as int) =~= v@.take(to as int));
    t
}

/// The MuPDF version in a directory name, if it names one.
pub fn extract_mupdf_version_from_component(component: &str) -> (v: Option<String>)
    ensures
        crate::text::opt_text(v) == component_version(component@),
{
    let c = chars_of(component);
    let marker = chars_of("mupdf-");
    proof {
        reveal_strlit("mupdf-");
        reveal_strlit("-source");
    }
    let i = match find_chars(c.as_slice(), marker.as_slice()) {
        Some(i) => i,
        None => return None,
    };
    let clen = c.len();
    assert(marker@.len() == 6);
    let rest = tail_from(&c, i + 6);
    let source = chars_of("-source");
    let v0 = match find_chars(rest.as_slice(), source.as_slice()) {
        Some(j) => head_to(&rest, j),
        None => rest,
    };
    let v = trim_chars(v0.as_slice());
    if looks_like_version_exec(&v) {
        Some(string_from_chars(&v))
    } else {
        None
    }
}

/// The text before the first `"` (all of it when there is none).
pub open spec fn before_quote(t: Seq<char>) -> Seq<char> {
    match first_run_from(t, seq!['\u{22}'], 0) {
        Some(j) => t.take(j),
        None => t,
    }
}

/// The version a header line defines: a trimmed line
/// `#define FZ_VERSION "x"` gives `x` (up to the closing quote) when it is
/// not blank.
pub open spec fn header_line_version(line: Seq<char>) -> Option<Seq<char>> {
    let t = trimmed(line);
    let prefix = "#define FZ_VERSION "@;
    if t.len() >= prefix.len() && t.take(prefix.len() as int) == prefix {
        let r = trimmed(t.skip(prefix.len() as int));
        if r.len() > 0 && r[0] == '\u{22}' {
            let v = before_quote(r.skip(1));
            if trimmed(v).len() > 0 {
                Some(v)
            } else {
                None
            }
        } else {
            None
        }
    } else {
        None
    }
}

/// The version of the first line that defines one.
pub open spec fn first_line_version(lines: Seq<Seq<char>>) -> Option<Seq<char>>
    decreases lines.len(),
{
    if lines.len() == 0 {
        None
    } else {
        match header_line_version(lines[0]) {
            Some(v) => Some(v),
            None => first_line_version(lines.drop_first()),
        }
    }
}

/// The version a header line defines, if any.
fn header_line_version_exec(line: &Vec<char>) -> (v: Option<Vec<char>>)
    ensures
        match header_line_version(line@) {
            Some(x) => v matches Some(y) && y@ == x,
            None => v is None,
        },
{
    let t = trim_chars(line.as_slice());
    let prefix = chars_of("#define FZ_VERSION ");
    proof {
        reveal_strlit("#define FZ_VERSION ");
    }
    if t.len() < prefix.len() {
        return None;
    }
    let head = head_to(&t, prefix.len());
    if !crate::text::chars_eq(head.as_slice(), prefix.as_slice()) {
        return None;
    }
    let after = tail_from(&t, prefix.len());
    let r = trim_chars(after.as_slice());
    if r.len() == 0 || r[0] != '\u{22}' {
        return None;
    }
    let inner = tail_from(&r, 1);
    let quote = chars_of("\"");
    proof {
        reveal_strlit("\"");
    }
    assert(quote@ =~= seq!['\u{22}']);
    let v = match find_chars(inner.as_slice(), quote.as_slice()) {
        Some(j) => head_to(&inner, j),
        None => inner,
    };
    let tv = trim_chars(v.as_slice());
    if tv.len() > 0 {
        Some(v)
    } else {
        None
    }
}

/// Where the line that starts at `i` ends: the next line feed, or the end.
pub open spec fn line_end(c: Seq<char>, i: int) -> int
    decreases c.len() - i,
{
    if i >= c.len() || i < 0 {
        c.len() as int
    } else if c[i] == '\n' {
        i
    } else {
        line_end(c, i + 1)
    }
}

pub proof fn lemma_line_end(c: Seq<char>, i: int)
    requires
        0 <= i <= c.len(),
    ensures
        i <= line_end(c, i) <= c.len(),
        line_end(c, i) < c.len() ==> c[line_end(c, i)] == '\n',
        forall|k: int| i <= k < line_end(c, i) ==> c[k] != '\n',
    decreases c.len() - i,
{
    if i < c.len() && c[i] != '\n' {
        lemma_line_end(c, i + 1);
    }
}

/// The lines of `c` from index `start` on: the pieces between line feeds,
/// the last one too (even when empty).
pub open spec fn lines_from(c: Seq<char>, start: int) -> Seq<Seq<char>>
    decreases c.len() + 1 - start,
{
    if start < 0 || start > c.len() {
        seq![]
    } else {
        let e = line_end(c, start);
        proof {
            lemma_line_end(c, start);
        }
        if e >= c.len() {
            seq![c.subrange(start, c.len() as int)]
        } else {
            seq![c.subrange(start, e)] + lines_from(c, e + 1)
        }
    }
}

/// The texts of a list of optional strings.
pub open spec fn opt_texts(v: Seq<Option<String>>) -> Seq<Option<Seq<char>>> {
    Seq::new(v.len(), |i: int| crate::text::opt_text(v[i]))
}

/// The version that the first directory name (nearest first) naming a
/// MuPDF source directory gives.
pub open spec fn ancestors_version(names: Seq<Option<Seq<char>>>) -> Option<Seq<char>>
    decreases names.len(),
{
    if names.len() == 0 {
        None
    } else {
        match names[0] {
            Some(n) => match component_version(n) {
                Some(v) => Some(v),
                None => ancestors_version(names.drop_first()),
            },
            None => ancestors_version(names.drop_first()),
        }
    }
}

/// A version found in directory names looks like a version.
pub proof fn lemma_ancestors_version_looks_like_version(names: Seq<Option<Seq<char>>>)
    ensures
        ancestors_version(names) matches Some(v) ==> looks_like_version(v),
    decreases names.len(),
{
    if names.len() > 0 {
        lemma_ancestors_version_looks_like_version(names.drop_first());
    }
}

/// The MuPDF version in the names of a path's ancestors (the path itself
/// first; `None` for an ancestor without a name).
pub fn mupdf_version_from_ancestor_names(names: &[Option<String>]) -> (v: Option<String>)
    ensures
        crate::text::opt_text(v) == ancestors_version(opt_texts(names@)),
{
    let ghost all = opt_texts(names@);
    let mut i: usize = 0;
    assert(all.skip(0) =~= all);
    while i < names.len()
        invariant
            0 <= i <= names@.len(),
            all == opt_texts(names@),
            ancestors_version(all.skip(i as int)) == ancestors_version(all),
        decreases names@.len() - i,
    {
        assert(all.skip(i as int).drop_first() =~= all.skip(i + 1));
        assert(all.skip(i as int)[0] == crate::text::opt_text(names@[i as int]));
        match &names[i] {
            Some(n) => match extract_mupdf_version_from_component(n.as_str()) {
                Some(v) => {
                    return Some(v);
                },
                None => {},
            },
            None => {},
        }
        i += 1;
    }
    assert(all.skip(i as int) =~= seq![]);
    None
}

/// Directory names as met walking up from the last of `cs` to the first.
pub open spec fn names_nearest_first(cs: Seq<Seq<char>>) -> Seq<Option<Seq<char>>> {
    Seq::new(cs.len(), |i: int| Some(cs[cs.len() - 1 - i]))
}

/// A nameless ancestor at the end gives no version.
proof fn lemma_ancestors_version_push_none(s: Seq<Option<Seq<char>>>)
    ensures
        ancestors_version(s.push(None)) == ancestors_version(s),
    decreases s.len(),
{
    if s.len() == 0 {
        assert(s.push(None).drop_first() =~= s);
    } else {
        assert(s.push(None)[0] == s[0]);
        assert(s.push(None).drop_first() =~= s.drop_first().push(None));
        lemma_ancestors_version_push_none(s.drop_first());
    }
}

/// The MuPDF version in the name of a directory that holds `path`, or of
/// `path` itself, such as `mupdf-1.24.2-source`: the first such name,
/// nearest first. For a path of plain names joined by `/` (as in
/// `/opt/mupdf-1.24.2-source/include`) that is the first of its names,
/// from the last, that gives a version.
pub fn infer_mupdf_version_from_path(path: &str) -> (v: Option<String>)
    ensures
        v matches Some(t) ==> looks_like_version(t@),
        forall|cs: Seq<Seq<char>>, rooted: bool|
            plain_names(cs) && #[trigger] slash_path(cs, rooted) == path@ ==> crate::text::opt_text(v)
                == ancestors_version(names_nearest_first(cs)),
        plain_name(path@) && component_version(path@) is Some ==> crate::text::opt_text(v)
            == component_version(path@),
{
    let ancestors = path_ancestors(path);
    let ghost av = Seq::new(ancestors@.len(), |i: int| ancestors@[i]@);
    let mut names: Vec<Option<String>> = Vec::new();
    let mut i: usize = 0;
    while i < ancestors.len()
        invariant
            0 <= i <= ancestors@.len(),
            names@.len() == i,
            av == Seq::new(ancestors@.len(), |i: int| ancestors@[i]@),
            forall|j: int|
                0 <= j < i ==> file_name_facts(#[trigger] av[j], crate::text::opt_text(names@[j])),
        decreases ancestors@.len() - i,
    {
        let name = file_name_of(ancestors[i].as_str());
        assert(av[i as int] == ancestors@[i as int]@);
        names.push(name);
        i += 1;
    }
    let v = mupdf_version_from_ancestor_names(names.as_slice());
    proof {
        lemma_ancestors_version_looks_like_version(opt_texts(names@));
        assert forall|cs: Seq<Seq<char>>, rooted: bool|
            plain_names(cs) && #[trigger] slash_path(cs, rooted) == path@ implies crate::text::opt_text(
                v,
            ) == ancestors_version(names_nearest_first(cs)) by {
            let n = cs.len() as int;
            assert(av.len() == n + 1);
            assert forall|k: int| 0 <= k < n implies #[trigger] opt_texts(names@)[k] == Some(
                cs[n - 1 - k],
            ) by {
                let sub = cs.take(n - k);
                assert(av[k] == slash_path(sub, rooted));
                assert forall|m: int| 0 <= m < sub.len() implies plain_name(#[trigger] sub[m]) by {
                    assert(sub[m] == cs[m]);
                }
                assert(plain_names(sub));
                assert(spells_names(av[k], sub, rooted));
                assert(file_name_facts(av[k], crate::text::opt_text(names@[k])));
                assert(sub.last() == cs[n - 1 - k]);
            }
            assert(file_name_facts(av[n], crate::text::opt_text(names@[n])));
            assert(opt_texts(names@)[n] is None);
            assert(opt_texts(names@) =~= names_nearest_first(cs).push(None));
            lemma_ancestors_version_push_none(names_nearest_first(cs));
        }
        if plain_name(path@) && component_version(path@) is Some {
            lemma_plain_name_path(path@);
            let cs = seq![path@];
            assert(slash_path(cs, false) == path@);
            let nf = names_nearest_first(cs);
            assert(nf[0] == Some(path@));
            assert(nf.len() == 1);
        }
    }
    v
}

/// The MuPDF version a `version.h` header defines, if any.
pub fn parse_mupdf_version_header(header: &str) -> (v: Option<String>)
    ensures
        crate::text::opt_text(v) == first_line_version(lines_from(header@, 0)),
{
    let c = chars_of(header);
    let len = c.len();
    let mut start: usize = 0;
    loop
        invariant
            len == c@.len(),
            c@ == header@,
            0 <= start <= len,
            first_line_version(lines_from(c@, 0)) == first_line_version(lines_from(c@, start as int)),
        decreases len + 1 - start,
    {
        proof {
            lemma_line_end(c@, start as int);
        }
        let mut end = start;
        while end < len && c[end] != '\n'
            invariant
                len == c@.len(),
                start <= end <= len,
                line_end(c@, end as int) == line_end(c@, start as int),
            decreases len - end,
        {
            end += 1;
        }
        let line = crate::content::copy_range(c.as_slice(), start, end);
        let ghost ls = lines_from(c@, start as int);
        assert(ls[0] == line@);
        match header_line_version_exec(&line) {
            Some(v) => {
                return Some(string_from_chars(&v));
            },
            None => {},
        }
        if end >= len {
            assert(ls.drop_first() =~= seq![]);
            assert(first_line_version(ls.drop_first()) is None);
            return None;
        }
        assert(ls.drop_first() =~= lines_from(c@, end + 1));
        start = end + 1;
    }
}

} // verus!
