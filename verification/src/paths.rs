//! What the viewer reads from a path: its file name, its extension and its
//! ancestors. These come from std's `Path`, whose rules depend on the
//! platform; for paths made of plain names joined by `/` every platform
//! reads them alike, and that is what the contracts state.
use vstd::prelude::*;
use crate::text::opt_text;

verus! {

/// Whether a text is a plain name: not empty, not `.` or `..`, and without
/// `/`, `\` or `:`, so that no platform reads a separator or a prefix in it.
pub open spec fn plain_name(p: Seq<char>) -> bool {
    p.len() > 0 && p != "."@ && p != ".."@ && !p.contains('/') && !p.contains('\u{5c}')
        && !p.contains(':')
}

/// Whether every one of at least one names is plain.
pub open spec fn plain_names(cs: Seq<Seq<char>>) -> bool {
    cs.len() >= 1 && forall|i: int| 0 <= i < cs.len() ==> plain_name(#[trigger] cs[i])
}

/// Names joined by `/`.
pub open spec fn join_names(cs: Seq<Seq<char>>) -> Seq<char>
    decreases cs.len(),
{
    if cs.len() == 0 {
        seq![]
    } else if cs.len() == 1 {
        cs[0]
    } else {
        join_names(cs.drop_last()) + seq!['/'] + cs.last()
    }
}

/// Names joined by `/`, after a `/` when the path is rooted.
pub open spec fn slash_path(cs: Seq<Seq<char>>, rooted: bool) -> Seq<char> {
    if rooted {
        seq!['/'] + join_names(cs)
    } else {
        join_names(cs)
    }
}

/// Whether `path` spells the plain names `cs` joined by `/` (after a `/`
/// when rooted), maybe followed by a `/` or by `/.`.
pub open spec fn spells_names(path: Seq<char>, cs: Seq<Seq<char>>, rooted: bool) -> bool {
    &&& plain_names(cs)
    &&& (path == slash_path(cs, rooted) || path == slash_path(cs, rooted) + seq!['/'] || path
        == slash_path(cs, rooted) + seq!['/', '.'])
}

/// Whether the last component of a path is `..`: the path is `..` or ends
/// in `/..`, and holds no `\`, so that no platform reads a verbatim prefix
/// in it.
pub open spec fn ends_in_parent(path: Seq<char>) -> bool {
    &&& !path.contains('\u{5c}')
    &&& (path == seq!['.', '.'] || (path.len() >= 3 && path.skip(path.len() - 3) == seq![
        '/',
        '.',
        '.',
    ]))
}

/// What `Path::file_name` gives for a path, as far as every platform agrees:
/// the last name of plain names joined by `/` (a trailing `/` or `/.` is
/// not a component), and nothing for the empty path, the root, or a path
/// whose last component is `..`.
pub open spec fn file_name_facts(path: Seq<char>, name: Option<Seq<char>>) -> bool {
    &&& forall|cs: Seq<Seq<char>>, rooted: bool|
        #[trigger] spells_names(path, cs, rooted) ==> name == Some(cs.last())
    &&& (path == Seq::<char>::empty() || path == seq!['/'] || ends_in_parent(path)) ==> name is None
}

/// The index of the last `.` in a name.
pub open spec fn last_dot(n: Seq<char>) -> Option<int>
    decreases n.len(),
{
    if n.len() == 0 {
        None
    } else if n.last() == '.' {
        Some(n.len() - 1)
    } else {
        last_dot(n.drop_last())
    }
}

/// The extension of a file name: what follows its last `.`, unless there
/// is none or the only one starts the name.
pub open spec fn name_extension(n: Seq<char>) -> Option<Seq<char>> {
    match last_dot(n) {
        Some(i) => if i == 0 {
            None
        } else {
            Some(n.skip(i + 1))
        },
        None => None,
    }
}

/// What `Path::extension` gives for a path, as far as every platform agrees:
/// the extension of the last of plain names joined by `/` (a trailing `/`
/// or `/.` is not a component), nothing for the empty path, the root, or a
/// path whose last component is `..`, and never a text with a dot.
pub open spec fn extension_facts(path: Seq<char>, ext: Option<Seq<char>>) -> bool {
    &&& forall|cs: Seq<Seq<char>>, rooted: bool|
        #[trigger] spells_names(path, cs, rooted) ==> ext == name_extension(cs.last())
    &&& (path == Seq::<char>::empty() || path == seq!['/'] || ends_in_parent(path)) ==> ext is None
    &&& ext matches Some(e) ==> !e.contains('.')
}

/// What `Path::ancestors` gives for a path: the path first; for plain names
/// joined by `/`, each shorter run of the leading names in turn, then the
/// root (or the empty path when it is not rooted).
pub open spec fn ancestors_facts(path: Seq<char>, a: Seq<Seq<char>>) -> bool {
    &&& a.len() >= 1
    &&& a[0] == path
    &&& forall|cs: Seq<Seq<char>>, rooted: bool|
        plain_names(cs) && #[trigger] slash_path(cs, rooted) == path ==> {
            &&& a.len() == cs.len() + 1
            &&& forall|k: int|
                0 <= k < cs.len() ==> #[trigger] a[k] == slash_path(cs.take(cs.len() - k), rooted)
            &&& a[cs.len() as int] == (if rooted {
                seq!['/']
            } else {
                Seq::<char>::empty()
            })
        }
}

/// Calls `Path::file_name` on `path` and converts the name back to text.
/// Its documentation gives the final component of the path (`/usr/bin/`
/// gives `bin`, `foo.txt/.` gives `foo.txt`), and nothing when the path
/// ends in a root or in `..`, or is empty; the contract states this for
/// paths of plain names joined by `/`, which every platform splits alike.
/// How other paths split follows the platform's rules and is not stated.
#[verifier::external_body]
pub(crate) fn file_name_of(path: &str) -> (name: Option<String>)
    ensures
        file_name_facts(path@, opt_text(name)),
{
    std::path::Path::new(path).file_name().map(|name| name.to_string_lossy().into_owned())
}

/// Calls `Path::extension` and converts it to text. Its documentation gives
/// the part of the file name after its last dot; nothing when there is no
/// file name, no dot, or only a leading dot. The contract states this for
/// paths of plain names joined by `/`; other paths follow the platform's
/// rules, of which only that the extension holds no dot is stated.
#[verifier::external_body]
pub(crate) fn path_extension(path: &str) -> (ext: Option<String>)
    ensures
        extension_facts(path@, opt_text(ext)),
{
    std::path::Path::new(path).extension().and_then(|e| e.to_str()).map(|e| e.to_string())
}

/// Calls `Path::ancestors` and converts each ancestor to text. Its
/// documentation gives the path itself first, then each parent in turn
/// (`Path::parent`: the path without its last component, the empty path for
/// a single relative name, nothing after a root). The contract states this
/// for paths of plain names joined by `/`; other paths follow the
/// platform's rules and only the first ancestor is stated.
#[verifier::external_body]
pub(crate) fn path_ancestors(path: &str) -> (a: Vec<String>)
    ensures
        ancestors_facts(path@, Seq::new(a@.len(), |i: int| a@[i]@)),
{
    std::path::Path::new(path).ancestors().map(|p| p.to_string_lossy().into_owned()).collect()
}

/// A single plain name is a path of one plain name.
pub proof fn lemma_plain_name_path(p: Seq<char>)
    requires
        plain_name(p),
    ensures
        plain_names(seq![p]),
        slash_path(seq![p], false) == p,
        seq![p].last() == p,
        spells_names(p, seq![p], false),
{
    assert(seq![p][0] == p);
}

} // verus!
