//! Labels and summaries shown across the viewer: object kinds, tree rows,
//! references, search hits and statuses, and file paths made safe to show.
use vstd::prelude::*;
use crate::model::{
    EscapedText, ObjectValue, NodeId, ObjectId, ObjectKind, ObjectSearchField, ObjectSearchHit,
    ObjectSearchResult, ObjectSummary, SummaryView, TextSearchHit, TextSearchResult,
};
use crate::paths::{
    file_name_facts, file_name_of, lemma_plain_name_path, plain_name, spells_names, ends_in_parent,
};
use crate::node::{breadcrumb_text, is_page_list_view, is_xref_object_view, node_breadcrumb};
use crate::text::{
    chars_of, decimal, push_all, push_decimal, push_ref_text, push_str, ref_text,
    spec_is_control, str_trim, string_from_chars, trimmed, utf8_len, char_utf8_len, is_control,
    str_eq, opt_text,
};

verus! {

/// Bytes of a path shown in the title bar and chips.
pub const PATH_DISPLAY_MAX_BYTES: usize = 4096;

/// Bytes of text that a copy or an excerpt carries.
pub const COPY_LIMIT_BYTES: usize = 4096;

/// The short badge of an object kind.
pub open spec fn badge(kind: ObjectKind) -> Seq<char> {
    match kind {
        ObjectKind::Null => "null"@,
        ObjectKind::Bool => "bool"@,
        ObjectKind::Int => "int"@,
        ObjectKind::Real => "real"@,
        ObjectKind::Name => "name"@,
        ObjectKind::String => "str"@,
        ObjectKind::Array => "[]"@,
        ObjectKind::Dict => "<>"@,
        ObjectKind::IndirectRef => "ref"@,
        ObjectKind::Stream => "stm"@,
        ObjectKind::Page => "page"@,
        ObjectKind::XrefEntry => "xref"@,
        ObjectKind::Trailer => "trl"@,
        ObjectKind::Metadata => "meta"@,
        ObjectKind::Unknown => "?"@,
    }
}

/// The short badge of an object kind, as the tree shows it.
pub fn kind_badge_text(kind: &ObjectKind) -> (s: &'static str)
    ensures
        s@ == badge(*kind),
{
    match kind {
        ObjectKind::Null => "null",
        ObjectKind::Bool => "bool",
        ObjectKind::Int => "int",
        ObjectKind::Real => "real",
        ObjectKind::Name => "name",
        ObjectKind::String => "str",
        ObjectKind::Array => "[]",
        ObjectKind::Dict => "<>",
        ObjectKind::IndirectRef => "ref",
        ObjectKind::Stream => "stm",
        ObjectKind::Page => "page",
        ObjectKind::XrefEntry => "xref",
        ObjectKind::Trailer => "trl",
        ObjectKind::Metadata => "meta",
        ObjectKind::Unknown => "?",
    }
}

/// The name of an object kind.
pub open spec fn kind_label(kind: ObjectKind) -> Seq<char> {
    match kind {
        ObjectKind::Null => "null"@,
        ObjectKind::Bool => "bool"@,
        ObjectKind::Int => "int"@,
        ObjectKind::Real => "real"@,
        ObjectKind::Name => "name"@,
        ObjectKind::String => "string"@,
        ObjectKind::Array => "array"@,
        ObjectKind::Dict => "dictionary"@,
        ObjectKind::IndirectRef => "indirect_ref"@,
        ObjectKind::Stream => "stream"@,
        ObjectKind::Page => "page"@,
        ObjectKind::XrefEntry => "xref_entry"@,
        ObjectKind::Trailer => "trailer"@,
        ObjectKind::Metadata => "metadata"@,
        ObjectKind::Unknown => "unknown"@,
    }
}

/// The name of an object kind, as the inspector shows it.
pub fn object_kind_label(kind: &ObjectKind) -> (s: &'static str)
    ensures
        s@ == kind_label(*kind),
{
    match kind {
        ObjectKind::Null => "null",
        ObjectKind::Bool => "bool",
        ObjectKind::Int => "int",
        ObjectKind::Real => "real",
        ObjectKind::Name => "name",
        ObjectKind::String => "string",
        ObjectKind::Array => "array",
        ObjectKind::Dict => "dictionary",
        ObjectKind::IndirectRef => "indirect_ref",
        ObjectKind::Stream => "stream",
        ObjectKind::Page => "page",
        ObjectKind::XrefEntry => "xref_entry",
        ObjectKind::Trailer => "trailer",
        ObjectKind::Metadata => "metadata",
        ObjectKind::Unknown => "unknown",
    }
}

/// The badge of a tree row: pages of the page list and cross-reference
/// objects show as dictionaries until their detail is loaded.
pub open spec fn tree_badge(s: SummaryView) -> Seq<char> {
    if (s.kind == ObjectKind::Page && is_page_list_view(s)) || is_xref_object_view(s) {
        badge(ObjectKind::Dict)
    } else {
        badge(s.kind)
    }
}

/// The badge of a tree row.
pub fn tree_kind_badge_text(summary: &ObjectSummary) -> (s: &'static str)
    ensures
        s@ == tree_badge(summary@),
{
    if (summary.kind == ObjectKind::Page && crate::node::is_page_list_summary(summary))
        || crate::node::is_xref_object_summary(summary) {
        return kind_badge_text(&ObjectKind::Dict);
    }
    kind_badge_text(&summary.kind)
}

/// A summary in one line: `[num gen R] ` for an object, the trimmed preview
/// (or the label when there is none), and ` stream` for a stream.
pub open spec fn summary_line(s: SummaryView) -> Seq<char> {
    (match s.object {
        Some(o) => "["@ + ref_text(o.num as nat, o.gen as nat) + "] "@,
        None => seq![],
    }) + (if trimmed(s.preview).len() == 0 {
        s.label
    } else {
        trimmed(s.preview)
    }) + (if s.has_stream {
        " stream"@
    } else {
        seq![]
    })
}

/// A summary in one line.
pub fn summary_inline_text(summary: &ObjectSummary) -> (out: String)
    ensures
        out@ == summary_line(summary@),
{
    let mut out: Vec<char> = Vec::new();
    match summary.object {
        Some(o) => {
            push_str(&mut out, "[");
            push_ref_text(&mut out, o.num as u64, o.gen as u64);
            push_str(&mut out, "] ");
        },
        None => {},
    }
    let preview = str_trim(summary.preview.as_str());
    if preview.len() == 0 {
        let label = chars_of(summary.label.as_str());
        push_all(&mut out, &label);
    } else {
        push_all(&mut out, &preview);
    }
    if summary.has_stream {
        push_str(&mut out, " stream");
    }
    assert(out@ =~= summary_line(summary@));
    string_from_chars(&out)
}

/// `num gen R`.
pub fn object_ref_text(object: ObjectId) -> (s: String)
    ensures
        s@ == ref_text(object.num as nat, object.gen as nat),
{
    let mut out: Vec<char> = Vec::new();
    push_ref_text(&mut out, object.num as u64, object.gen as u64);
    assert(out@ =~= ref_text(object.num as nat, object.gen as nat));
    string_from_chars(&out)
}

/// The object a visual element is attributed to, as `num gen R`; nothing
/// when it has none.
pub fn visual_object_attribution_text(object: Option<ObjectId>) -> (s: Option<String>)
    ensures
        match object {
            Some(o) => s matches Some(t) && t@ == ref_text(o.num as nat, o.gen as nat),
            None => s is None,
        },
{
    match object {
        Some(o) => Some(object_ref_text(o)),
        None => None,
    }
}

/// A signed integer in decimal, with `-` before a negative one.
pub open spec fn signed_decimal(v: int) -> Seq<char> {
    if v < 0 {
        seq!['-'] + decimal((-v) as nat)
    } else {
        decimal(v as nat)
    }
}

/// How a scalar value shows in the inspector; `None` for a real number,
/// whose text is that of the floating-point value and is made by the caller.
pub open spec fn value_preview(value: ObjectValue, fallback: Seq<char>) -> Option<Seq<char>> {
    match value {
        ObjectValue::Null => Some("null"@),
        ObjectValue::Bool(b) => Some(
            if b {
                "true"@
            } else {
                "false"@
            },
        ),
        ObjectValue::Int(i) => Some(signed_decimal(i as int)),
        ObjectValue::Real(_) => None,
        ObjectValue::Name(n) => Some(seq!['/'] + n@),
        ObjectValue::StringBytes { bytes, decoded_text } => Some(
            match decoded_text {
                Some(t) => t@,
                None => decimal(bytes@.len()) + " bytes"@,
            },
        ),
        ObjectValue::IndirectRef(o) => Some(ref_text(o.num as nat, o.gen as nat)),
        ObjectValue::Container => Some(fallback),
        ObjectValue::Unknown => Some(fallback),
    }
}

/// How a scalar value shows in the inspector, with `fallback` for a
/// container or an unknown value; `None` for a real number.
pub fn object_value_preview(value: &ObjectValue, fallback: &str) -> (s: Option<String>)
    ensures
        opt_text(s) == value_preview(*value, fallback@),
{
    match value {
        ObjectValue::Null => Some(String::from_str("null")),
        ObjectValue::Bool(b) => Some(
            if *b {
                String::from_str("true")
            } else {
                String::from_str("false")
            },
        ),
        ObjectValue::Int(i) => {
            let mut out: Vec<char> = Vec::new();
            let v: i64 = *i;
            if v < 0 {
                out.push('-');
                let m: u64 = (0i128 - v as i128) as u64;
                push_decimal(&mut out, m);
            } else {
                push_decimal(&mut out, v as u64);
            }
            assert(out@ =~= signed_decimal(v as int));
            Some(string_from_chars(&out))
        },
        ObjectValue::Real(_) => None,
        ObjectValue::Name(n) => {
            let mut out: Vec<char> = Vec::new();
            out.push('/');
            push_all(&mut out, &chars_of(n.as_str()));
            Some(string_from_chars(&out))
        },
        ObjectValue::StringBytes { bytes, decoded_text } => match decoded_text {
            Some(t) => Some(String::from_str(t.as_str())),
            None => {
                let mut out: Vec<char> = Vec::new();
                push_decimal(&mut out, bytes.len() as u64);
                push_str(&mut out, " bytes");
                Some(string_from_chars(&out))
            },
        },
        ObjectValue::IndirectRef(o) => Some(object_ref_text(*o)),
        ObjectValue::Container => Some(String::from_str(fallback)),
        ObjectValue::Unknown => Some(String::from_str(fallback)),
    }
}

/// How much of a child list is loaded: `L loaded / T total`, or `L loaded`.
pub open spec fn child_detail(total: Option<usize>, loaded: nat) -> Seq<char> {
    match total {
        Some(t) => decimal(loaded) + " loaded / "@ + decimal(t as nat) + " total"@,
        None => decimal(loaded) + " loaded"@,
    }
}

/// How much of a child list is loaded.
pub fn child_page_detail(total: Option<usize>, loaded: usize) -> (s: String)
    ensures
        s@ == child_detail(total, loaded as nat),
{
    let mut out: Vec<char> = Vec::new();
    push_decimal(&mut out, loaded as u64);
    match total {
        Some(t) => {
            push_str(&mut out, " loaded / ");
            push_decimal(&mut out, t as u64);
            push_str(&mut out, " total");
        },
        None => push_str(&mut out, " loaded"),
    }
    assert(out@ =~= child_detail(total, loaded as nat));
    string_from_chars(&out)
}

/// A number, or `-` when there is none.
pub fn optional_u64(value: Option<u64>) -> (s: String)
    ensures
        s@ == (match value {
            Some(v) => decimal(v as nat),
            None => "-"@,
        }),
{
    match value {
        Some(v) => {
            let digits = crate::text::decimal_chars(v);
            string_from_chars(&digits)
        },
        None => String::from_str("-"),
    }
}

/// A text, or `-` when there is none.
pub fn option_text(value: Option<&str>) -> (s: &str)
    ensures
        s@ == (match value {
            Some(v) => v@,
            None => "-"@,
        }),
{
    match value {
        Some(v) => v,
        None => "-",
    }
}

/// The name of the field a search hit matched.
pub open spec fn field_label(field: ObjectSearchField) -> Seq<char> {
    match field {
        ObjectSearchField::ObjectNumber => "object"@,
        ObjectSearchField::DictionaryKey => "key"@,
        ObjectSearchField::NameObject => "name"@,
        ObjectSearchField::ScalarPreview => "scalar"@,
        ObjectSearchField::Label => "label"@,
    }
}

/// The name of the field a search hit matched.
pub fn object_search_field_label(field: ObjectSearchField) -> (s: &'static str)
    ensures
        s@ == field_label(field),
{
    match field {
        ObjectSearchField::ObjectNumber => "object",
        ObjectSearchField::DictionaryKey => "key",
        ObjectSearchField::NameObject => "name",
        ObjectSearchField::ScalarPreview => "scalar",
        ObjectSearchField::Label => "label",
    }
}

/// An object search hit in one line: its object (or label), the matched
/// field, and the trimmed excerpt (or the label when the excerpt is blank),
/// separated by two spaces.
pub open spec fn hit_summary(
    object: Option<ObjectId>,
    label: Seq<char>,
    field: ObjectSearchField,
    excerpt: Seq<char>,
) -> Seq<char> {
    (match object {
        Some(o) => ref_text(o.num as nat, o.gen as nat),
        None => label,
    }) + "  "@ + field_label(field) + "  "@ + (if trimmed(excerpt).len() == 0 {
        label
    } else {
        trimmed(excerpt)
    })
}

/// An object search hit in one line.
pub fn object_search_hit_summary(hit: &ObjectSearchHit) -> (s: String)
    ensures
        s@ == hit_summary(hit.object, hit.label@, hit.matched_field, hit.excerpt@),
{
    let mut out: Vec<char> = Vec::new();
    let label = chars_of(hit.label.as_str());
    match hit.object {
        Some(o) => push_ref_text(&mut out, o.num as u64, o.gen as u64),
        None => push_all(&mut out, &label),
    }
    push_str(&mut out, "  ");
    push_str(&mut out, object_search_field_label(hit.matched_field));
    push_str(&mut out, "  ");
    let excerpt = str_trim(hit.excerpt.as_str());
    if excerpt.len() == 0 {
        push_all(&mut out, &label);
    } else {
        push_all(&mut out, &excerpt);
    }
    assert(out@ =~= hit_summary(hit.object, hit.label@, hit.matched_field, hit.excerpt@));
    string_from_chars(&out)
}

/// Where a search hit leads: its node's breadcrumb, or its label.
pub fn node_label_for_hit(hit: &ObjectSearchHit) -> (s: String)
    ensures
        s@ == (match hit.node {
            Some(n) => breadcrumb_text(n@),
            None => hit.label@,
        }),
{
    match &hit.node {
        Some(n) => node_breadcrumb(n),
        None => hit.label.clone(),
    }
}

/// The row of the generated tree that a hit's object number names, if the
/// tree has that many rows.
pub fn virtual_search_hit_row(hit: &ObjectSearchHit, row_count: usize) -> (r: Option<usize>)
    ensures
        r == (match hit.object {
            Some(o) => if (o.num as nat) < row_count {
                Some(o.num as usize)
            } else {
                None
            },
            None => None,
        }),
{
    match hit.object {
        Some(o) => {
            if (o.num as u64) < (row_count as u64) {
                Some(o.num as usize)
            } else {
                None
            }
        },
        None => None,
    }
}

/// The status of the object search.
pub open spec fn object_status(result: Option<(nat, nat, bool)>, failed: bool, running: bool) -> Seq<
    char,
> {
    if running {
        "searching"@
    } else if failed {
        "failed"@
    } else {
        match result {
            Some((hits, nodes, truncated)) => decimal(hits) + " hits / "@ + decimal(nodes)
                + " nodes"@ + (if truncated {
                " / truncated"@
            } else {
                seq![]
            }),
            None => "bounded lazy search"@,
        }
    }
}

/// The status of the object search: running, failed, its counts, or idle.
pub fn object_search_status_label(
    result: Option<&ObjectSearchResult>,
    error: Option<&str>,
    running: bool,
) -> (s: String)
    ensures
        s@ == object_status(
            match result {
                Some(r) => Some((r.hits@.len(), r.searched_nodes as nat, r.truncated)),
                None => None,
            },
            error is Some,
            running,
        ),
{
    if running {
        return String::from_str("searching");
    }
    if error.is_some() {
        return String::from_str("failed");
    }
    match result {
        Some(r) => {
            let mut out: Vec<char> = Vec::new();
            push_decimal(&mut out, r.hits.len() as u64);
            push_str(&mut out, " hits / ");
            push_decimal(&mut out, r.searched_nodes as u64);
            push_str(&mut out, " nodes");
            if r.truncated {
                push_str(&mut out, " / truncated");
            }
            assert(out@ =~= object_status(
                Some((r.hits@.len(), r.searched_nodes as nat, r.truncated)),
                false,
                false,
            ));
            string_from_chars(&out)
        },
        None => String::from_str("bounded lazy search"),
    }
}

/// The status of the text search, with the page cache's size.
pub open spec fn text_status(
    result: Option<(nat, nat, bool)>,
    failed: bool,
    running: bool,
    cached_pages: nat,
    cached_bytes: nat,
) -> Seq<char> {
    if running {
        "running"@
    } else if failed {
        "failed / "@ + decimal(cached_pages) + " cached"@
    } else {
        match result {
            Some((hits, pages, truncated)) => decimal(hits) + " hits / "@ + decimal(pages)
                + " pages"@ + (if truncated {
                " / truncated"@
            } else {
                seq![]
            }) + " / "@ + decimal(cached_pages) + " cached / "@ + decimal(cached_bytes / 1024)
                + " KiB"@,
            None => decimal(cached_pages) + " cached / "@ + decimal(cached_bytes / 1024) + " KiB"@,
        }
    }
}

/// The status of the text search.
pub fn text_search_status_label(
    result: Option<&TextSearchResult>,
    error: Option<&str>,
    running: bool,
    cached_pages: usize,
    cached_bytes: usize,
) -> (s: String)
    ensures
        s@ == text_status(
            match result {
                Some(r) => Some((r.hits@.len(), r.searched_pages as nat, r.truncated)),
                None => None,
            },
            error is Some,
            running,
            cached_pages as nat,
            cached_bytes as nat,
        ),
{
    if running {
        return String::from_str("running");
    }
    let mut out: Vec<char> = Vec::new();
    if error.is_some() {
        push_str(&mut out, "failed / ");
        push_decimal(&mut out, cached_pages as u64);
        push_str(&mut out, " cached");
        assert(out@ =~= text_status(None, true, false, cached_pages as nat, cached_bytes as nat));
        return string_from_chars(&out);
    }
    match result {
        Some(r) => {
            push_decimal(&mut out, r.hits.len() as u64);
            push_str(&mut out, " hits / ");
            push_decimal(&mut out, r.searched_pages as u64);
            push_str(&mut out, " pages");
            if r.truncated {
                push_str(&mut out, " / truncated");
            }
            push_str(&mut out, " / ");
        },
        None => {},
    }
    push_decimal(&mut out, cached_pages as u64);
    push_str(&mut out, " cached / ");
    push_decimal(&mut out, (cached_bytes / 1024) as u64);
    push_str(&mut out, " KiB");
    assert(out@ =~= text_status(
        match result {
            Some(r) => Some((r.hits@.len(), r.searched_pages as nat, r.truncated)),
            None => None,
        },
        false,
        false,
        cached_pages as nat,
        cached_bytes as nat,
    ));
    string_from_chars(&out)
}

// ---------------------------------------------------------------------------
// Text made safe to show
// ---------------------------------------------------------------------------
/// Invisible characters that reorder text (bidirectional controls).
pub open spec fn is_bidi_control(c: char) -> bool {
    let v = c as u32;
    (0x202A <= v && v <= 0x202E) || (0x2066 <= v && v <= 0x2069) || v == 0x200E || v == 0x200F
        || v == 0x061C
}

/// How a character shows in plain text: control characters other than
/// newline, carriage return and tab, and bidirectional controls, become
/// U+FFFD.
pub open spec fn plain_char(c: char) -> char {
    if (spec_is_control(c) && c != '\n' && c != '\r' && c != '\t') || is_bidi_control(c) {
        '\u{FFFD}'
    } else {
        c
    }
}

/// The shown characters of `t` that fit in `max` UTF-8 bytes.
pub open spec fn plain_prefix(t: Seq<char>, max: nat) -> Seq<char>
    decreases t.len(),
{
    if t.len() == 0 {
        seq![]
    } else if utf8_len(plain_char(t[0])) <= max {
        seq![plain_char(t[0])] + plain_prefix(t.drop_first(), (max - utf8_len(plain_char(t[0]))) as nat)
    } else {
        seq![]
    }
}

/// Whether a character may be shown as it is: not a control character
/// other than newline, carriage return and tab, and not a bidirectional
/// control.
pub open spec fn safe_to_show(c: char) -> bool {
    !((spec_is_control(c) && c != '\n' && c != '\r' && c != '\t') || is_bidi_control(c))
}

/// Text made safe to show holds only characters safe to show, fits the byte
/// limit, and is the start of the text with unsafe characters replaced: each
/// character is kept or, when unsafe, becomes U+FFFD.
pub proof fn lemma_plain_prefix_safe(t: Seq<char>, max: nat)
    ensures
        forall|i: int|
            0 <= i < plain_prefix(t, max).len() ==> safe_to_show(#[trigger] plain_prefix(t, max)[i]),
        crate::text::seq_utf8_len(plain_prefix(t, max)) <= max,
        plain_prefix(t, max).len() <= t.len(),
        forall|i: int|
            0 <= i < plain_prefix(t, max).len() ==> #[trigger] plain_prefix(t, max)[i] == plain_char(
                t[i],
            ),
    decreases t.len(),
{
    if t.len() > 0 && utf8_len(plain_char(t[0])) <= max {
        let c = plain_char(t[0]);
        let rest_max = (max - utf8_len(c)) as nat;
        lemma_plain_prefix_safe(t.drop_first(), rest_max);
        let r = plain_prefix(t.drop_first(), rest_max);
        let p = plain_prefix(t, max);
        assert(p == seq![c] + r);
        assert(safe_to_show('\u{FFFD}')) by {
            assert(!spec_is_control('\u{FFFD}'));
        }
        assert forall|i: int| 0 <= i < p.len() implies safe_to_show(#[trigger] p[i]) && p[i]
            == plain_char(t[i]) by {
            if i > 0 {
                assert(p[i] == r[i - 1]);
                assert(t.drop_first()[i - 1] == t[i]);
            }
        }
        lemma_seq_utf8_len_prepend(c, r);
    }
}

/// Byte length of a character followed by a text.
proof fn lemma_seq_utf8_len_prepend(c: char, r: Seq<char>)
    ensures
        crate::text::seq_utf8_len(seq![c] + r) == utf8_len(c) + crate::text::seq_utf8_len(r),
{
    crate::text::lemma_seq_utf8_len_concat(seq![c], r);
    let s1 = seq![c];
    assert(s1.drop_last() =~= Seq::<char>::empty());
    assert(s1.last() == c);
    assert(crate::text::seq_utf8_len(Seq::<char>::empty()) == 0);
    assert(crate::text::seq_utf8_len(s1) == crate::text::seq_utf8_len(s1.drop_last()) + utf8_len(
        s1.last(),
    ));
}

/// Whether `c` is a bidirectional control.
fn is_bidi_control_exec(c: char) -> (b: bool)
    ensures
        b == is_bidi_control(c),
{
    let v = c as u32;
    (0x202A <= v && v <= 0x202E) || (0x2066 <= v && v <= 0x2069) || v == 0x200E || v == 0x200F
        || v == 0x061C
}

/// `text` made safe to show as plain text, cut to at most `max_bytes` UTF-8
/// bytes at a character boundary; `truncated` when something was cut.
pub fn escape_plain_text(text: &str, max_bytes: usize) -> (e: EscapedText)
    ensures
        e.text@ == plain_prefix(text@, max_bytes as nat),
        e.truncated == (plain_prefix(text@, max_bytes as nat).len() < text@.len()),
{
    let chars = chars_of(text);
    let mut out: Vec<char> = Vec::new();
    let mut room: usize = max_bytes;
    let mut i: usize = 0;
    let n = chars.len();
    assert(chars@.skip(0) =~= chars@);
    while i < n
        invariant
            n == chars@.len(),
            chars@ == text@,
            0 <= i <= n,
            out@.len() == i,
            out@ + plain_prefix(chars@.skip(i as int), room as nat) == plain_prefix(
                chars@,
                max_bytes as nat,
            ),
        decreases n - i,
    {
        let c = chars[i];
        let shown = if (is_control(c) && c != '\n' && c != '\r' && c != '\t')
            || is_bidi_control_exec(c) {
            '\u{FFFD}'
        } else {
            c
        };
        let w = char_utf8_len(shown);
        let ghost rest = chars@.skip(i as int);
        assert(rest[0] == chars@[i as int]);
        assert(rest.drop_first() =~= chars@.skip(i + 1));
        if w > room {
            assert(plain_prefix(rest, room as nat) =~= seq![]);
            assert(out@ + seq![] =~= out@);
            let t = string_from_chars(&out);
            return EscapedText { text: t, truncated: true };
        }
        let ghost before = out@;
        out.push(shown);
        assert(out@ + plain_prefix(chars@.skip(i + 1), (room - w) as nat) =~= before
            + plain_prefix(rest, room as nat));
        room = room - w;
        i += 1;
    }
    assert(plain_prefix(chars@.skip(i as int), room as nat) =~= seq![]);
    assert(out@ + seq![] =~= out@);
    let t = string_from_chars(&out);
    EscapedText { text: t, truncated: false }
}

/// A text search hit in one line: `p<page> s<span>` and its excerpt made
/// safe to show, with line breaks and tabs as spaces.
pub open spec fn text_hit_summary(page_index: nat, span_index: nat, excerpt: Seq<char>) -> Seq<
    char,
> {
    "p"@ + decimal(page_index + 1) + " s"@ + decimal(span_index) + "  "@ + plain_prefix(
        excerpt,
        COPY_LIMIT_BYTES as nat,
    ).map_values(|c: char| if c == '\n' || c == '\r' || c == '\t' { ' ' } else { c })
}

/// A text search hit in one line.
pub fn text_search_hit_summary(hit: &TextSearchHit) -> (s: String)
    requires
        hit.page_index < usize::MAX,
    ensures
        s@ == text_hit_summary(hit.page_index as nat, hit.span_index as nat, hit.excerpt@),
{
    let escaped = escape_plain_text(hit.excerpt.as_str(), COPY_LIMIT_BYTES);
    let ex = chars_of(escaped.text.as_str());
    let mut out: Vec<char> = Vec::new();
    push_str(&mut out, "p");
    push_decimal(&mut out, (hit.page_index + 1) as u64);
    push_str(&mut out, " s");
    push_decimal(&mut out, hit.span_index as u64);
    push_str(&mut out, "  ");
    let ghost head = out@;
    let ghost mapped = ex@.map_values(|c: char| if c == '\n' || c == '\r' || c == '\t' { ' ' } else { c });
    let mut i: usize = 0;
    while i < ex.len()
        invariant
            0 <= i <= ex@.len(),
            mapped == ex@.map_values(|c: char| if c == '\n' || c == '\r' || c == '\t' { ' ' } else { c }),
            out@ == head + mapped.take(i as int),
        decreases ex@.len() - i,
    {
        let c = ex[i];
        out.push(if c == '\n' || c == '\r' || c == '\t' {
            ' '
        } else {
            c
        });
        assert(mapped.take(i + 1) =~= mapped.take(i as int).push(mapped[i as int]));
        i += 1;
    }
    assert(mapped.take(i as int) =~= mapped);
    assert(out@ =~= text_hit_summary(hit.page_index as nat, hit.span_index as nat, hit.excerpt@));
    string_from_chars(&out)
}

/// The lines the status log starts with when no document is open.
pub fn empty_status_log() -> (log: Vec<String>)
    ensures
        log@.len() == 2,
        log@[0]@ == "No PDF open"@,
        log@[1]@ == "Open PDF or choose a recent file"@,
{
    let mut log: Vec<String> = Vec::new();
    log.push(String::from_str("No PDF open"));
    log.push(String::from_str("Open PDF or choose a recent file"));
    log
}

/// Whether a font family lists the CJK fallback font.
pub open spec fn has_cjk_font(family: Seq<String>) -> bool {
    exists|i: int| 0 <= i < family.len() && #[trigger] family[i]@ == "pdbg-cjk"@
}

/// Adds the CJK fallback font to a font family, unless it is there already.
pub fn insert_font_fallback(family: &mut Vec<String>)
    ensures
        has_cjk_font(old(family)@) ==> final(family)@ == old(family)@,
        !has_cjk_font(old(family)@) ==> final(family)@ == old(family)@.push(final(family)@.last()),
        !has_cjk_font(old(family)@) ==> final(family)@.last()@ == "pdbg-cjk"@,
        has_cjk_font(final(family)@),
{
    let mut i: usize = 0;
    while i < family.len()
        invariant
            0 <= i <= family@.len(),
            family@ == old(family)@,
            forall|k: int| 0 <= k < i ==> family@[k]@ != "pdbg-cjk"@,
        decreases family@.len() - i,
    {
        if str_eq(family[i].as_str(), "pdbg-cjk") {
            return;
        }
        i += 1;
    }
    family.push(String::from_str("pdbg-cjk"));
    assert(family@.last()@ == "pdbg-cjk"@);
    assert(family@ =~= old(family)@.push(family@.last()));
}

/// The chip label of a path, given the file name found in it: the name,
/// or the whole path when there is no (or an empty) name.
pub open spec fn chip_label(path: Seq<char>, name: Option<Seq<char>>) -> Seq<char> {
    match name {
        Some(n) => if n.len() > 0 {
            n
        } else {
            path
        },
        None => path,
    }
}

/// The chip label of a path, given the file name found in it.
pub fn file_chip_label_from(path: &str, name: Option<String>) -> (s: String)
    ensures
        s@ == chip_label(path@, opt_text(name)),
{
    match name {
        Some(n) => if !n.as_str().is_empty() {
            n
        } else {
            String::from_str(path)
        },
        None => String::from_str(path),
    }
}

/// The chip label of a path: its file name, or the whole path. For a
/// path of plain names joined by `/` that is the last name.
pub fn file_chip_label(path: &str) -> (s: String)
    ensures
        exists|name: Option<Seq<char>>|
            file_name_facts(path@, name) && s@ == chip_label(path@, name),
        plain_name(path@) ==> s@ == path@,
        forall|cs: Seq<Seq<char>>, rooted: bool|
            #[trigger] spells_names(path@, cs, rooted) ==> s@ == cs.last(),
        ends_in_parent(path@) ==> s@ == path@,
{
    let name = file_name_of(path);
    let ghost n = opt_text(name);
    let s = file_chip_label_from(path, name);
    assert(s@ == chip_label(path@, n));
    proof {
        if plain_name(path@) {
            lemma_plain_name_path(path@);
            assert(n == Some(path@));
        }
        assert forall|cs: Seq<Seq<char>>, rooted: bool|
            #[trigger] spells_names(path@, cs, rooted) implies s@ == cs.last() by {
            assert(n == Some(cs.last()));
            assert(plain_name(cs[cs.len() - 1]));
        }
    }
    s
}

/// The chip label of a path, made safe to show.
pub fn display_file_chip_label(path: &str) -> (s: String)
    ensures
        exists|name: Option<Seq<char>>|
            file_name_facts(path@, name) && s@ == plain_prefix(
                chip_label(path@, name),
                PATH_DISPLAY_MAX_BYTES as nat,
            ),
        plain_name(path@) ==> s@ == plain_prefix(path@, PATH_DISPLAY_MAX_BYTES as nat),
        forall|cs: Seq<Seq<char>>, rooted: bool|
            #[trigger] spells_names(path@, cs, rooted) ==> s@ == plain_prefix(
                cs.last(),
                PATH_DISPLAY_MAX_BYTES as nat,
            ),
        ends_in_parent(path@) ==> s@ == plain_prefix(path@, PATH_DISPLAY_MAX_BYTES as nat),
{
    let label = file_chip_label(path);
    escape_plain_text(label.as_str(), PATH_DISPLAY_MAX_BYTES).text
}

/// A path made safe to show in a tooltip.
pub fn display_path_hover(path: &str) -> (s: String)
    ensures
        s@ == plain_prefix(path@, PATH_DISPLAY_MAX_BYTES as nat),
{
    escape_plain_text(path, PATH_DISPLAY_MAX_BYTES).text
}

} // verus!
