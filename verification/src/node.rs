//! Questions about node paths: which page a node belongs to, whether it is
//! a page's content stream, and how its path reads as a breadcrumb.
use vstd::prelude::*;
use crate::model::{NodeId, NodeView, ObjectId, ObjectKind, ObjectSummary, ResourceGroup, SummaryView};
use crate::text::{
    chars_of, decimal, push_all, push_decimal, push_ref_text, push_str, ref_text, str_eq,
    string_from_chars,
};

verus! {

/// Whether a node is the page tree root: the `PageRoot` node or a `/Pages`
/// dictionary entry.
pub open spec fn is_page_root_view(v: NodeView) -> bool {
    match v {
        NodeView::PageRoot { .. } => true,
        NodeView::DictEntry { key, .. } => key == "Pages"@,
        _ => false,
    }
}

/// The page a node belongs to: a page node, an entry of the page tree root's
/// array, a page's resource group, or anything below one of these.
pub open spec fn page_index_of(v: NodeView) -> Option<usize>
    decreases v,
{
    match v {
        NodeView::Page { index, .. } => Some(index),
        NodeView::ResourceGroup { page_index, .. } => Some(page_index),
        NodeView::ArrayEntry { parent, index, .. } => {
            if is_page_root_view(*parent) {
                Some(index)
            } else {
                page_index_of(*parent)
            }
        },
        NodeView::DictEntry { parent, .. } => page_index_of(*parent),
        _ => None,
    }
}

/// Whether a node is the row of page `page_index` itself (not one of its
/// children).
pub open spec fn is_page_row_for(v: NodeView, page_index: usize) -> bool {
    match v {
        NodeView::Page { index, .. } => index == page_index,
        NodeView::ArrayEntry { parent, index, .. } => is_page_root_view(*parent) && index
            == page_index,
        _ => false,
    }
}

/// Whether a node is a page's `/Contents` entry or an element of it.
pub open spec fn is_content_stream_view(v: NodeView) -> bool
    decreases v,
{
    match v {
        NodeView::DictEntry { parent, key, .. } => key == "Contents"@ && page_index_of(*parent)
            is Some,
        NodeView::ArrayEntry { parent, .. } => is_content_stream_view(*parent),
        _ => false,
    }
}

/// Whether `key` spells `lit`.
fn key_is(key: &String, lit: &str) -> (b: bool)
    ensures
        b == (key@ == lit@),
{
    str_eq(key.as_str(), lit)
}

/// Whether `id` is the page tree root.
pub fn is_page_root_node(id: &NodeId) -> (b: bool)
    ensures
        b == is_page_root_view(id@),
{
    match id {
        NodeId::PageRoot { .. } => true,
        NodeId::DictEntry { key, .. } => key_is(key, "Pages"),
        _ => false,
    }
}

/// The index of the page that `id` belongs to, if any.
pub fn page_index_for_node(id: &NodeId) -> (p: Option<usize>)
    ensures
        p == page_index_of(id@),
    decreases id,
{
    match id {
        NodeId::Page { index, .. } => Some(*index),
        NodeId::ResourceGroup { page_index, .. } => Some(*page_index),
        NodeId::ArrayEntry { parent, index, .. } => {
            if is_page_root_node(parent) {
                Some(*index)
            } else {
                page_index_for_node(parent)
            }
        },
        NodeId::DictEntry { parent, .. } => page_index_for_node(parent),
        _ => None,
    }
}

/// Whether `id` is the row of page `page_index` itself.
pub fn is_page_row_node_for_index(id: &NodeId, page_index: usize) -> (b: bool)
    ensures
        b == is_page_row_for(id@, page_index),
{
    match id {
        NodeId::Page { index, .. } => *index == page_index,
        NodeId::ArrayEntry { parent, index, .. } => is_page_root_node(parent) && *index
            == page_index,
        _ => false,
    }
}

/// Whether `id` is a page's content stream entry or an element of it.
pub fn is_page_content_stream_node(id: &NodeId) -> (b: bool)
    ensures
        b == is_content_stream_view(id@),
    decreases id,
{
    match id {
        NodeId::DictEntry { parent, key, .. } => {
            if key_is(key, "Contents") {
                page_index_for_node(parent).is_some()
            } else {
                false
            }
        },
        NodeId::ArrayEntry { parent, .. } => is_page_content_stream_node(parent),
        _ => false,
    }
}

/// Whether a summary stands for a stream.
pub open spec fn view_has_stream(s: SummaryView) -> bool {
    s.has_stream || s.kind == ObjectKind::Stream
}

/// Whether a summary stands for a stream (flagged, or of kind stream).
pub fn summary_has_stream(summary: &ObjectSummary) -> (b: bool)
    ensures
        b == view_has_stream(summary@),
{
    summary.has_stream || summary.kind == ObjectKind::Stream
}

/// Whether a summary is an entry of the page list.
pub open spec fn is_page_list_view(s: SummaryView) -> bool {
    match s.id {
        NodeView::Page { .. } => true,
        NodeView::ArrayEntry { parent, .. } => is_page_root_view(*parent),
        _ => false,
    }
}

/// Whether a summary is an entry of the page list.
pub fn is_page_list_summary(summary: &ObjectSummary) -> (b: bool)
    ensures
        b == is_page_list_view(summary@),
{
    match &summary.id {
        NodeId::Page { .. } => true,
        NodeId::ArrayEntry { parent, .. } => is_page_root_node(parent),
        _ => false,
    }
}

/// Whether a summary is an object of the cross-reference table.
pub open spec fn is_xref_object_view(s: SummaryView) -> bool {
    s.id is XrefObject || (s.kind == ObjectKind::XrefEntry && s.object is Some)
}

/// Whether a summary is an object of the cross-reference table.
pub fn is_xref_object_summary(summary: &ObjectSummary) -> (b: bool)
    ensures
        b == is_xref_object_view(summary@),
{
    (match &summary.id {
        NodeId::XrefObject { .. } => true,
        _ => false,
    }) || (summary.kind == ObjectKind::XrefEntry && summary.object.is_some())
}

/// One step of a node's public path.
#[derive(Clone, Debug)]
pub enum NodePathSegment {
    DocumentRoot,
    Trailer,
    Catalog,
    XrefRoot,
    XrefObject(ObjectId),
    PageRoot,
    Page { index: usize },
    DictKey(String),
    ArrayIndex(usize),
    IndirectRef(ObjectId),
    Stream { object: ObjectId, decoded: bool },
    ResourceGroup { page_index: usize, group: ResourceGroup },
}

/// The value of a path step.
pub enum SegmentView {
    DocumentRoot,
    Trailer,
    Catalog,
    XrefRoot,
    XrefObject(ObjectId),
    PageRoot,
    Page { index: usize },
    DictKey(Seq<char>),
    ArrayIndex(usize),
    IndirectRef(ObjectId),
    Stream { object: ObjectId, decoded: bool },
    ResourceGroup { page_index: usize, group: ResourceGroup },
}

impl View for NodePathSegment {
    type V = SegmentView;

    open spec fn view(&self) -> SegmentView {
        match self {
            NodePathSegment::DocumentRoot => SegmentView::DocumentRoot,
            NodePathSegment::Trailer => SegmentView::Trailer,
            NodePathSegment::Catalog => SegmentView::Catalog,
            NodePathSegment::XrefRoot => SegmentView::XrefRoot,
            NodePathSegment::XrefObject(o) => SegmentView::XrefObject(*o),
            NodePathSegment::PageRoot => SegmentView::PageRoot,
            NodePathSegment::Page { index } => SegmentView::Page { index: *index },
            NodePathSegment::DictKey(k) => SegmentView::DictKey(k@),
            NodePathSegment::ArrayIndex(i) => SegmentView::ArrayIndex(*i),
            NodePathSegment::IndirectRef(o) => SegmentView::IndirectRef(*o),
            NodePathSegment::Stream { object, decoded } => SegmentView::Stream {
                object: *object,
                decoded: *decoded,
            },
            NodePathSegment::ResourceGroup { page_index, group } => SegmentView::ResourceGroup {
                page_index: *page_index,
                group: *group,
            },
        }
    }
}

/// The values of a list of path steps.
pub open spec fn segment_views(v: Seq<NodePathSegment>) -> Seq<SegmentView> {
    Seq::new(v.len(), |i: int| v[i]@)
}

/// The public path of a node: its parent's path, then one step for itself.
pub open spec fn segments_of(v: NodeView) -> Seq<SegmentView>
    decreases v,
{
    match v {
        NodeView::DocumentRoot { .. } => seq![SegmentView::DocumentRoot],
        NodeView::Trailer { .. } => seq![SegmentView::Trailer],
        NodeView::Catalog { .. } => seq![SegmentView::Catalog],
        NodeView::XrefRoot { .. } => seq![SegmentView::XrefRoot],
        NodeView::XrefObject { object, .. } => seq![SegmentView::XrefObject(object)],
        NodeView::PageRoot { .. } => seq![SegmentView::PageRoot],
        NodeView::Page { index, .. } => seq![SegmentView::Page { index }],
        NodeView::DictEntry { parent, key, .. } => segments_of(*parent).push(
            SegmentView::DictKey(key),
        ),
        NodeView::ArrayEntry { parent, index, .. } => segments_of(*parent).push(
            SegmentView::ArrayIndex(index),
        ),
        NodeView::IndirectRef { parent, object, .. } => segments_of(*parent).push(
            SegmentView::IndirectRef(object),
        ),
        NodeView::Stream { object, decoded, .. } => seq![SegmentView::Stream { object, decoded }],
        NodeView::ResourceGroup { page_index, group, .. } => seq![
            SegmentView::ResourceGroup { page_index, group },
        ],
    }
}

/// Appends the public path steps of `id` to `out`.
fn push_node_segments(id: &NodeId, out: &mut Vec<NodePathSegment>)
    ensures
        segment_views(final(out)@) == segment_views(old(out)@) + segments_of(id@),
    decreases id,
{
    let ghost start = segment_views(out@);
    let seg = match id {
        NodeId::DocumentRoot { .. } => NodePathSegment::DocumentRoot,
        NodeId::Trailer { .. } => NodePathSegment::Trailer,
        NodeId::Catalog { .. } => NodePathSegment::Catalog,
        NodeId::XrefRoot { .. } => NodePathSegment::XrefRoot,
        NodeId::XrefObject { object, .. } => NodePathSegment::XrefObject(*object),
        NodeId::PageRoot { .. } => NodePathSegment::PageRoot,
        NodeId::Page { index, .. } => NodePathSegment::Page { index: *index },
        NodeId::DictEntry { parent, key, .. } => {
            push_node_segments(parent, out);
            NodePathSegment::DictKey(key.clone())
        },
        NodeId::ArrayEntry { parent, index, .. } => {
            push_node_segments(parent, out);
            NodePathSegment::ArrayIndex(*index)
        },
        NodeId::IndirectRef { parent, object, .. } => {
            push_node_segments(parent, out);
            NodePathSegment::IndirectRef(*object)
        },
        NodeId::Stream { object, decoded, .. } => NodePathSegment::Stream {
            object: *object,
            decoded: *decoded,
        },
        NodeId::ResourceGroup { page_index, group, .. } => NodePathSegment::ResourceGroup {
            page_index: *page_index,
            group: *group,
        },
    };
    let ghost mid = segment_views(out@);
    out.push(seg);
    assert(segment_views(out@) =~= mid.push(seg@));
    assert(segment_views(out@) =~= start + segments_of(id@));
}

/// The public path of `id`, one step per level.
pub fn node_segments(id: &NodeId) -> (segs: Vec<NodePathSegment>)
    ensures
        segment_views(segs@) == segments_of(id@),
{
    let mut out: Vec<NodePathSegment> = Vec::new();
    assert(segment_views(out@) =~= seq![]);
    push_node_segments(id, &mut out);
    assert(segment_views(out@) =~= segments_of(id@));
    out
}

/// The public name of a resource group.
pub open spec fn group_name(g: ResourceGroup) -> Seq<char> {
    match g {
        ResourceGroup::Fonts => "Font"@,
        ResourceGroup::XObjects => "XObject"@,
        ResourceGroup::ExtGState => "ExtGState"@,
        ResourceGroup::ColorSpaces => "ColorSpace"@,
        ResourceGroup::Patterns => "Pattern"@,
        ResourceGroup::Shadings => "Shading"@,
        ResourceGroup::Properties => "Properties"@,
    }
}

/// The public name of a resource group, as the page's `/Resources` key.
pub fn resource_group_name(g: ResourceGroup) -> (s: &'static str)
    ensures
        s@ == group_name(g),
{
    match g {
        ResourceGroup::Fonts => "Font",
        ResourceGroup::XObjects => "XObject",
        ResourceGroup::ExtGState => "ExtGState",
        ResourceGroup::ColorSpaces => "ColorSpace",
        ResourceGroup::Patterns => "Pattern",
        ResourceGroup::Shadings => "Shading",
        ResourceGroup::Properties => "Properties",
    }
}

/// How a path step reads in a breadcrumb.
pub open spec fn segment_text(s: SegmentView) -> Seq<char> {
    match s {
        SegmentView::DocumentRoot => "Root"@,
        SegmentView::Trailer => "Trailer"@,
        SegmentView::Catalog => "Catalog"@,
        SegmentView::XrefRoot => "Xref"@,
        SegmentView::XrefObject(o) => ref_text(o.num as nat, o.gen as nat),
        SegmentView::PageRoot => "Pages"@,
        SegmentView::Page { index } => "Page["@ + decimal(index as nat) + "]"@,
        SegmentView::DictKey(k) => k,
        SegmentView::ArrayIndex(i) => "["@ + decimal(i as nat) + "]"@,
        SegmentView::IndirectRef(o) => ref_text(o.num as nat, o.gen as nat),
        SegmentView::Stream { object, decoded } => "Stream("@ + ref_text(
            object.num as nat,
            object.gen as nat,
        ) + ","@ + (if decoded {
            "decoded"@
        } else {
            "raw"@
        }) + ")"@,
        SegmentView::ResourceGroup { page_index, group } => "Page["@ + decimal(page_index as nat)
            + "]/"@ + group_name(group),
    }
}

/// Appends how a path step reads in a breadcrumb to `out`.
fn push_segment_text(out: &mut Vec<char>, segment: &NodePathSegment)
    ensures
        final(out)@ == old(out)@ + segment_text(segment@),
{
    let ghost start = out@;
    match segment {
        NodePathSegment::DocumentRoot => push_str(out, "Root"),
        NodePathSegment::Trailer => push_str(out, "Trailer"),
        NodePathSegment::Catalog => push_str(out, "Catalog"),
        NodePathSegment::XrefRoot => push_str(out, "Xref"),
        NodePathSegment::XrefObject(o) => push_ref_text(out, o.num as u64, o.gen as u64),
        NodePathSegment::PageRoot => push_str(out, "Pages"),
        NodePathSegment::Page { index } => {
            push_str(out, "Page[");
            push_decimal(out, *index as u64);
            push_str(out, "]");
            assert(out@ =~= start + segment_text(segment@));
        },
        NodePathSegment::DictKey(k) => {
            let chars = chars_of(k.as_str());
            push_all(out, &chars);
        },
        NodePathSegment::ArrayIndex(i) => {
            push_str(out, "[");
            push_decimal(out, *i as u64);
            push_str(out, "]");
            assert(out@ =~= start + segment_text(segment@));
        },
        NodePathSegment::IndirectRef(o) => push_ref_text(out, o.num as u64, o.gen as u64),
        NodePathSegment::Stream { object, decoded } => {
            push_str(out, "Stream(");
            push_ref_text(out, object.num as u64, object.gen as u64);
            push_str(out, ",");
            if *decoded {
                push_str(out, "decoded");
            } else {
                push_str(out, "raw");
            }
            push_str(out, ")");
            assert(out@ =~= start + segment_text(segment@));
        },
        NodePathSegment::ResourceGroup { page_index, group } => {
            push_str(out, "Page[");
            push_decimal(out, *page_index as u64);
            push_str(out, "]/");
            push_str(out, resource_group_name(*group));
            assert(out@ =~= start + segment_text(segment@));
        },
    }
}

/// How a path step reads in a breadcrumb.
pub fn segment_label(segment: &NodePathSegment) -> (s: String)
    ensures
        s@ == segment_text(segment@),
{
    let mut out: Vec<char> = Vec::new();
    push_segment_text(&mut out, segment);
    assert(out@ =~= segment_text(segment@));
    string_from_chars(&out)
}

/// `parts` joined by `/`.
pub open spec fn join_slash(parts: Seq<Seq<char>>) -> Seq<char>
    decreases parts.len(),
{
    if parts.len() == 0 {
        seq![]
    } else if parts.len() == 1 {
        parts[0]
    } else {
        join_slash(parts.drop_last()) + seq!['/'] + parts.last()
    }
}

/// The breadcrumb of a node: its path steps joined by `/`.
pub open spec fn breadcrumb_text(v: NodeView) -> Seq<char> {
    join_slash(segments_of(v).map_values(|s: SegmentView| segment_text(s)))
}

/// The breadcrumb of `id`, such as `Pages/[0]/Contents`.
pub fn node_breadcrumb(id: &NodeId) -> (s: String)
    ensures
        s@ == breadcrumb_text(id@),
{
    let segs = node_segments(id);
    let ghost parts = segment_views(segs@).map_values(|s: SegmentView| segment_text(s));
    let mut out: Vec<char> = Vec::new();
    let mut i: usize = 0;
    assert(parts.take(0) =~= seq![]);
    while i < segs.len()
        invariant
            0 <= i <= segs@.len(),
            parts == segment_views(segs@).map_values(|s: SegmentView| segment_text(s)),
            out@ == join_slash(parts.take(i as int)),
        decreases segs@.len() - i,
    {
        let ghost before = out@;
        if i > 0 {
            out.push('/');
        }
        push_segment_text(&mut out, &segs[i]);
        assert(parts.take(i + 1).drop_last() =~= parts.take(i as int));
        if i == 0 {
            assert(parts.take(1) =~= seq![parts[0]]);
        }
        i += 1;
    }
    assert(parts.take(i as int) =~= parts);
    string_from_chars(&out)
}

/// The object a node's path names, if any.
pub open spec fn view_object(v: NodeView) -> Option<ObjectId> {
    match v {
        NodeView::XrefObject { object, .. } => Some(object),
        NodeView::IndirectRef { object, .. } => Some(object),
        NodeView::Stream { object, .. } => Some(object),
        _ => None,
    }
}

} // verus!
