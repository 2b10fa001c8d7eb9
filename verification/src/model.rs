//! The document model that the viewer works on: object identities, node
//! paths, object summaries and details, stream chunks and search hits.
//!
//! A node path (`NodeId`) holds dictionary keys as `String`s; its view
//! (`NodeView`) holds them as character sequences, so that two paths are the
//! same exactly when their views are equal.
use vstd::prelude::*;

verus! {

/// An indirect object reference: object number and generation.
#[derive(Clone, Copy, Debug, PartialEq, Eq, Structural)]
pub struct ObjectId {
    pub num: u32,
    pub gen: u16,
}

/// The document a node belongs to.
#[derive(Clone, Copy, Debug, PartialEq, Eq, Structural)]
pub struct DocumentId(pub u64);

/// The kind of a PDF object.
#[derive(Clone, Copy, Debug, PartialEq, Eq, Structural)]
pub enum ObjectKind {
    Null,
    Bool,
    Int,
    Real,
    Name,
    String,
    Array,
    Dict,
    IndirectRef,
    Stream,
    Page,
    XrefEntry,
    Trailer,
    Metadata,
    Unknown,
}

/// A resource dictionary of a page.
#[derive(Clone, Copy, Debug, PartialEq, Eq, Structural)]
pub enum ResourceGroup {
    Fonts,
    XObjects,
    ExtGState,
    ColorSpaces,
    Patterns,
    Shadings,
    Properties,
}

/// Where a node sits in the document's object graph.
#[derive(Debug)]
pub enum NodeId {
    DocumentRoot { doc: DocumentId },
    Trailer { doc: DocumentId },
    Catalog { doc: DocumentId },
    XrefRoot { doc: DocumentId },
    XrefObject { doc: DocumentId, object: ObjectId },
    PageRoot { doc: DocumentId },
    Page { doc: DocumentId, index: usize },
    DictEntry { doc: DocumentId, parent: Box<NodeId>, key: String },
    ArrayEntry { doc: DocumentId, parent: Box<NodeId>, index: usize },
    IndirectRef { doc: DocumentId, parent: Box<NodeId>, object: ObjectId },
    Stream { doc: DocumentId, object: ObjectId, decoded: bool },
    ResourceGroup { doc: DocumentId, page_index: usize, group: ResourceGroup },
}

/// The value of a node path, with keys as character sequences.
pub enum NodeView {
    DocumentRoot { doc: u64 },
    Trailer { doc: u64 },
    Catalog { doc: u64 },
    XrefRoot { doc: u64 },
    XrefObject { doc: u64, object: ObjectId },
    PageRoot { doc: u64 },
    Page { doc: u64, index: usize },
    DictEntry { doc: u64, parent: Box<NodeView>, key: Seq<char> },
    ArrayEntry { doc: u64, parent: Box<NodeView>, index: usize },
    IndirectRef { doc: u64, parent: Box<NodeView>, object: ObjectId },
    Stream { doc: u64, object: ObjectId, decoded: bool },
    ResourceGroup { doc: u64, page_index: usize, group: ResourceGroup },
}

/// The value of a node path.
pub open spec fn node_view(n: NodeId) -> NodeView
    decreases n,
{
    match n {
        NodeId::DocumentRoot { doc } => NodeView::DocumentRoot { doc: doc.0 },
        NodeId::Trailer { doc } => NodeView::Trailer { doc: doc.0 },
        NodeId::Catalog { doc } => NodeView::Catalog { doc: doc.0 },
        NodeId::XrefRoot { doc } => NodeView::XrefRoot { doc: doc.0 },
        NodeId::XrefObject { doc, object } => NodeView::XrefObject { doc: doc.0, object },
        NodeId::PageRoot { doc } => NodeView::PageRoot { doc: doc.0 },
        NodeId::Page { doc, index } => NodeView::Page { doc: doc.0, index },
        NodeId::DictEntry { doc, parent, key } => NodeView::DictEntry {
            doc: doc.0,
            parent: Box::new(node_view(*parent)),
            key: key@,
        },
        NodeId::ArrayEntry { doc, parent, index } => NodeView::ArrayEntry {
            doc: doc.0,
            parent: Box::new(node_view(*parent)),
            index,
        },
        NodeId::IndirectRef { doc, parent, object } => NodeView::IndirectRef {
            doc: doc.0,
            parent: Box::new(node_view(*parent)),
            object,
        },
        NodeId::Stream { doc, object, decoded } => NodeView::Stream { doc: doc.0, object, decoded },
        NodeId::ResourceGroup { doc, page_index, group } => NodeView::ResourceGroup {
            doc: doc.0,
            page_index,
            group,
        },
    }
}

impl View for NodeId {
    type V = NodeView;

    open spec fn view(&self) -> NodeView {
        node_view(*self)
    }
}

impl NodeId {
    /// The document this node belongs to.
    pub fn document_id(&self) -> (d: DocumentId)
        ensures
            d == node_doc(*self),
    {
        match self {
            NodeId::DocumentRoot { doc } => *doc,
            NodeId::Trailer { doc } => *doc,
            NodeId::Catalog { doc } => *doc,
            NodeId::XrefRoot { doc } => *doc,
            NodeId::XrefObject { doc, .. } => *doc,
            NodeId::PageRoot { doc } => *doc,
            NodeId::Page { doc, .. } => *doc,
            NodeId::DictEntry { doc, .. } => *doc,
            NodeId::ArrayEntry { doc, .. } => *doc,
            NodeId::IndirectRef { doc, .. } => *doc,
            NodeId::Stream { doc, .. } => *doc,
            NodeId::ResourceGroup { doc, .. } => *doc,
        }
    }

    /// The object this node stands for, where the path names one.
    pub fn object_id(&self) -> (o: Option<ObjectId>)
        ensures
            o == node_object(*self),
            o == crate::node::view_object(self@),
    {
        match self {
            NodeId::XrefObject { object, .. } => Some(*object),
            NodeId::IndirectRef { object, .. } => Some(*object),
            NodeId::Stream { object, .. } => Some(*object),
            _ => None,
        }
    }

    /// A copy of this path.
    pub fn copy(&self) -> (c: NodeId)
        ensures
            c == *self,
        decreases self,
    {
        match self {
            NodeId::DocumentRoot { doc } => NodeId::DocumentRoot { doc: *doc },
            NodeId::Trailer { doc } => NodeId::Trailer { doc: *doc },
            NodeId::Catalog { doc } => NodeId::Catalog { doc: *doc },
            NodeId::XrefRoot { doc } => NodeId::XrefRoot { doc: *doc },
            NodeId::XrefObject { doc, object } => NodeId::XrefObject { doc: *doc, object: *object },
            NodeId::PageRoot { doc } => NodeId::PageRoot { doc: *doc },
            NodeId::Page { doc, index } => NodeId::Page { doc: *doc, index: *index },
            NodeId::DictEntry { doc, parent, key } => NodeId::DictEntry {
                doc: *doc,
                parent: Box::new((**parent).copy()),
                key: key.clone(),
            },
            NodeId::ArrayEntry { doc, parent, index } => NodeId::ArrayEntry {
                doc: *doc,
                parent: Box::new((**parent).copy()),
                index: *index,
            },
            NodeId::IndirectRef { doc, parent, object } => NodeId::IndirectRef {
                doc: *doc,
                parent: Box::new((**parent).copy()),
                object: *object,
            },
            NodeId::Stream { doc, object, decoded } => NodeId::Stream {
                doc: *doc,
                object: *object,
                decoded: *decoded,
            },
            NodeId::ResourceGroup { doc, page_index, group } => NodeId::ResourceGroup {
                doc: *doc,
                page_index: *page_index,
                group: *group,
            },
        }
    }

    /// Whether two paths name the same node.
    pub fn same(&self, other: &NodeId) -> (b: bool)
        ensures
            b == (self@ == other@),
        decreases self,
    {
        match (self, other) {
            (NodeId::DocumentRoot { doc: a }, NodeId::DocumentRoot { doc: b }) => a.0 == b.0,
            (NodeId::Trailer { doc: a }, NodeId::Trailer { doc: b }) => a.0 == b.0,
            (NodeId::Catalog { doc: a }, NodeId::Catalog { doc: b }) => a.0 == b.0,
            (NodeId::XrefRoot { doc: a }, NodeId::XrefRoot { doc: b }) => a.0 == b.0,
            (
                NodeId::XrefObject { doc: a, object: oa },
                NodeId::XrefObject { doc: b, object: ob },
            ) => a.0 == b.0 && oa.num == ob.num && oa.gen == ob.gen,
            (NodeId::PageRoot { doc: a }, NodeId::PageRoot { doc: b }) => a.0 == b.0,
            (NodeId::Page { doc: a, index: ia }, NodeId::Page { doc: b, index: ib }) => a.0 == b.0
                && *ia == *ib,
            (
                NodeId::DictEntry { doc: a, parent: pa, key: ka },
                NodeId::DictEntry { doc: b, parent: pb, key: kb },
            ) => {
                if a.0 != b.0 || !(*ka == *kb) {
                    false
                } else {
                    (**pa).same(&**pb)
                }
            },
            (
                NodeId::ArrayEntry { doc: a, parent: pa, index: ia },
                NodeId::ArrayEntry { doc: b, parent: pb, index: ib },
            ) => {
                if a.0 != b.0 || *ia != *ib {
                    false
                } else {
                    (**pa).same(&**pb)
                }
            },
            (
                NodeId::IndirectRef { doc: a, parent: pa, object: oa },
                NodeId::IndirectRef { doc: b, parent: pb, object: ob },
            ) => {
                if a.0 != b.0 || oa.num != ob.num || oa.gen != ob.gen {
                    false
                } else {
                    (**pa).same(&**pb)
                }
            },
            (
                NodeId::Stream { doc: a, object: oa, decoded: da },
                NodeId::Stream { doc: b, object: ob, decoded: db },
            ) => a.0 == b.0 && oa.num == ob.num && oa.gen == ob.gen && *da == *db,
            (
                NodeId::ResourceGroup { doc: a, page_index: ia, group: ga },
                NodeId::ResourceGroup { doc: b, page_index: ib, group: gb },
            ) => a.0 == b.0 && *ia == *ib && *ga == *gb,
            _ => false,
        }
    }
}

impl Clone for NodeId {
    fn clone(&self) -> (c: NodeId)
        ensures
            c == *self,
    {
        self.copy()
    }
}

/// The document of a node.
pub open spec fn node_doc(n: NodeId) -> DocumentId {
    match n {
        NodeId::DocumentRoot { doc } => doc,
        NodeId::Trailer { doc } => doc,
        NodeId::Catalog { doc } => doc,
        NodeId::XrefRoot { doc } => doc,
        NodeId::XrefObject { doc, .. } => doc,
        NodeId::PageRoot { doc } => doc,
        NodeId::Page { doc, .. } => doc,
        NodeId::DictEntry { doc, .. } => doc,
        NodeId::ArrayEntry { doc, .. } => doc,
        NodeId::IndirectRef { doc, .. } => doc,
        NodeId::Stream { doc, .. } => doc,
        NodeId::ResourceGroup { doc, .. } => doc,
    }
}

/// The object a node names, where its path names one.
pub open spec fn node_object(n: NodeId) -> Option<ObjectId> {
    match n {
        NodeId::XrefObject { object, .. } => Some(object),
        NodeId::IndirectRef { object, .. } => Some(object),
        NodeId::Stream { object, .. } => Some(object),
        _ => None,
    }
}

/// How serious a diagnostic is.
#[derive(Clone, Copy, Debug, PartialEq, Eq, Structural)]
pub enum DiagnosticSeverity {
    Info,
    Warning,
    Error,
}

/// A problem found while reading the document.
#[derive(Clone, Debug)]
pub struct DiagnosticSummary {
    pub severity: DiagnosticSeverity,
    pub code: String,
    pub message: String,
    pub page_index: Option<usize>,
    pub object: Option<ObjectId>,
}

/// The value of a diagnostic.
pub struct DiagnosticView {
    pub severity: DiagnosticSeverity,
    pub code: Seq<char>,
    pub message: Seq<char>,
    pub page_index: Option<usize>,
    pub object: Option<ObjectId>,
}

impl View for DiagnosticSummary {
    type V = DiagnosticView;

    open spec fn view(&self) -> DiagnosticView {
        DiagnosticView {
            severity: self.severity,
            code: self.code@,
            message: self.message@,
            page_index: self.page_index,
            object: self.object,
        }
    }
}

/// The values of a list of diagnostics.
pub open spec fn diagnostic_views(v: Seq<DiagnosticSummary>) -> Seq<DiagnosticView> {
    Seq::new(v.len(), |i: int| v[i]@)
}

/// A copy of a list of diagnostics.
pub fn copy_diagnostics(v: &Vec<DiagnosticSummary>) -> (c: Vec<DiagnosticSummary>)
    ensures
        diagnostic_views(c@) == diagnostic_views(v@),
{
    let mut c: Vec<DiagnosticSummary> = Vec::new();
    let mut i: usize = 0;
    while i < v.len()
        invariant
            0 <= i <= v@.len(),
            diagnostic_views(c@) == diagnostic_views(v@).take(i as int),
        decreases v@.len() - i,
    {
        let d = DiagnosticSummary {
            severity: v[i].severity,
            code: v[i].code.clone(),
            message: v[i].message.clone(),
            page_index: v[i].page_index,
            object: v[i].object,
        };
        let ghost before = diagnostic_views(c@);
        c.push(d);
        assert(diagnostic_views(c@) =~= before.push(v@[i as int]@));
        assert(diagnostic_views(v@).take(i + 1) =~= diagnostic_views(v@).take(i as int).push(
            v@[i as int]@,
        ));
        i += 1;
    }
    assert(diagnostic_views(v@).take(i as int) =~= diagnostic_views(v@));
    c
}

/// A one-line summary of a node, as the tree shows it.
#[derive(Debug)]
pub struct ObjectSummary {
    pub id: NodeId,
    pub kind: ObjectKind,
    pub label: String,
    pub preview: String,
    pub object: Option<ObjectId>,
    pub has_children: bool,
    pub has_stream: bool,
    pub child_count: Option<usize>,
    pub byte_size_hint: Option<u64>,
    pub diagnostics: Vec<DiagnosticSummary>,
}

/// The value of an object summary.
pub struct SummaryView {
    pub id: NodeView,
    pub kind: ObjectKind,
    pub label: Seq<char>,
    pub preview: Seq<char>,
    pub object: Option<ObjectId>,
    pub has_children: bool,
    pub has_stream: bool,
    pub child_count: Option<usize>,
    pub byte_size_hint: Option<u64>,
    pub diagnostics: Seq<DiagnosticView>,
}

impl View for ObjectSummary {
    type V = SummaryView;

    open spec fn view(&self) -> SummaryView {
        SummaryView {
            id: self.id@,
            kind: self.kind,
            label: self.label@,
            preview: self.preview@,
            object: self.object,
            has_children: self.has_children,
            has_stream: self.has_stream,
            child_count: self.child_count,
            byte_size_hint: self.byte_size_hint,
            diagnostics: diagnostic_views(self.diagnostics@),
        }
    }
}

impl ObjectSummary {
    /// A copy of this summary.
    pub fn copy(&self) -> (c: ObjectSummary)
        ensures
            c@ == self@,
    {
        ObjectSummary {
            id: self.id.copy(),
            kind: self.kind,
            label: self.label.clone(),
            preview: self.preview.clone(),
            object: self.object,
            has_children: self.has_children,
            has_stream: self.has_stream,
            child_count: self.child_count,
            byte_size_hint: self.byte_size_hint,
            diagnostics: copy_diagnostics(&self.diagnostics),
        }
    }
}

impl Clone for ObjectSummary {
    fn clone(&self) -> (c: ObjectSummary)
        ensures
            c@ == self@,
    {
        self.copy()
    }
}

/// The values of a list of summaries.
pub open spec fn summary_views(v: Seq<ObjectSummary>) -> Seq<SummaryView> {
    Seq::new(v.len(), |i: int| v[i]@)
}

/// A bounded page of children: the items loaded and, when known, how many
/// there are in all.
#[derive(Clone, Debug)]
pub struct ChildPage<T> {
    pub total: Option<usize>,
    pub items: Vec<T>,
}

/// A dictionary entry: its key and a summary of its value.
#[derive(Clone, Debug)]
pub struct DictEntrySummary {
    pub key: String,
    pub value: ObjectSummary,
}

/// The decoded value of an object, as far as the inspector shows it. A real
/// number is held by the bits of its `f64`.
#[derive(Clone, Debug)]
pub enum ObjectValue {
    Null,
    Bool(bool),
    Int(i64),
    Real(u64),
    Name(String),
    StringBytes { bytes: Vec<u8>, decoded_text: Option<String> },
    IndirectRef(ObjectId),
    Container,
    Unknown,
}

/// How stream bytes are read: as stored, or with their filters applied.
#[derive(Clone, Copy, Debug, PartialEq, Eq, Structural)]
pub enum StreamMode {
    Raw,
    Decoded,
}

/// How stream bytes are shown.
#[derive(Clone, Copy, Debug, PartialEq, Eq, Structural)]
pub enum StreamViewMode {
    Hex,
    Text,
    Bytes,
}

/// What is known of a stream before its bytes are read.
#[derive(Clone, Debug)]
pub struct StreamSummary {
    pub object: ObjectId,
    pub filters: Vec<String>,
    pub raw_size_hint: Option<u64>,
    pub decoded_size_hint: Option<u64>,
    pub can_decode: bool,
    pub image_preview_available: bool,
}

/// A window of a stream's bytes.
#[derive(Clone, Debug)]
pub struct StreamChunk {
    pub mode: StreamMode,
    pub offset: u64,
    pub bytes: Vec<u8>,
    pub total_size: Option<u64>,
    pub truncated: bool,
    pub decode_diagnostics: Vec<DiagnosticSummary>,
}

/// Everything the inspector knows of one node.
#[derive(Clone, Debug)]
pub struct ObjectDetail {
    pub id: NodeId,
    pub kind: ObjectKind,
    pub object: Option<ObjectId>,
    pub label: String,
    pub preview: String,
    pub value: ObjectValue,
    pub dictionary_entries: Option<ChildPage<DictEntrySummary>>,
    pub array_entries: Option<ChildPage<ObjectSummary>>,
    pub stream: Option<StreamSummary>,
    pub diagnostics: Vec<DiagnosticSummary>,
}

/// Which part of a node an object search matched.
#[derive(Clone, Copy, Debug, PartialEq, Eq, Structural)]
pub enum ObjectSearchField {
    ObjectNumber,
    DictionaryKey,
    NameObject,
    ScalarPreview,
    Label,
}

/// One hit of an object search.
#[derive(Clone, Debug)]
pub struct ObjectSearchHit {
    pub label: String,
    pub matched_field: ObjectSearchField,
    pub excerpt: String,
    pub object: Option<ObjectId>,
    pub node: Option<NodeId>,
    pub depth: usize,
}

/// One hit of a text search: where it is and the text around it.
#[derive(Clone, Debug)]
pub struct TextSearchHit {
    pub page_index: usize,
    pub span_index: usize,
    pub excerpt: String,
    pub untrusted: bool,
}

/// The outcome of a bounded object search.
#[derive(Clone, Debug)]
pub struct ObjectSearchResult {
    pub hits: Vec<ObjectSearchHit>,
    pub searched_nodes: usize,
    pub truncated: bool,
}

/// A page whose text could not be extracted during a search.
#[derive(Clone, Debug)]
pub struct TextSearchPageError {
    pub page_index: usize,
    pub message: String,
}

/// The outcome of a bounded text search.
#[derive(Clone, Debug)]
pub struct TextSearchResult {
    pub hits: Vec<TextSearchHit>,
    pub searched_pages: usize,
    pub cache_hits: usize,
    pub page_errors: Vec<TextSearchPageError>,
    pub truncated: bool,
}

/// What the viewer knows of an open document as a whole.
#[derive(Clone, Debug)]
pub struct DocumentFacts {
    pub doc: DocumentId,
    pub file_path: String,
    pub page_count: usize,
    pub xref_size: usize,
    pub diagnostics: Vec<DiagnosticSummary>,
}

/// Text made safe to show or copy, and whether it was cut short.
#[derive(Clone, Debug)]
pub struct EscapedText {
    pub text: String,
    pub truncated: bool,
}

} // verus!
