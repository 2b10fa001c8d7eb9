//! The object tree as the viewer lists it: a flat list of rows, each with
//! its depth, expanded on demand.
//!
//! The rows of a node's subtree follow it directly and are deeper than it;
//! expanding a row inserts its children right after it, collapsing removes
//! everything deeper that follows.
use vstd::prelude::*;
use crate::labels::{child_detail, summary_inline_text, summary_line, tree_badge, tree_kind_badge_text};
use crate::model::{
    copy_diagnostics, diagnostic_views, ChildPage, DiagnosticSummary, DocumentId, NodeId, NodeView,
    ObjectDetail, ObjectId, ObjectKind, ObjectSearchHit, ObjectSummary, SummaryView,
    summary_views,
};
use crate::node::{
    is_content_stream_view, is_page_content_stream_node, is_page_root_node, is_page_root_view,
    is_page_row_for, is_page_row_node_for_index, page_index_for_node, page_index_of,
    summary_has_stream, view_has_stream,
};
use crate::text::{decimal, push_all, push_decimal, push_ref_text, push_str, ref_text, chars_of,
    string_from_chars};

verus! {

/// One row of the tree: a node's summary, its depth and whether its
/// children are listed.
#[derive(Clone, Debug)]
pub struct RealTreeRow {
    pub summary: ObjectSummary,
    pub depth: usize,
    pub expanded: bool,
}

/// The value of a tree row.
pub struct RowView {
    pub summary: SummaryView,
    pub depth: usize,
    pub expanded: bool,
}

impl View for RealTreeRow {
    type V = RowView;

    open spec fn view(&self) -> RowView {
        RowView { summary: self.summary@, depth: self.depth, expanded: self.expanded }
    }
}

/// The values of a list of rows.
pub open spec fn row_views(v: Seq<RealTreeRow>) -> Seq<RowView> {
    Seq::new(v.len(), |i: int| v[i]@)
}

impl RealTreeRow {
    /// A copy of this row.
    pub fn copy(&self) -> (c: RealTreeRow)
        ensures
            c@ == self@,
    {
        RealTreeRow { summary: self.summary.copy(), depth: self.depth, expanded: self.expanded }
    }
}

/// The tree of a real document: the rows listed, the document root's
/// children as first loaded, and how many children the root has in all.
#[derive(Clone, Debug)]
pub struct RealObjectTree {
    pub rows: Vec<RealTreeRow>,
    pub root_children: Vec<ObjectSummary>,
    pub total: Option<usize>,
}

/// Where a row's subtree ends: the first row from `e` on that is not deeper
/// than `depth`.
pub open spec fn scan_end(rows: Seq<RowView>, depth: usize, e: int) -> int
    decreases rows.len() - e,
{
    if 0 <= e < rows.len() && rows[e].depth > depth {
        scan_end(rows, depth, e + 1)
    } else {
        e
    }
}

/// Where the subtree of `row` ends (the row count for a row that does not
/// exist).
pub open spec fn subtree_end_of(rows: Seq<RowView>, row: int) -> int {
    if 0 <= row < rows.len() {
        scan_end(rows, rows[row].depth, row + 1)
    } else {
        rows.len() as int
    }
}

pub proof fn lemma_scan_end(rows: Seq<RowView>, depth: usize, e: int)
    requires
        0 <= e <= rows.len(),
    ensures
        e <= scan_end(rows, depth, e) <= rows.len(),
        forall|k: int| e <= k < scan_end(rows, depth, e) ==> rows[k].depth > depth,
        scan_end(rows, depth, e) < rows.len() ==> rows[scan_end(rows, depth, e)].depth <= depth,
    decreases rows.len() - e,
{
    if e < rows.len() && rows[e].depth > depth {
        lemma_scan_end(rows, depth, e + 1);
    }
}

/// A summary with the given identity and labels, for a node whose detail
/// is not loaded yet.
pub open spec fn placeholder(
    id: NodeView,
    label: Seq<char>,
    preview: Seq<char>,
    object: Option<ObjectId>,
) -> SummaryView {
    SummaryView {
        id,
        kind: ObjectKind::Unknown,
        label,
        preview,
        object,
        has_children: true,
        has_stream: false,
        child_count: None,
        byte_size_hint: None,
        diagnostics: seq![],
    }
}

/// Rows at `depth`, collapsed, for the given summaries.
pub open spec fn rows_at(summaries: Seq<SummaryView>, depth: usize) -> Seq<RowView> {
    Seq::new(summaries.len(), |i: int| RowView { summary: summaries[i], depth, expanded: false })
}

/// The tree of a first page of the root's children: a `Document` row at
/// depth 0 (when there is any child) followed by the children at depth 1.
pub open spec fn initial_rows(doc: DocumentId, items: Seq<SummaryView>, total: Option<usize>) -> Seq<
    RowView,
> {
    if items.len() > 0 {
        seq![
            RowView {
                summary: SummaryView {
                    id: NodeView::DocumentRoot { doc: doc.0 },
                    kind: ObjectKind::Unknown,
                    label: "Document"@,
                    preview: "PDF object graph"@,
                    object: None,
                    has_children: true,
                    has_stream: false,
                    child_count: total,
                    byte_size_hint: None,
                    diagnostics: seq![],
                },
                depth: 0,
                expanded: true,
            },
        ] + rows_at(items, 1)
    } else {
        seq![]
    }
}

/// Rows for `summaries` at `depth`, collapsed.
fn child_rows(summaries: &Vec<ObjectSummary>, depth: usize) -> (rows: Vec<RealTreeRow>)
    ensures
        row_views(rows@) == rows_at(summary_views(summaries@), depth),
{
    let mut rows: Vec<RealTreeRow> = Vec::new();
    let mut i: usize = 0;
    while i < summaries.len()
        invariant
            0 <= i <= summaries@.len(),
            row_views(rows@) == rows_at(summary_views(summaries@), depth).take(i as int),
        decreases summaries@.len() - i,
    {
        let ghost before = row_views(rows@);
        let row = RealTreeRow { summary: summaries[i].copy(), depth, expanded: false };
        rows.push(row);
        assert(row_views(rows@) =~= before.push(row@));
        assert(rows_at(summary_views(summaries@), depth).take(i + 1) =~= rows_at(
            summary_views(summaries@),
            depth,
        ).take(i as int).push(row@));
        i += 1;
    }
    assert(rows_at(summary_views(summaries@), depth).take(i as int) =~= rows_at(
        summary_views(summaries@),
        depth,
    ));
    rows
}

/// A copy of a list of summaries.
fn copy_summaries(v: &Vec<ObjectSummary>) -> (c: Vec<ObjectSummary>)
    ensures
        summary_views(c@) == summary_views(v@),
{
    let mut c: Vec<ObjectSummary> = Vec::new();
    let mut i: usize = 0;
    while i < v.len()
        invariant
            0 <= i <= v@.len(),
            summary_views(c@) == summary_views(v@).take(i as int),
        decreases v@.len() - i,
    {
        let ghost before = summary_views(c@);
        c.push(v[i].copy());
        assert(summary_views(c@) =~= before.push(v@[i as int]@));
        assert(summary_views(v@).take(i + 1) =~= summary_views(v@).take(i as int).push(
            v@[i as int]@,
        ));
        i += 1;
    }
    assert(summary_views(v@).take(i as int) =~= summary_views(v@));
    c
}

/// Whether the first row is the document root.
pub open spec fn has_root_row(rows: Seq<RowView>) -> bool {
    rows.len() > 0 && rows[0].summary.id is DocumentRoot
}

/// The first row satisfying a node predicate, as found by a scan.
pub open spec fn first_row_where(rows: Seq<RowView>, p: spec_fn(RowView) -> bool) -> Option<nat>
    decreases rows.len(),
{
    if rows.len() == 0 {
        None
    } else {
        match first_row_where(rows.drop_last(), p) {
            Some(i) => Some(i),
            None => if p(rows.last()) {
                Some((rows.len() - 1) as nat)
            } else {
                None
            },
        }
    }
}

pub proof fn lemma_first_row_where(rows: Seq<RowView>, p: spec_fn(RowView) -> bool)
    ensures
        match first_row_where(rows, p) {
            Some(i) => i < rows.len() && p(rows[i as int]) && forall|k: int|
                0 <= k < i ==> !p(#[trigger] rows[k]),
            None => forall|k: int| 0 <= k < rows.len() ==> !p(#[trigger] rows[k]),
        },
    decreases rows.len(),
{
    if rows.len() > 0 {
        lemma_first_row_where(rows.drop_last(), p);
        assert forall|k: int| 0 <= k < rows.len() - 1 implies rows.drop_last()[k] == rows[k] by {}
    }
}

/// Whether a row is the page tree root.
pub open spec fn is_page_root_row(r: RowView) -> bool {
    is_page_root_view(r.summary.id)
}

/// Whether a row is the page tree root, as a predicate.
pub open spec fn page_root_pred() -> spec_fn(RowView) -> bool {
    |r: RowView| is_page_root_row(r)
}

/// Whether a row stands for object `object`.
pub open spec fn row_has_object(object: ObjectId) -> spec_fn(RowView) -> bool {
    |r: RowView| r.summary.object == Some(object)
}

/// Whether a row stands for node `node`.
pub open spec fn row_has_node(node: NodeView) -> spec_fn(RowView) -> bool {
    |r: RowView| r.summary.id == node
}

/// Whether a row is the row of page `page_index`.
pub open spec fn row_is_page(page_index: usize) -> spec_fn(RowView) -> bool {
    |r: RowView| is_page_row_for(r.summary.id, page_index)
}

impl RealObjectTree {
    /// The values of the rows.
    pub open spec fn row_values(&self) -> Seq<RowView> {
        row_views(self.rows@)
    }

    /// The tree of a first page of the document root's children.
    pub fn from_child_page(page: &ChildPage<ObjectSummary>) -> (t: RealObjectTree)
        ensures
            t.row_values() == (if page.items@.len() > 0 {
                initial_rows(crate::model::node_doc(page.items@[0].id), summary_views(page.items@), page.total)
            } else {
                seq![]
            }),
            summary_views(t.root_children@) == summary_views(page.items@),
            t.total == page.total,
    {
        let mut rows: Vec<RealTreeRow> = Vec::new();
        if page.items.len() > 0 {
            let doc = page.items[0].id.document_id();
            let diagnostics: Vec<DiagnosticSummary> = Vec::new();
            let root = RealTreeRow {
                summary: ObjectSummary {
                    id: NodeId::DocumentRoot { doc },
                    kind: ObjectKind::Unknown,
                    label: String::from_str("Document"),
                    preview: String::from_str("PDF object graph"),
                    object: None,
                    has_children: true,
                    has_stream: false,
                    child_count: page.total,
                    byte_size_hint: None,
                    diagnostics,
                },
                depth: 0,
                expanded: true,
            };
            rows.push(root);
            assert(diagnostic_views(Seq::<DiagnosticSummary>::empty()) =~= seq![]);
            let mut children = child_rows(&page.items, 1);
            let ghost first = row_views(rows@);
            let ghost rest = row_views(children@);
            rows.append(&mut children);
            assert(row_views(rows@) =~= first + rest);
        }
        let t = RealObjectTree {
            rows,
            root_children: copy_summaries(&page.items),
            total: page.total,
        };
        assert(page.items@.len() == 0 ==> t.row_values() =~= seq![]);
        t
    }

    /// How many rows the tree shows (at least one, for the empty notice).
    pub fn row_count(&self) -> (n: usize)
        ensures
            n == (if self.rows@.len() > 0 {
                self.rows@.len() as int
            } else {
                1
            }),
    {
        if self.rows.len() > 0 {
            self.rows.len()
        } else {
            1
        }
    }

    /// Whether the first row is the document root.
    pub fn has_document_root_row(&self) -> (b: bool)
        ensures
            b == has_root_row(self.row_values()),
    {
        if self.rows.len() == 0 {
            return false;
        }
        assert(self.row_values()[0] == self.rows@[0]@);
        match &self.rows[0].summary.id {
            NodeId::DocumentRoot { .. } => true,
            _ => false,
        }
    }

    /// How many of the document root's children are listed.
    pub fn loaded_child_count(&self) -> (n: usize)
        ensures
            n == (if has_root_row(self.row_values()) {
                self.rows@.len() - 1
            } else {
                self.rows@.len() as int
            }),
    {
        if self.has_document_root_row() {
            self.rows.len() - 1
        } else {
            self.rows.len()
        }
    }

    /// The row selected first: the first child when the root row is listed
    /// with children under it, else the first row.
    pub fn initial_selected_row(&self) -> (r: usize)
        ensures
            r == (if has_root_row(self.row_values()) && self.rows@.len() > 1 {
                1int
            } else {
                0
            }),
    {
        if self.has_document_root_row() && self.rows.len() > 1 {
            1
        } else {
            0
        }
    }

    /// How many of the root's children are loaded, out of how many.
    pub fn row_count_label(&self) -> (s: String)
        ensures
            s@ == child_detail(
                self.total,
                (if has_root_row(self.row_values()) {
                    self.rows@.len() - 1
                } else {
                    self.rows@.len() as int
                }) as nat,
            ),
    {
        crate::labels::child_page_detail(self.total, self.loaded_child_count())
    }

    /// The summary of `row`, if the row exists.
    pub fn summary(&self, row: usize) -> (s: Option<&ObjectSummary>)
        ensures
            row < self.rows@.len() ==> s == Some(&self.rows@[row as int].summary),
            row >= self.rows@.len() ==> s is None,
    {
        if row < self.rows.len() {
            Some(&self.rows[row].summary)
        } else {
            None
        }
    }

    /// The first row that satisfies `p`, by a scan from the top.
    fn find_row(&self, Ghost(p): Ghost<spec_fn(RowView) -> bool>, which: u8, node: Option<&NodeId>, object: Option<ObjectId>, page_index: usize) -> (r: Option<usize>)
        requires
            which == 0 ==> p == (page_root_pred()),
            which == 1 ==> node is Some && p == row_has_node(node->0@),
            which == 2 ==> object is Some && p == row_has_object(object->0),
            which == 3 ==> p == row_is_page(page_index),
            which <= 3,
        ensures
            r == (match first_row_where(self.row_values(), p) {
                Some(i) => Some(i as usize),
                None => None::<usize>,
            }),
    {
        proof {
            lemma_first_row_where(self.row_values(), p);
        }
        let mut i: usize = 0;
        while i < self.rows.len()
            invariant
                0 <= i <= self.rows@.len(),
                which == 0 ==> p == page_root_pred(),
                which == 1 ==> node is Some && p == row_has_node(node->0@),
                which == 2 ==> object is Some && p == row_has_object(object->0),
                which == 3 ==> p == row_is_page(page_index),
                which <= 3,
                forall|k: int| 0 <= k < i ==> !p(#[trigger] self.row_values()[k]),
                match first_row_where(self.row_values(), p) {
                    Some(f) => f < self.rows@.len() && p(self.row_values()[f as int]) && forall|
                        k: int,
                    | 0 <= k < f ==> !p(#[trigger] self.row_values()[k]),
                    None => forall|k: int|
                        0 <= k < self.rows@.len() ==> !p(#[trigger] self.row_values()[k]),
                },
            decreases self.rows@.len() - i,
        {
            let id = &self.rows[i].summary.id;
            let hit = if which == 0 {
                is_page_root_node(id)
            } else if which == 1 {
                match node {
                    Some(n) => id.same(n),
                    None => false,
                }
            } else if which == 2 {
                match object {
                    Some(o) => match self.rows[i].summary.object {
                        Some(x) => x.num == o.num && x.gen == o.gen,
                        None => false,
                    },
                    None => false,
                }
            } else {
                is_page_row_node_for_index(id, page_index)
            };
            assert(self.row_values()[i as int] == self.rows@[i as int]@);
            assert(hit == p(self.row_values()[i as int]));
            if hit {
                return Some(i);
            }
            i += 1;
        }
        None
    }

    /// The row of the page tree root: the `/Pages` entry or the page root
    /// node.
    pub fn page_root_row(&self) -> (r: Option<usize>)
        ensures
            r == (match first_row_where(self.row_values(), page_root_pred()) {
                Some(i) => Some(i as usize),
                None => None::<usize>,
            }),
    {
        self.find_row(Ghost(page_root_pred()), 0, None, None, 0)
    }

    /// The summary of the page tree root's row.
    pub fn page_root_summary(&self) -> (s: Option<&ObjectSummary>)
        ensures
            match first_row_where(self.row_values(), page_root_pred()) {
                Some(i) => s == Some(&self.rows@[i as int].summary),
                None => s is None,
            },
    {
        proof {
            lemma_first_row_where(self.row_values(), page_root_pred());
        }
        let n = self.rows.len();
        assert(self.row_values().len() == n);
        match self.page_root_row() {
            Some(i) => {
                assert(first_row_where(self.row_values(), page_root_pred()) == Some(i as nat));
                Some(&self.rows[i].summary)
            },
            None => {
                assert(first_row_where(self.row_values(), page_root_pred()) is None);
                None
            },
        }
    }

    /// The row of node `node`, if it is listed.
    pub fn row_for_node(&self, node: &NodeId) -> (r: Option<usize>)
        ensures
            r == (match first_row_where(self.row_values(), row_has_node(node@)) {
                Some(i) => Some(i as usize),
                None => None::<usize>,
            }),
    {
        self.find_row(Ghost(row_has_node(node@)), 1, Some(node), None, 0)
    }

    /// The first row of object `object`, if it is listed.
    pub fn row_for_object(&self, object: ObjectId) -> (r: Option<usize>)
        ensures
            r == (match first_row_where(self.row_values(), row_has_object(object)) {
                Some(i) => Some(i as usize),
                None => None::<usize>,
            }),
    {
        self.find_row(Ghost(row_has_object(object)), 2, None, Some(object), 0)
    }

    /// The row of page `page_index` itself, if it is listed.
    pub fn row_for_page_index(&self, page_index: usize) -> (r: Option<usize>)
        ensures
            r == (match first_row_where(self.row_values(), row_is_page(page_index)) {
                Some(i) => Some(i as usize),
                None => None::<usize>,
            }),
    {
        self.find_row(Ghost(row_is_page(page_index)), 3, None, None, page_index)
    }

    /// How a row reads in one line; a notice when the row does not exist.
    pub fn row_label(&self, row: usize) -> (s: String)
        ensures
            row < self.rows@.len() ==> s@ == summary_line(self.rows@[row as int].summary@),
            row >= self.rows@.len() ==> s@ == "no real rows loaded"@,
    {
        match self.summary(row) {
            Some(summary) => summary_inline_text(summary),
            None => String::from_str("no real rows loaded"),
        }
    }

    /// The depth of a row.
    pub fn row_depth(&self, row: usize) -> (d: Option<usize>)
        ensures
            row < self.rows@.len() ==> d == Some(self.rows@[row as int].depth),
            row >= self.rows@.len() ==> d is None,
    {
        if row < self.rows.len() {
            Some(self.rows[row].depth)
        } else {
            None
        }
    }

    /// The marker before a row: blank for a leaf, `-` when expanded, `+`
    /// when collapsed.
    pub fn row_tree_marker(&self, row: usize) -> (m: Option<&'static str>)
        ensures
            row >= self.rows@.len() ==> m is None,
            row < self.rows@.len() ==> (m matches Some(s) && s@ == (if !self.rows@[row as int].summary.has_children {
                " "@
            } else if self.rows@[row as int].expanded {
                "-"@
            } else {
                "+"@
            })),
    {
        if row >= self.rows.len() {
            return None;
        }
        let r = &self.rows[row];
        if !r.summary.has_children {
            return Some(" ");
        }
        if r.expanded {
            Some("-")
        } else {
            Some("+")
        }
    }

    /// The page a row belongs to, if any.
    pub fn row_page_index(&self, row: usize) -> (p: Option<usize>)
        ensures
            row < self.rows@.len() ==> p == page_index_of(self.rows@[row as int].summary.id@),
            row >= self.rows@.len() ==> p is None,
    {
        if row < self.rows.len() {
            page_index_for_node(&self.rows[row].summary.id)
        } else {
            None
        }
    }

    /// Where the subtree of `row` ends: the first row after it that is not
    /// deeper, or the row count.
    pub fn subtree_end(&self, row: usize) -> (e: usize)
        ensures
            e == subtree_end_of(self.row_values(), row as int),
    {
        if row >= self.rows.len() {
            return self.rows.len();
        }
        let depth = self.rows[row].depth;
        let ghost rv = self.row_values();
        assert(rv[row as int].depth == depth);
        let mut end = row + 1;
        while end < self.rows.len() && self.rows[end].depth > depth
            invariant
                row < end <= self.rows@.len(),
                rv == self.row_values(),
                scan_end(rv, depth, end as int) == scan_end(rv, depth, row + 1),
            decreases self.rows@.len() - end,
        {
            assert(rv[end as int] == self.rows@[end as int]@);
            end += 1;
        }
        if end < self.rows.len() {
            assert(rv[end as int] == self.rows@[end as int]@);
        }
        end
    }
}

/// The first row in `lo..hi` satisfying `p`.
pub open spec fn first_in(rows: Seq<RowView>, lo: int, hi: int, p: spec_fn(RowView) -> bool) -> Option<
    int,
>
    decreases hi - lo,
{
    if lo >= hi {
        None
    } else if p(rows[lo]) {
        Some(lo)
    } else {
        first_in(rows, lo + 1, hi, p)
    }
}

/// All rows in `lo..hi` satisfying `p`, in order.
pub open spec fn all_in(rows: Seq<RowView>, lo: int, hi: int, p: spec_fn(RowView) -> bool) -> Seq<
    int,
>
    decreases hi - lo,
{
    if lo >= hi {
        seq![]
    } else {
        (if p(rows[lo]) {
            seq![lo]
        } else {
            seq![]
        }) + all_in(rows, lo + 1, hi, p)
    }
}

/// A content stream row of a page: a `/Contents` entry (or an element of
/// it) that is a stream.
pub open spec fn content_stream_pred() -> spec_fn(RowView) -> bool {
    |r: RowView| is_content_stream_view(r.summary.id) && view_has_stream(r.summary)
}

/// A content row candidate of a page: a `/Contents` entry (or an element of
/// it) that is a stream or has children.
pub open spec fn content_candidate_pred() -> spec_fn(RowView) -> bool {
    |r: RowView| is_content_stream_view(r.summary.id) && (r.summary.has_children || view_has_stream(
        r.summary,
    ))
}

/// Where a row can be shown on a rendered page.
#[derive(Clone, Copy, Debug, PartialEq, Eq, Structural)]
pub struct RealVisualTarget {
    pub page_index: usize,
    pub object: ObjectId,
    pub allow_page_union: bool,
}

/// Where a row can be shown on a rendered page: a stream row that belongs
/// to a page and names an object (its own or its path's).
pub open spec fn visual_target(r: RowView) -> Option<RealVisualTarget> {
    match page_index_of(r.summary.id) {
        Some(page_index) => {
            let object = match r.summary.object {
                Some(o) => Some(o),
                None => crate::node::view_object(r.summary.id),
            };
            match object {
                Some(o) => if !r.summary.has_stream && r.summary.kind != ObjectKind::Stream {
                    None
                } else {
                    Some(
                        RealVisualTarget {
                            page_index,
                            object: o,
                            allow_page_union: is_content_stream_view(r.summary.id),
                        },
                    )
                },
                None => None,
            }
        },
        None => None,
    }
}

/// How a row reads in the tree: badge, label, child count, reference and a
/// stream mark.
pub open spec fn row_text(s: SummaryView) -> Seq<char> {
    tree_badge(s) + " "@ + s.label + (match s.child_count {
        Some(c) => " ("@ + decimal(c as nat) + ")"@,
        None => seq![],
    }) + (match s.object {
        Some(o) => " ["@ + ref_text(o.num as nat, o.gen as nat) + "]"@,
        None => seq![],
    }) + (if s.has_stream {
        "  stream"@
    } else {
        seq![]
    })
}

impl RealObjectTree {
    /// The first content stream row inside the subtree of `page_row`.
    pub fn first_page_content_stream_row(&self, page_row: usize) -> (r: Option<usize>)
        requires
            page_row < usize::MAX,
        ensures
            match first_in(
                self.row_values(),
                page_row + 1,
                subtree_end_of(self.row_values(), page_row as int),
                content_stream_pred(),
            ) {
                Some(i) => r == Some(i as usize),
                None => r is None,
            },
    {
        let end = self.subtree_end(page_row);
        let ghost rv = self.row_values();
        let mut i = page_row + 1;
        proof {
            lemma_scan_end_le(rv, page_row as int);
        }
        while i < end
            invariant
                rv == self.row_values(),
                end == subtree_end_of(rv, page_row as int),
                end <= self.rows@.len(),
                page_row + 1 <= i,
                first_in(rv, i as int, end as int, content_stream_pred()) == first_in(
                    rv,
                    page_row + 1,
                    end as int,
                    content_stream_pred(),
                ),
            decreases end - i,
        {
            assert(rv[i as int] == self.rows@[i as int]@);
            let row = &self.rows[i];
            if is_page_content_stream_node(&row.summary.id) && summary_has_stream(&row.summary) {
                assert(content_stream_pred()(rv[i as int]));
                assert(first_in(rv, i as int, end as int, content_stream_pred()) == Some(i as int));
                return Some(i);
            }
            i += 1;
        }
        None
    }

    /// The content rows of the subtree of `page_row` that can be opened:
    /// streams, or entries with children.
    pub fn page_content_candidate_rows(&self, page_row: usize) -> (v: Vec<usize>)
        requires
            page_row < usize::MAX,
        ensures
            v@.map_values(|x: usize| x as int) == all_in(
                self.row_values(),
                page_row + 1,
                subtree_end_of(self.row_values(), page_row as int),
                content_candidate_pred(),
            ),
    {
        let end = self.subtree_end(page_row);
        let ghost rv = self.row_values();
        proof {
            lemma_scan_end_le(rv, page_row as int);
        }
        let mut v: Vec<usize> = Vec::new();
        let mut i = page_row + 1;
        assert(v@.map_values(|x: usize| x as int) =~= seq![]);
        while i < end
            invariant
                rv == self.row_values(),
                end == subtree_end_of(rv, page_row as int),
                end <= self.rows@.len(),
                page_row + 1 <= i,
                v@.map_values(|x: usize| x as int) + all_in(rv, i as int, end as int, content_candidate_pred())
                    == all_in(rv, page_row + 1, end as int, content_candidate_pred()),
            decreases end - i,
        {
            assert(rv[i as int] == self.rows@[i as int]@);
            let row = &self.rows[i];
            let ghost before = v@.map_values(|x: usize| x as int);
            if is_page_content_stream_node(&row.summary.id) && (row.summary.has_children
                || summary_has_stream(&row.summary)) {
                v.push(i);
                assert(v@.map_values(|x: usize| x as int) =~= before.push(i as int));
            }
            assert(v@.map_values(|x: usize| x as int) + all_in(rv, i + 1, end as int, content_candidate_pred())
                =~= before + all_in(rv, i as int, end as int, content_candidate_pred()));
            i += 1;
        }
        assert(all_in(rv, i as int, end as int, content_candidate_pred()) =~= seq![]);
        assert(v@.map_values(|x: usize| x as int) + seq![] =~= v@.map_values(|x: usize| x as int));
        v
    }

    /// Where a row can be shown on a rendered page.
    pub fn row_visual_target(&self, row: usize) -> (t: Option<RealVisualTarget>)
        ensures
            row < self.rows@.len() ==> t == visual_target(self.rows@[row as int]@),
            row >= self.rows@.len() ==> t is None,
    {
        if row >= self.rows.len() {
            return None;
        }
        let r = &self.rows[row];
        let page_index = match page_index_for_node(&r.summary.id) {
            Some(p) => p,
            None => return None,
        };
        let object = match r.summary.object {
            Some(o) => o,
            None => match r.summary.id.object_id() {
                Some(o) => o,
                None => return None,
            },
        };
        if !r.summary.has_stream && r.summary.kind != ObjectKind::Stream {
            return None;
        }
        Some(
            RealVisualTarget {
                page_index,
                object,
                allow_page_union: is_page_content_stream_node(&r.summary.id),
            },
        )
    }

    /// How a row reads in the tree, such as `<> Info (3) [12 0 R]  stream`;
    /// a notice when the row does not exist.
    pub fn row_layout_text(&self, row: usize) -> (s: String)
        ensures
            row < self.rows@.len() ==> s@ == row_text(self.rows@[row as int].summary@),
            row >= self.rows@.len() ==> s@ == "no real rows loaded"@,
    {
        if row >= self.rows.len() {
            return String::from_str("no real rows loaded");
        }
        let summary = &self.rows[row].summary;
        let mut out: Vec<char> = Vec::new();
        push_str(&mut out, tree_kind_badge_text(summary));
        push_str(&mut out, " ");
        let label = chars_of(summary.label.as_str());
        push_all(&mut out, &label);
        match summary.child_count {
            Some(c) => {
                push_str(&mut out, " (");
                push_decimal(&mut out, c as u64);
                push_str(&mut out, ")");
            },
            None => {},
        }
        match summary.object {
            Some(o) => {
                push_str(&mut out, " [");
                push_ref_text(&mut out, o.num as u64, o.gen as u64);
                push_str(&mut out, "]");
            },
            None => {},
        }
        if summary.has_stream {
            push_str(&mut out, "  stream");
        }
        assert(out@ =~= row_text(summary@));
        string_from_chars(&out)
    }
}

pub proof fn lemma_scan_end_le(rows: Seq<RowView>, row: int)
    ensures
        subtree_end_of(rows, row) <= rows.len(),
        0 <= row < rows.len() ==> row < subtree_end_of(rows, row),
{
    if 0 <= row < rows.len() {
        lemma_scan_end(rows, rows[row].depth, row + 1);
    }
}

// ---------------------------------------------------------------------------
// Changing the rows
// ---------------------------------------------------------------------------
/// The summary of an object row added on demand (when a reference is
/// followed to an object not listed yet).
pub open spec fn object_placeholder(doc: DocumentId, object: ObjectId) -> SummaryView {
    placeholder(
        NodeView::XrefObject { doc: doc.0, object },
        "Object "@ + decimal(object.num as nat),
        ref_text(object.num as nat, object.gen as nat),
        Some(object),
    )
}

/// The depth of a row added at the top level: below the document root when
/// it is listed.
pub open spec fn top_depth(rows: Seq<RowView>) -> usize {
    if has_root_row(rows) {
        1
    } else {
        0
    }
}

/// The rows with object `object` listed, and its row: the first row of the
/// object if there is one, else a new object row at the end.
pub open spec fn ensure_object_rows(rows: Seq<RowView>, doc: DocumentId, object: ObjectId) -> (Seq<
    RowView,
>, nat) {
    match first_row_where(rows, row_has_object(object)) {
        Some(i) => (rows, i),
        None => (
            rows.push(
                RowView {
                    summary: object_placeholder(doc, object),
                    depth: top_depth(rows),
                    expanded: false,
                },
            ),
            rows.len(),
        ),
    }
}

/// The depth of a search hit's row: the hit's depth, one deeper below a
/// listed document root, at most 8.
pub open spec fn hit_depth(depth: usize, has_root: bool) -> usize {
    let d: int = if has_root {
        if depth == usize::MAX {
            depth as int
        } else {
            depth + 1
        }
    } else {
        depth as int
    };
    if d < 8 {
        d as usize
    } else {
        8
    }
}

/// The rows with a search hit listed, and the hit's row: the row of its
/// node, else the first row of its object, else a new row for its node at
/// the end; a hit without a node goes to its object's row, and one with
/// neither has no row.
pub open spec fn ensure_hit_rows(
    rows: Seq<RowView>,
    doc: DocumentId,
    node: Option<NodeView>,
    object: Option<ObjectId>,
    label: Seq<char>,
    excerpt: Seq<char>,
    depth: usize,
) -> (Seq<RowView>, Option<nat>) {
    let added = (
        rows.push(
            RowView {
                summary: placeholder(node->0, label, excerpt, object),
                depth: hit_depth(depth, has_root_row(rows)),
                expanded: false,
            },
        ),
        Some(rows.len()),
    );
    match node {
        Some(n) => match first_row_where(rows, row_has_node(n)) {
            Some(i) => (rows, Some(i)),
            None => match object {
                Some(o) => match first_row_where(rows, row_has_object(o)) {
                    Some(i) => (rows, Some(i)),
                    None => added,
                },
                None => added,
            },
        },
        None => match object {
            Some(o) => (ensure_object_rows(rows, doc, o).0, Some(ensure_object_rows(rows, doc, o).1)),
            None => (rows, None),
        },
    }
}

/// A row with its expanded flag set as given.
pub open spec fn with_expanded(r: RowView, expanded: bool) -> RowView {
    RowView { summary: r.summary, depth: r.depth, expanded }
}

/// The rows with a page's child listed, and its row: the row of the child's
/// node if listed; else, below an existing page root row (which becomes
/// expanded), a new row at the end of the root's subtree.
pub open spec fn ensure_page_child_rows(rows: Seq<RowView>, root: int, child: SummaryView) -> (Seq<
    RowView,
>, Option<nat>) {
    match first_row_where(rows, row_has_node(child.id)) {
        Some(i) => (rows, Some(i)),
        None => if 0 <= root < rows.len() {
            let e = subtree_end_of(rows, root);
            (
                rows.update(root, with_expanded(rows[root], true)).insert(
                    e,
                    RowView { summary: child, depth: (rows[root].depth + 1) as usize, expanded: false },
                ),
                Some(e as nat),
            )
        } else {
            (rows, None)
        },
    }
}

/// The children a detail lists: the values of its dictionary entries, then
/// its array elements.
pub open spec fn detail_children(detail: ObjectDetail) -> Seq<SummaryView> {
    (match detail.dictionary_entries {
        Some(p) => Seq::new(p.items@.len(), |i: int| p.items@[i].value@),
        None => seq![],
    }) + (match detail.array_entries {
        Some(p) => summary_views(p.items@),
        None => seq![],
    })
}

/// How many children a detail says there are in all: the dictionary's
/// total, else the array's.
pub open spec fn detail_child_count(detail: ObjectDetail) -> Option<usize> {
    match detail.dictionary_entries {
        Some(p) if p.total is Some => p.total,
        _ => match detail.array_entries {
            Some(p) => p.total,
            None => None,
        },
    }
}

/// A summary brought up to date from a loaded detail: kind, object, stream
/// and children flags, child count and diagnostics come from the detail;
/// identity, label and preview stay.
pub open spec fn refreshed(s: SummaryView, detail: ObjectDetail) -> SummaryView {
    SummaryView {
        id: s.id,
        kind: detail.kind,
        label: s.label,
        preview: s.preview,
        object: detail.object,
        has_children: detail.dictionary_entries is Some || detail.array_entries is Some,
        has_stream: detail.stream is Some,
        child_count: detail_child_count(detail),
        byte_size_hint: s.byte_size_hint,
        diagnostics: diagnostic_views(detail.diagnostics@),
    }
}

/// Refreshing a summary from a detail: the row has children exactly when
/// the detail lists dictionary entries or array entries, has a stream
/// exactly when the detail has one, counts the dictionary's entries when
/// their total is known and else the array's, takes the detail's kind,
/// object and diagnostics, and keeps its identity, label, preview and size.
pub proof fn lemma_refreshed_summary(s: SummaryView, detail: ObjectDetail)
    ensures
        refreshed(s, detail).has_children <==> (detail.dictionary_entries is Some
            || detail.array_entries is Some),
        refreshed(s, detail).has_stream <==> detail.stream is Some,
        refreshed(s, detail).kind == detail.kind,
        refreshed(s, detail).object == detail.object,
        refreshed(s, detail).diagnostics == diagnostic_views(detail.diagnostics@),
        refreshed(s, detail).id == s.id,
        refreshed(s, detail).label == s.label,
        refreshed(s, detail).preview == s.preview,
        refreshed(s, detail).byte_size_hint == s.byte_size_hint,
        detail.dictionary_entries matches Some(p) ==> (p.total is Some ==> refreshed(
            s,
            detail,
        ).child_count == p.total),
        (detail.dictionary_entries is None || detail.dictionary_entries->0.total is None)
            ==> refreshed(s, detail).child_count == (match detail.array_entries {
            Some(a) => a.total,
            None => None,
        }),
{
}

/// Expanding `row` with `children`: a collapsed row becomes expanded and
/// its children follow it, one level deeper; nothing changes for an
/// expanded or missing row. Also gives how many rows were inserted.
pub open spec fn expand_rows(rows: Seq<RowView>, row: int, children: Seq<SummaryView>) -> (Seq<
    RowView,
>, nat) {
    if row < 0 || row >= rows.len() || rows[row].expanded {
        (rows, 0)
    } else {
        (
            rows.take(row).push(with_expanded(rows[row], true)) + rows_at(
                children,
                (rows[row].depth + 1) as usize,
            ) + rows.skip(row + 1),
            children.len(),
        )
    }
}

/// Collapsing `row`: an expanded row with children becomes collapsed and
/// every deeper row that follows it goes. Also gives how many rows went.
pub open spec fn collapse_rows(rows: Seq<RowView>, row: int) -> (Seq<RowView>, nat) {
    if row < 0 || row >= rows.len() || !rows[row].expanded || !rows[row].summary.has_children {
        (rows, 0)
    } else {
        let e = scan_end(rows, rows[row].depth, row + 1);
        (rows.take(row).push(with_expanded(rows[row], false)) + rows.skip(e), (e - row - 1) as nat)
    }
}

/// Rows for `summaries` at `depth`, collapsed, taken from a detail.
fn detail_child_rows(detail: &ObjectDetail, depth: usize) -> (rows: Vec<RealTreeRow>)
    ensures
        row_views(rows@) == rows_at(detail_children(*detail), depth),
{
    let mut rows: Vec<RealTreeRow> = Vec::new();
    let ghost kids = detail_children(*detail);
    match &detail.dictionary_entries {
        Some(p) => {
            let mut i: usize = 0;
            while i < p.items.len()
                invariant
                    0 <= i <= p.items@.len(),
                    row_views(rows@) == rows_at(
                        Seq::new(p.items@.len(), |k: int| p.items@[k].value@),
                        depth,
                    ).take(i as int),
                decreases p.items@.len() - i,
            {
                let ghost before = row_views(rows@);
                let row = RealTreeRow { summary: p.items[i].value.copy(), depth, expanded: false };
                rows.push(row);
                assert(row_views(rows@) =~= before.push(row@));
                assert(rows_at(Seq::new(p.items@.len(), |k: int| p.items@[k].value@), depth).take(
                    i + 1,
                ) =~= rows_at(Seq::new(p.items@.len(), |k: int| p.items@[k].value@), depth).take(
                    i as int,
                ).push(row@));
                i += 1;
            }
            assert(rows_at(Seq::new(p.items@.len(), |k: int| p.items@[k].value@), depth).take(
                i as int,
            ) =~= rows_at(Seq::new(p.items@.len(), |k: int| p.items@[k].value@), depth));
        },
        None => {
            assert(row_views(rows@) =~= seq![]);
        },
    }
    let ghost first = row_views(rows@);
    match &detail.array_entries {
        Some(p) => {
            let mut more = child_rows(&p.items, depth);
            let ghost second = row_views(more@);
            rows.append(&mut more);
            assert(row_views(rows@) =~= first + second);
        },
        None => {},
    }
    assert(row_views(rows@) =~= rows_at(detail_children(*detail), depth));
    rows
}

impl RealObjectTree {
    /// Makes sure object `object` has a row and gives its row: the first row
    /// of the object, or a new object row at the end.
    pub fn ensure_object_row(&mut self, doc: DocumentId, object: ObjectId) -> (row: usize)
        ensures
            (final(self).row_values(), row as nat) == ensure_object_rows(
                old(self).row_values(),
                doc,
                object,
            ),
            final(self).root_children == old(self).root_children,
            final(self).total == old(self).total,
    {
        let n = self.rows.len();
        proof {
            lemma_first_row_where(self.row_values(), row_has_object(object));
        }
        match self.row_for_object(object) {
            Some(i) => return i,
            None => {},
        }
        let ghost before = self.row_values();
        let depth = if self.has_document_root_row() {
            1
        } else {
            0
        };
        let mut label: Vec<char> = Vec::new();
        push_str(&mut label, "Object ");
        push_decimal(&mut label, object.num as u64);
        let mut preview: Vec<char> = Vec::new();
        push_ref_text(&mut preview, object.num as u64, object.gen as u64);
        let row = RealTreeRow {
            summary: ObjectSummary {
                id: NodeId::XrefObject { doc, object },
                kind: ObjectKind::Unknown,
                label: string_from_chars(&label),
                preview: string_from_chars(&preview),
                object: Some(object),
                has_children: true,
                has_stream: false,
                child_count: None,
                byte_size_hint: None,
                diagnostics: Vec::new(),
            },
            depth,
            expanded: false,
        };
        assert(diagnostic_views(Seq::<DiagnosticSummary>::empty()) =~= seq![]);
        assert(row@.summary == object_placeholder(doc, object));
        self.rows.push(row);
        assert(self.row_values() =~= before.push(row@));
        n
    }

    /// Makes sure a search hit has a row and gives it.
    pub fn ensure_search_hit_row(&mut self, doc: DocumentId, hit: &ObjectSearchHit) -> (row: Option<
        usize,
    >)
        ensures
            (final(self).row_values(), match row {
                Some(r) => Some(r as nat),
                None => None,
            }) == ensure_hit_rows(
                old(self).row_values(),
                doc,
                match hit.node {
                    Some(n) => Some(n@),
                    None => None,
                },
                hit.object,
                hit.label@,
                hit.excerpt@,
                hit.depth,
            ),
            final(self).root_children == old(self).root_children,
            final(self).total == old(self).total,
    {
        let n = self.rows.len();
        match &hit.node {
            Some(node) => {
                proof {
                    lemma_first_row_where(self.row_values(), row_has_node(node@));
                }
                match self.row_for_node(node) {
                    Some(i) => return Some(i),
                    None => {},
                }
                match hit.object {
                    Some(o) => {
                        proof {
                            lemma_first_row_where(self.row_values(), row_has_object(o));
                        }
                        match self.row_for_object(o) {
                            Some(i) => return Some(i),
                            None => {},
                        }
                    },
                    None => {},
                }
                let ghost before = self.row_values();
                let has_root = self.has_document_root_row();
                let extra: usize = if has_root {
                    1
                } else {
                    0
                };
                let d = hit.depth.saturating_add(extra);
                let depth = if d < 8 {
                    d
                } else {
                    8
                };
                let row = RealTreeRow {
                    summary: ObjectSummary {
                        id: node.copy(),
                        kind: ObjectKind::Unknown,
                        label: hit.label.clone(),
                        preview: hit.excerpt.clone(),
                        object: hit.object,
                        has_children: true,
                        has_stream: false,
                        child_count: None,
                        byte_size_hint: None,
                        diagnostics: Vec::new(),
                    },
                    depth,
                    expanded: false,
                };
                assert(diagnostic_views(Seq::<DiagnosticSummary>::empty()) =~= seq![]);
                self.rows.push(row);
                assert(self.row_values() =~= before.push(row@));
                Some(n)
            },
            None => match hit.object {
                Some(o) => Some(self.ensure_object_row(doc, o)),
                None => None,
            },
        }
    }

    /// Makes sure a child of the page tree root has a row below the root
    /// row `page_root_row` and gives it.
    pub fn ensure_page_child_row(&mut self, page_root_row: usize, summary: ObjectSummary) -> (row:
        Option<usize>)
        requires
            page_root_row < old(self).rows@.len() ==> old(self).rows@[page_root_row as int].depth
                < usize::MAX,
        ensures
            (final(self).row_values(), match row {
                Some(r) => Some(r as nat),
                None => None,
            }) == ensure_page_child_rows(old(self).row_values(), page_root_row as int, summary@),
            final(self).root_children == old(self).root_children,
            final(self).total == old(self).total,
    {
        proof {
            lemma_first_row_where(self.row_values(), row_has_node(summary.id@));
        }
        let n = self.rows.len();
        match self.row_for_node(&summary.id) {
            Some(i) => return Some(i),
            None => {},
        }
        if page_root_row >= self.rows.len() {
            return None;
        }
        let ghost before = self.row_values();
        let parent_depth = self.rows[page_root_row].depth;
        let insert_at = self.subtree_end(page_root_row);
        proof {
            lemma_scan_end_le(before, page_root_row as int);
        }
        let mut parent = self.rows.remove(page_root_row);
        parent.expanded = true;
        self.rows.insert(page_root_row, parent);
        assert(self.row_values() =~= before.update(
            page_root_row as int,
            with_expanded(before[page_root_row as int], true),
        ));
        let row = RealTreeRow { summary, depth: parent_depth + 1, expanded: false };
        let ghost mid = self.row_values();
        self.rows.insert(insert_at, row);
        assert(self.row_values() =~= mid.insert(insert_at as int, row@));
        Some(insert_at)
    }

    /// Brings a row up to date from its loaded detail.
    pub fn update_row_from_detail(&mut self, row: usize, detail: &ObjectDetail)
        ensures
            row < old(self).rows@.len() ==> final(self).row_values() == old(self).row_values().update(
                row as int,
                RowView {
                    summary: refreshed(old(self).rows@[row as int].summary@, *detail),
                    depth: old(self).rows@[row as int].depth,
                    expanded: old(self).rows@[row as int].expanded,
                },
            ),
            row >= old(self).rows@.len() ==> final(self).row_values() == old(self).row_values(),
            row < old(self).rows@.len() ==> (final(self).rows@[row as int].summary.has_children <==> (
            detail.dictionary_entries is Some || detail.array_entries is Some)),
            final(self).root_children == old(self).root_children,
            final(self).total == old(self).total,
    {
        if row >= self.rows.len() {
            return;
        }
        let ghost before = self.row_values();
        let mut r = self.rows.remove(row);
        r.summary.kind = detail.kind;
        r.summary.object = detail.object;
        r.summary.has_stream = detail.stream.is_some();
        r.summary.has_children = detail.dictionary_entries.is_some()
            || detail.array_entries.is_some();
        r.summary.child_count = match &detail.dictionary_entries {
            Some(p) if p.total.is_some() => p.total,
            _ => match &detail.array_entries {
                Some(p) => p.total,
                None => None,
            },
        };
        r.summary.diagnostics = copy_diagnostics(&detail.diagnostics);
        self.rows.insert(row, r);
        assert(self.row_values() =~= before.update(
            row as int,
            RowView {
                summary: refreshed(before[row as int].summary, *detail),
                depth: before[row as int].depth,
                expanded: before[row as int].expanded,
            },
        ));
    }

    /// Lists `children` under `row`, which becomes expanded.
    fn insert_children(&mut self, row: usize, children: Vec<RealTreeRow>)
        requires
            row < old(self).rows@.len(),
        ensures
            final(self).row_values() == old(self).row_values().take(row as int).push(
                with_expanded(old(self).rows@[row as int]@, true),
            ) + row_views(children@) + old(self).row_values().skip(row + 1),
            final(self).root_children == old(self).root_children,
            final(self).total == old(self).total,
    {
        let ghost before = self.row_values();
        let mut children = children;
        let mut parent = self.rows.remove(row);
        parent.expanded = true;
        let mut tail = self.rows.split_off(row);
        let ghost kids = row_views(children@);
        self.rows.push(parent);
        self.rows.append(&mut children);
        self.rows.append(&mut tail);
        assert(self.row_values() =~= before.take(row as int).push(
            with_expanded(before[row as int], true),
        ) + kids + before.skip(row + 1));
    }

    /// Expands `row` with the children its detail lists; gives how many rows
    /// were inserted (none for an expanded or missing row).
    pub fn expand_row_from_detail(&mut self, row: usize, detail: &ObjectDetail) -> (inserted:
        usize)
        requires
            row < old(self).rows@.len() ==> old(self).rows@[row as int].depth < usize::MAX,
        ensures
            (final(self).row_values(), inserted as nat) == expand_rows(
                old(self).row_values(),
                row as int,
                detail_children(*detail),
            ),
            final(self).root_children == old(self).root_children,
            final(self).total == old(self).total,
    {
        if row >= self.rows.len() || self.rows[row].expanded {
            return 0;
        }
        let child_depth = self.rows[row].depth + 1;
        let children = detail_child_rows(detail, child_depth);
        let inserted = children.len();
        self.insert_children(row, children);
        inserted
    }

    /// Expands the document root row with the root's children as first
    /// loaded; gives how many rows were inserted.
    pub fn expand_cached_document_root(&mut self, row: usize) -> (inserted: usize)
        requires
            row < old(self).rows@.len() ==> old(self).rows@[row as int].depth < usize::MAX,
        ensures
            (final(self).row_values(), inserted as nat) == (if row < old(self).rows@.len()
                && old(self).rows@[row as int].summary.id@ is DocumentRoot {
                expand_rows(old(self).row_values(), row as int, summary_views(old(self).root_children@))
            } else {
                (old(self).row_values(), 0)
            }),
            final(self).root_children == old(self).root_children,
            final(self).total == old(self).total,
    {
        if row >= self.rows.len() || self.rows[row].expanded {
            return 0;
        }
        match &self.rows[row].summary.id {
            NodeId::DocumentRoot { .. } => {},
            _ => return 0,
        }
        let child_depth = self.rows[row].depth + 1;
        let children = child_rows(&self.root_children, child_depth);
        let inserted = children.len();
        self.insert_children(row, children);
        inserted
    }

    /// Collapses `row`: it stops being expanded and the deeper rows after it
    /// go; gives how many went.
    pub fn collapse_row(&mut self, row: usize) -> (removed: usize)
        ensures
            (final(self).row_values(), removed as nat) == collapse_rows(old(self).row_values(), row as int),
            final(self).root_children == old(self).root_children,
            final(self).total == old(self).total,
    {
        if row >= self.rows.len() || !self.rows[row].expanded || !self.rows[row].summary.has_children {
            return 0;
        }
        let ghost before = self.row_values();
        let end = self.subtree_end(row);
        proof {
            lemma_scan_end_le(before, row as int);
        }
        let mut tail = self.rows.split_off(end);
        self.rows.truncate(row + 1);
        let mut parent = self.rows.pop().unwrap();
        parent.expanded = false;
        self.rows.push(parent);
        self.rows.append(&mut tail);
        assert(self.row_values() =~= before.take(row as int).push(
            with_expanded(before[row as int], false),
        ) + before.skip(end as int));
        end - row - 1
    }
}

// ---------------------------------------------------------------------------
// Laws of the tree
// ---------------------------------------------------------------------------
/// Scanning for the end of a subtree runs over rows that are all deeper.
pub proof fn lemma_scan_end_over_deeper(rows: Seq<RowView>, depth: usize, e: int, stop: int)
    requires
        0 <= e <= stop <= rows.len(),
        forall|k: int| e <= k < stop ==> rows[k].depth > depth,
        stop == rows.len() || rows[stop].depth <= depth,
    ensures
        scan_end(rows, depth, e) == stop,
    decreases stop - e,
{
    if e < stop {
        lemma_scan_end_over_deeper(rows, depth, e + 1, stop);
    }
}

/// Collapsing a row right after expanding it gives back the rows as they
/// were, and removes as many rows as the expansion inserted, when the row
/// was collapsed, has children, and nothing deeper followed it.
pub proof fn lemma_collapse_undoes_expand(rows: Seq<RowView>, row: int, children: Seq<SummaryView>)
    requires
        0 <= row < rows.len(),
        !rows[row].expanded,
        rows[row].summary.has_children,
        rows[row].depth < usize::MAX,
        subtree_end_of(rows, row) == row + 1,
    ensures
        collapse_rows(expand_rows(rows, row, children).0, row) == (rows, expand_rows(
            rows,
            row,
            children,
        ).1),
{
    let d = rows[row].depth;
    let kids = rows_at(children, (d + 1) as usize);
    let expanded = expand_rows(rows, row, children).0;
    assert(expanded == rows.take(row).push(with_expanded(rows[row], true)) + kids + rows.skip(
        row + 1,
    ));
    let stop = row + 1 + children.len();
    assert(expanded.len() == rows.len() + children.len());
    assert forall|k: int| row + 1 <= k < stop implies expanded[k].depth > d by {
        assert(expanded[k] == kids[k - row - 1]);
    }
    if row + 1 < rows.len() {
        lemma_scan_end(rows, d, row + 1);
        assert(expanded[stop] == rows[row + 1]);
    }
    assert(expanded[row] == with_expanded(rows[row], true));
    lemma_scan_end_over_deeper(expanded, d, row + 1, stop);
    let collapsed = collapse_rows(expanded, row);
    assert(collapsed.0 =~= rows);
}

/// A collapsed leaf row refreshed from a detail that lists dictionary or
/// array entries can be expanded with the detail's children and collapsed
/// again, which gives back the refreshed rows; refreshed from a detail that
/// lists neither, the row has no children and collapsing it changes nothing.
pub proof fn lemma_refreshed_row_expands(
    rows: Seq<RowView>,
    row: int,
    detail: ObjectDetail,
    children: Seq<SummaryView>,
)
    requires
        0 <= row < rows.len(),
        !rows[row].expanded,
        rows[row].depth < usize::MAX,
        subtree_end_of(rows, row) == row + 1,
    ensures
        ({
            let r2 = rows.update(
                row,
                RowView {
                    summary: refreshed(rows[row].summary, detail),
                    depth: rows[row].depth,
                    expanded: rows[row].expanded,
                },
            );
            &&& (detail.dictionary_entries is Some || detail.array_entries is Some) ==> {
                &&& expand_rows(r2, row, children).0[row].expanded
                &&& collapse_rows(expand_rows(r2, row, children).0, row).0 == r2
            }
            &&& (detail.dictionary_entries is None && detail.array_entries is None) ==> {
                &&& !r2[row].summary.has_children
                &&& collapse_rows(expand_rows(r2, row, children).0, row).0 == expand_rows(
                    r2,
                    row,
                    children,
                ).0
            }
        }),
{
    let r2 = rows.update(
        row,
        RowView {
            summary: refreshed(rows[row].summary, detail),
            depth: rows[row].depth,
            expanded: rows[row].expanded,
        },
    );
    lemma_refreshed_summary(rows[row].summary, detail);
    assert(subtree_end_of(r2, row) == row + 1) by {
        let d = rows[row].depth;
        assert(r2[row].depth == d);
        assert(scan_end(rows, d, row + 1) == row + 1);
        if row + 1 < rows.len() {
            assert(r2[row + 1] == rows[row + 1]);
            lemma_scan_end(rows, d, row + 2);
            assert(rows[row + 1].depth <= d);
        }
        assert(scan_end(r2, d, row + 1) == row + 1);
    }
    if detail.dictionary_entries is Some || detail.array_entries is Some {
        lemma_collapse_undoes_expand(r2, row, children);
    } else {
        let ex = expand_rows(r2, row, children).0;
        assert(ex[row] == with_expanded(r2[row], true));
    }
}

/// Making sure an object is listed a second time changes nothing and gives
/// the same row, which stands for that object.
pub proof fn lemma_ensure_object_row_idempotent(rows: Seq<RowView>, doc: DocumentId, object: ObjectId)
    ensures
        ensure_object_rows(ensure_object_rows(rows, doc, object).0, doc, object) == ensure_object_rows(
            rows,
            doc,
            object,
        ),
        ensure_object_rows(rows, doc, object).1 < ensure_object_rows(rows, doc, object).0.len(),
        ensure_object_rows(rows, doc, object).0[ensure_object_rows(rows, doc, object).1 as int].summary.object
            == Some(object),
{
    lemma_first_row_where(rows, row_has_object(object));
    let after = ensure_object_rows(rows, doc, object).0;
    match first_row_where(rows, row_has_object(object)) {
        Some(i) => {},
        None => {
            assert(after.drop_last() =~= rows);
            assert(row_has_object(object)(after.last()));
            assert(first_row_where(after, row_has_object(object)) == Some(rows.len()));
        },
    }
}

/// After a page child is made sure to be listed, looking its node up finds
/// the row that was given.
pub proof fn lemma_page_child_row_found(rows: Seq<RowView>, root: int, child: SummaryView)
    requires
        ensure_page_child_rows(rows, root, child).1 is Some,
    ensures
        first_row_where(ensure_page_child_rows(rows, root, child).0, row_has_node(child.id))
            == ensure_page_child_rows(rows, root, child).1,
{
    lemma_first_row_where(rows, row_has_node(child.id));
    match first_row_where(rows, row_has_node(child.id)) {
        Some(i) => {},
        None => {
            let e = subtree_end_of(rows, root);
            lemma_scan_end_le(rows, root);
            let updated = rows.update(root, with_expanded(rows[root], true));
            let after = updated.insert(
                e,
                RowView { summary: child, depth: (rows[root].depth + 1) as usize, expanded: false },
            );
            lemma_first_row_where(after, row_has_node(child.id));
            assert(row_has_node(child.id)(after[e]));
            assert forall|k: int| 0 <= k < e implies !row_has_node(child.id)(#[trigger] after[k]) by {
                assert(after[k].summary.id == rows[k].summary.id);
            }
            match first_row_where(after, row_has_node(child.id)) {
                Some(f) => {
                    if f < e {
                        assert(!row_has_node(child.id)(after[f as int]));
                    }
                    if f > e {
                        assert(!row_has_node(child.id)(after[e]));
                    }
                },
                None => {},
            }
        },
    }
}

/// Expanding a collapsed row lists its children right after it, one level
/// deeper, and keeps every other row in its order.
pub proof fn lemma_expand_places_children(rows: Seq<RowView>, row: int, children: Seq<SummaryView>)
    requires
        0 <= row < rows.len(),
        !rows[row].expanded,
        rows[row].depth < usize::MAX,
    ensures
        ({
            let after = expand_rows(rows, row, children).0;
            &&& after.len() == rows.len() + children.len()
            &&& after[row].expanded
            &&& forall|k: int| 0 <= k < children.len() ==> #[trigger] after[row + 1 + k].summary == children[k]
                && after[row + 1 + k].depth == rows[row].depth + 1
            &&& forall|k: int| 0 <= k < row ==> #[trigger] after[k] == rows[k]
            &&& forall|k: int| row < k < rows.len() ==> #[trigger] after[k + children.len()] == rows[k]
        }),
{
}

// ---------------------------------------------------------------------------
// Keeping only the selected path open
// ---------------------------------------------------------------------------
/// The nodes of the rows above row `k` that enclose a row of depth
/// `next_depth`: walking up, each shallower row is an ancestor, up to the
/// top level.
pub open spec fn path_above(rows: Seq<RowView>, k: int, next_depth: usize) -> Seq<NodeView>
    decreases k,
{
    if k <= 0 || k > rows.len() {
        seq![]
    } else {
        let r = k - 1;
        if rows[r].depth < next_depth {
            seq![rows[r].summary.id] + (if rows[r].depth == 0 {
                seq![]
            } else {
                path_above(rows, r, rows[r].depth)
            })
        } else {
            path_above(rows, r, next_depth)
        }
    }
}

/// The nodes on the path to the selected row: the row itself and its
/// ancestors.
pub open spec fn selected_path(rows: Seq<RowView>, sel: int) -> Seq<NodeView> {
    if 0 <= sel < rows.len() {
        seq![rows[sel].summary.id] + path_above(rows, sel, rows[sel].depth)
    } else {
        seq![]
    }
}

/// The values of a list of node paths.
pub open spec fn node_views(v: Seq<NodeId>) -> Seq<NodeView> {
    Seq::new(v.len(), |i: int| v[i]@)
}

/// Collapsing, from row `i - 1` up to the first, every expanded row whose
/// node is not kept.
pub open spec fn collapse_down(rows: Seq<RowView>, keep: Seq<NodeView>, i: int) -> Seq<RowView>
    decreases i,
{
    if i <= 0 {
        rows
    } else {
        let k = i - 1;
        let next = if 0 <= k < rows.len() && !keep.contains(rows[k].summary.id) && rows[k].expanded {
            collapse_rows(rows, k).0
        } else {
            rows
        };
        collapse_down(next, keep, k)
    }
}

/// Collapsing every expanded row off the path to the selected node, and the
/// selected node's row afterwards (none when it is not listed).
pub open spec fn collapse_except_rows(rows: Seq<RowView>, selected: NodeView) -> (Seq<RowView>, Option<
    nat,
>) {
    match first_row_where(rows, row_has_node(selected)) {
        None => (rows, None),
        Some(s) => {
            let after = collapse_down(rows, selected_path(rows, s as int), rows.len() as int);
            (after, first_row_where(after, row_has_node(selected)))
        },
    }
}

/// Whether `node` is among `keep`.
fn node_in(keep: &Vec<NodeId>, node: &NodeId) -> (b: bool)
    ensures
        b == node_views(keep@).contains(node@),
{
    let mut i: usize = 0;
    while i < keep.len()
        invariant
            0 <= i <= keep@.len(),
            forall|k: int| 0 <= k < i ==> keep@[k]@ != node@,
        decreases keep@.len() - i,
    {
        if keep[i].same(node) {
            assert(node_views(keep@)[i as int] == node@);
            return true;
        }
        i += 1;
    }
    assert forall|k: int| 0 <= k < node_views(keep@).len() implies node_views(keep@)[k] != node@ by {
        assert(node_views(keep@)[k] == keep@[k]@);
    }
    false
}

impl RealObjectTree {
    /// The nodes on the path to `selected_row`: the row's node and those of
    /// its ancestors.
    pub fn selected_path_node_ids(&self, selected_row: usize) -> (keep: Vec<NodeId>)
        ensures
            node_views(keep@) == selected_path(self.row_values(), selected_row as int),
    {
        let ghost rv = self.row_values();
        let mut keep: Vec<NodeId> = Vec::new();
        if selected_row >= self.rows.len() {
            assert(node_views(keep@) =~= seq![]);
            return keep;
        }
        assert(rv[selected_row as int] == self.rows@[selected_row as int]@);
        keep.push(self.rows[selected_row].summary.id.copy());
        let mut next_depth = self.rows[selected_row].depth;
        let mut row = selected_row;
        let mut done = false;
        assert(node_views(keep@) =~= seq![rv[selected_row as int].summary.id]);
        while row > 0 && !done
            invariant
                rv == self.row_values(),
                row <= selected_row < self.rows@.len(),
                !done ==> node_views(keep@) + path_above(rv, row as int, next_depth) == selected_path(
                    rv,
                    selected_row as int,
                ),
                done ==> node_views(keep@) == selected_path(rv, selected_row as int),
            decreases row,
        {
            let ghost before = node_views(keep@);
            let r = row - 1;
            assert(rv[r as int] == self.rows@[r as int]@);
            if self.rows[r].depth < next_depth {
                keep.push(self.rows[r].summary.id.copy());
                assert(node_views(keep@) =~= before.push(rv[r as int].summary.id));
                next_depth = self.rows[r].depth;
                if next_depth == 0 {
                    done = true;
                }
            }
            row = r;
        }
        if !done {
            assert(path_above(rv, row as int, next_depth) =~= seq![]);
            assert(node_views(keep@) + seq![] =~= node_views(keep@));
        }
        keep
    }
}

impl RealObjectTree {
    /// Collapses every expanded row that is not on the path to the selected
    /// node; gives the selected node's row afterwards (none when it is not
    /// listed, and then nothing changes).
    pub fn collapse_expanded_rows_except_selected_path(&mut self, selected_id: &NodeId) -> (row:
        Option<usize>)
        ensures
            (final(self).row_values(), match row {
                Some(r) => Some(r as nat),
                None => None,
            }) == collapse_except_rows(old(self).row_values(), selected_id@),
            final(self).root_children == old(self).root_children,
            final(self).total == old(self).total,
    {
        let ghost start = self.row_values();
        proof {
            lemma_first_row_where(start, row_has_node(selected_id@));
        }
        let n = self.rows.len();
        let selected_row = match self.row_for_node(selected_id) {
            Some(r) => r,
            None => return None,
        };
        assert(first_row_where(start, row_has_node(selected_id@)) == Some(selected_row as nat));
        let keep = self.selected_path_node_ids(selected_row);
        let ghost kv = node_views(keep@);
        assert(kv == selected_path(start, selected_row as int));
        let mut row = self.rows.len();
        while row > 0
            invariant
                row <= self.rows@.len(),
                kv == node_views(keep@),
                collapse_down(self.row_values(), kv, row as int) == collapse_down(
                    start,
                    kv,
                    start.len() as int,
                ),
                self.root_children == old(self).root_children,
                self.total == old(self).total,
            decreases row,
        {
            row -= 1;
            let ghost before = self.row_values();
            assert(before[row as int] == self.rows@[row as int]@);
            proof {
                lemma_scan_end(before, before[row as int].depth, row + 1);
            }
            if !node_in(&keep, &self.rows[row].summary.id) && self.rows[row].expanded {
                let _ = self.collapse_row(row);
                assert(self.row_values().len() >= row + 1);
            }
        }
        assert(collapse_down(self.row_values(), kv, 0) == self.row_values());
        proof {
            lemma_first_row_where(self.row_values(), row_has_node(selected_id@));
        }
        let m = self.rows.len();
        assert(self.row_values().len() == m);
        self.row_for_node(selected_id)
    }
}

// ---------------------------------------------------------------------------
// The generated tree of the demo document, and the tree in use
// ---------------------------------------------------------------------------
/// Rows of the generated tree of the demo document.
pub const VIRTUAL_TREE_ROWS: usize = 1000000;

/// A generated tree of `rows` objects under a catalog row, built on demand.
#[derive(Clone, Debug)]
pub struct VirtualObjectTree {
    pub rows: usize,
}

/// The generated label of row `row`: the catalog for row 0, else the object
/// number padded to six digits and a fake name numbered by
/// `row * 31 mod 2^bits mod 997`.
pub open spec fn virtual_label(row: nat) -> Seq<char> {
    if row == 0 {
        "root / catalog"@
    } else {
        "obj "@ + crate::text::decimal_padded(row, 6) + " 0 R  /FakeNode"@ + decimal(
            ((row * 31) % (usize::MAX as nat + 1)) % 997,
        )
    }
}

/// The three generated references of row `row` among `rows` objects: the
/// row's number (at least 1) times 3, 11 and 101, modulo the row count, and
/// never the catalog.
pub open spec fn virtual_reference_targets(rows: usize, row: usize) -> Seq<usize> {
    let base = if row > 1 {
        row as int
    } else {
        1
    };
    let t = |m: int| if (base * m) % (rows as int) > 1 {
        (base * m) % (rows as int)
    } else {
        1
    };
    seq![t(3) as usize, t(11) as usize, t(101) as usize]
}

impl VirtualObjectTree {
    /// A generated tree of `rows` objects.
    pub fn new(rows: usize) -> (t: VirtualObjectTree)
        ensures
            t.rows == rows,
    {
        VirtualObjectTree { rows }
    }

    /// The catalog row and one row per object.
    pub fn row_count(&self) -> (n: usize)
        requires
            self.rows < usize::MAX,
        ensures
            n == self.rows + 1,
    {
        self.rows + 1
    }

    /// The generated label of a row.
    pub fn row_label(&self, row: usize) -> (s: String)
        ensures
            s@ == virtual_label(row as nat),
    {
        if row == 0 {
            return String::from_str("root / catalog");
        }
        let mut out: Vec<char> = Vec::new();
        push_str(&mut out, "obj ");
        crate::text::push_decimal_padded(&mut out, row as u64, 6);
        push_str(&mut out, " 0 R  /FakeNode");
        let name = row.wrapping_mul(31) % 997;
        push_decimal(&mut out, name as u64);
        assert(out@ =~= virtual_label(row as nat));
        string_from_chars(&out)
    }

    /// Three generated references from a row: its number (at least 1)
    /// times 3, 11 and 101, modulo the row count, and never the catalog.
    pub fn reference_targets(&self, row: usize) -> (r: [usize; 3])
        requires
            self.rows > 0,
            (if row > 1 {
                row as int
            } else {
                1
            }) * 101 <= usize::MAX,
        ensures
            r@ == virtual_reference_targets(self.rows, row),
    {
        let base = if row > 1 {
            row
        } else {
            1
        };
        let a = base * 3 % self.rows;
        let b = base * 11 % self.rows;
        let c = base * 101 % self.rows;
        let r = [
            if a > 1 {
                a
            } else {
                1
            },
            if b > 1 {
                b
            } else {
                1
            },
            if c > 1 {
                c
            } else {
                1
            },
        ];
        assert(r@ =~= seq![r[0], r[1], r[2]]);
        r
    }
}

/// The tree the viewer shows: the generated demo tree, or a real
/// document's tree.
#[derive(Clone, Debug)]
pub enum TreeModel {
    Virtual(VirtualObjectTree),
    Real(RealObjectTree),
}

impl TreeModel {
    /// The tree for a document: its real tree when one was loaded and a
    /// real tree is preferred, else the generated tree.
    pub fn from_tree_page(tree: Option<&ChildPage<ObjectSummary>>, prefer_real: bool) -> (t:
        TreeModel)
        ensures
            prefer_real && tree is Some ==> (t matches TreeModel::Real(r) && summary_views(r.root_children@)
                == summary_views(tree->0.items@) && r.total == tree->0.total && r.row_values() == (
            if tree->0.items@.len() > 0 {
                initial_rows(
                    crate::model::node_doc(tree->0.items@[0].id),
                    summary_views(tree->0.items@),
                    tree->0.total,
                )
            } else {
                seq![]
            })),
            !(prefer_real && tree is Some) ==> (t matches TreeModel::Virtual(v) && v.rows
                == VIRTUAL_TREE_ROWS),
    {
        if prefer_real {
            match tree {
                Some(page) => return TreeModel::Real(RealObjectTree::from_child_page(page)),
                None => {},
            }
        }
        TreeModel::Virtual(VirtualObjectTree::new(VIRTUAL_TREE_ROWS))
    }

    /// Whether this is a real document's tree.
    pub fn is_real(&self) -> (b: bool)
        ensures
            b == (self is Real),
    {
        match self {
            TreeModel::Real(_) => true,
            TreeModel::Virtual(_) => false,
        }
    }

    /// How many rows the tree shows.
    pub fn row_count(&self) -> (n: usize)
        requires
            self matches TreeModel::Virtual(v) ==> v.rows < usize::MAX,
        ensures
            match self {
                TreeModel::Virtual(v) => n == v.rows + 1,
                TreeModel::Real(r) => n == (if r.rows@.len() > 0 {
                    r.rows@.len() as int
                } else {
                    1
                }),
            },
    {
        match self {
            TreeModel::Virtual(tree) => tree.row_count(),
            TreeModel::Real(tree) => tree.row_count(),
        }
    }

    /// The row selected first.
    pub fn initial_selected_row(&self) -> (r: usize)
        ensures
            match self {
                TreeModel::Virtual(_) => r == 0,
                TreeModel::Real(t) => r == (if has_root_row(t.row_values()) && t.rows@.len() > 1 {
                    1int
                } else {
                    0
                }),
            },
    {
        match self {
            TreeModel::Virtual(_) => 0,
            TreeModel::Real(tree) => tree.initial_selected_row(),
        }
    }

    /// How many rows there are: `N rows` for the generated tree, the loaded
    /// and total children for a real one.
    pub fn row_count_label(&self) -> (s: String)
        requires
            self matches TreeModel::Virtual(v) ==> v.rows < usize::MAX,
        ensures
            match self {
                TreeModel::Virtual(v) => s@ == decimal((v.rows + 1) as nat) + " rows"@,
                TreeModel::Real(t) => s@ == child_detail(
                    t.total,
                    (if has_root_row(t.row_values()) {
                        t.rows@.len() - 1
                    } else {
                        t.rows@.len() as int
                    }) as nat,
                ),
            },
    {
        match self {
            TreeModel::Virtual(tree) => {
                let mut out: Vec<char> = Vec::new();
                push_decimal(&mut out, tree.row_count() as u64);
                push_str(&mut out, " rows");
                string_from_chars(&out)
            },
            TreeModel::Real(tree) => tree.row_count_label(),
        }
    }

    /// How a row reads in one line.
    pub fn row_label(&self, row: usize) -> (s: String)
        ensures
            match self {
                TreeModel::Virtual(_) => s@ == virtual_label(row as nat),
                TreeModel::Real(t) => (row < t.rows@.len() ==> s@ == summary_line(
                    t.rows@[row as int].summary@,
                )) && (row >= t.rows@.len() ==> s@ == "no real rows loaded"@),
            },
    {
        match self {
            TreeModel::Virtual(tree) => tree.row_label(row),
            TreeModel::Real(tree) => tree.row_label(row),
        }
    }

    /// The depth of a row of a real tree.
    pub fn real_row_depth(&self, row: usize) -> (d: Option<usize>)
        ensures
            match self {
                TreeModel::Virtual(_) => d is None,
                TreeModel::Real(t) => d == (if row < t.rows@.len() {
                    Some(t.rows@[row as int].depth)
                } else {
                    None
                }),
            },
    {
        match self {
            TreeModel::Real(tree) => tree.row_depth(row),
            TreeModel::Virtual(_) => None,
        }
    }

    /// The marker before a row of a real tree.
    pub fn real_row_tree_marker(&self, row: usize) -> (m: Option<&'static str>)
        ensures
            self is Virtual ==> m is None,
            self matches TreeModel::Real(t) ==> (row >= t.rows@.len() ==> m is None),
            self matches TreeModel::Real(t) ==> (row < t.rows@.len() ==> (m matches Some(s) && s@
                == (if !t.rows@[row as int].summary.has_children {
                " "@
            } else if t.rows@[row as int].expanded {
                "-"@
            } else {
                "+"@
            }))),
    {
        match self {
            TreeModel::Real(tree) => tree.row_tree_marker(row),
            TreeModel::Virtual(_) => None,
        }
    }

    /// The page a row of a real tree belongs to.
    pub fn real_row_page_index(&self, row: usize) -> (p: Option<usize>)
        ensures
            self is Virtual ==> p is None,
            self matches TreeModel::Real(t) ==> p == (if row < t.rows@.len() {
                page_index_of(t.rows@[row as int].summary.id@)
            } else {
                None
            }),
    {
        match self {
            TreeModel::Real(tree) => tree.row_page_index(row),
            TreeModel::Virtual(_) => None,
        }
    }

    /// The row of a page in a real tree.
    pub fn real_row_for_page_index(&self, page_index: usize) -> (r: Option<usize>)
        ensures
            self is Virtual ==> r is None,
            self matches TreeModel::Real(t) ==> r == (match first_row_where(
                t.row_values(),
                row_is_page(page_index),
            ) {
                Some(i) => Some(i as usize),
                None => None::<usize>,
            }),
    {
        match self {
            TreeModel::Real(tree) => tree.row_for_page_index(page_index),
            TreeModel::Virtual(_) => None,
        }
    }

    /// The page tree root's row of a real tree.
    pub fn real_page_root_row(&self) -> (r: Option<usize>)
        ensures
            self is Virtual ==> r is None,
            self matches TreeModel::Real(t) ==> r == (match first_row_where(
                t.row_values(),
                page_root_pred(),
            ) {
                Some(i) => Some(i as usize),
                None => None::<usize>,
            }),
    {
        match self {
            TreeModel::Real(tree) => tree.page_root_row(),
            TreeModel::Virtual(_) => None,
        }
    }

    /// The first content stream row of a page in a real tree.
    pub fn real_first_page_content_stream_row(&self, page_row: usize) -> (r: Option<usize>)
        requires
            page_row < usize::MAX,
        ensures
            self is Virtual ==> r is None,
            self matches TreeModel::Real(t) ==> match first_in(
                t.row_values(),
                page_row + 1,
                subtree_end_of(t.row_values(), page_row as int),
                content_stream_pred(),
            ) {
                Some(i) => r == Some(i as usize),
                None => r is None,
            },
    {
        match self {
            TreeModel::Real(tree) => tree.first_page_content_stream_row(page_row),
            TreeModel::Virtual(_) => None,
        }
    }

    /// The content rows of a page in a real tree that can be opened.
    pub fn real_page_content_candidate_rows(&self, page_row: usize) -> (v: Vec<usize>)
        requires
            page_row < usize::MAX,
        ensures
            self is Virtual ==> v@.len() == 0,
            self matches TreeModel::Real(t) ==> v@.map_values(|x: usize| x as int) == all_in(
                t.row_values(),
                page_row + 1,
                subtree_end_of(t.row_values(), page_row as int),
                content_candidate_pred(),
            ),
    {
        match self {
            TreeModel::Real(tree) => tree.page_content_candidate_rows(page_row),
            TreeModel::Virtual(_) => Vec::new(),
        }
    }

    /// Lists a page's child in a real tree; nothing for the generated tree.
    pub fn ensure_real_page_child_row(&mut self, page_root_row: usize, summary: ObjectSummary) -> (r:
        Option<usize>)
        requires
            *old(self) matches TreeModel::Real(t) ==> (page_root_row < t.rows@.len()
                ==> t.rows@[page_root_row as int].depth < usize::MAX),
        ensures
            *old(self) is Virtual ==> r is None && *final(self) == *old(self),
            *old(self) matches TreeModel::Real(t) ==> (*final(self) matches TreeModel::Real(u) && (
            u.row_values(), match r {
                Some(x) => Some(x as nat),
                None => None,
            }) == ensure_page_child_rows(t.row_values(), page_root_row as int, summary@)),
    {
        match self {
            TreeModel::Real(tree) => tree.ensure_page_child_row(page_root_row, summary),
            TreeModel::Virtual(_) => None,
        }
    }

    /// Where a row of a real tree can be shown on a rendered page.
    pub fn real_row_visual_target(&self, row: usize) -> (t: Option<RealVisualTarget>)
        ensures
            self is Virtual ==> t is None,
            self matches TreeModel::Real(tr) ==> t == (if row < tr.rows@.len() {
                visual_target(tr.rows@[row as int]@)
            } else {
                None
            }),
    {
        match self {
            TreeModel::Real(tree) => tree.row_visual_target(row),
            TreeModel::Virtual(_) => None,
        }
    }

    /// The rows a row refers to: generated references in the demo tree, the
    /// row itself in a real tree.
    pub fn reference_targets(&self, row: usize) -> (r: [usize; 3])
        requires
            self matches TreeModel::Virtual(v) ==> v.rows > 0 && (if row > 1 {
                row as int
            } else {
                1
            }) * 101 <= usize::MAX,
        ensures
            self is Real ==> r@ == seq![row, row, row],
            self matches TreeModel::Virtual(v) ==> r@ == virtual_reference_targets(v.rows, row),
    {
        match self {
            TreeModel::Virtual(tree) => tree.reference_targets(row),
            TreeModel::Real(_) => {
                let r = [row, row, row];
                assert(r@ =~= seq![row, row, row]);
                r
            },
        }
    }

    /// Lists an object in a real tree and gives its row; row 0 for the
    /// generated tree.
    pub fn ensure_real_object_row(&mut self, doc: DocumentId, object: ObjectId) -> (row: usize)
        ensures
            *old(self) is Virtual ==> row == 0 && *final(self) == *old(self),
            *old(self) matches TreeModel::Real(t) ==> (*final(self) matches TreeModel::Real(u) && (
            u.row_values(), row as nat) == ensure_object_rows(t.row_values(), doc, object)),
    {
        match self {
            TreeModel::Real(tree) => tree.ensure_object_row(doc, object),
            TreeModel::Virtual(_) => 0,
        }
    }

    /// Lists a search hit in a real tree and gives its row; none for the
    /// generated tree.
    pub fn ensure_real_search_hit_row(&mut self, doc: DocumentId, hit: &ObjectSearchHit) -> (row:
        Option<usize>)
        ensures
            *old(self) is Virtual ==> row is None && *final(self) == *old(self),
            *old(self) matches TreeModel::Real(t) ==> (*final(self) matches TreeModel::Real(u) && (
            u.row_values(), match row {
                Some(x) => Some(x as nat),
                None => None,
            }) == ensure_hit_rows(
                t.row_values(),
                doc,
                match hit.node {
                    Some(n) => Some(n@),
                    None => None,
                },
                hit.object,
                hit.label@,
                hit.excerpt@,
                hit.depth,
            )),
    {
        match self {
            TreeModel::Real(tree) => tree.ensure_search_hit_row(doc, hit),
            TreeModel::Virtual(_) => None,
        }
    }
}

// ---------------------------------------------------------------------------
// References out of a detail
// ---------------------------------------------------------------------------
/// `out` with `o` added at the end unless it is there already.
pub open spec fn push_unique(out: Seq<ObjectId>, o: ObjectId) -> Seq<ObjectId> {
    if out.contains(o) {
        out
    } else {
        out.push(o)
    }
}

/// `out` with each object of `objs` added in turn, once.
pub open spec fn push_objects(out: Seq<ObjectId>, objs: Seq<Option<ObjectId>>) -> Seq<ObjectId>
    decreases objs.len(),
{
    if objs.len() == 0 {
        out
    } else {
        let prev = push_objects(out, objs.drop_last());
        match objs.last() {
            Some(o) => push_unique(prev, o),
            None => prev,
        }
    }
}

/// The objects a detail refers to, each once: its own value's reference,
/// then those of its dictionary entries, then those of its array elements.
pub open spec fn reference_targets_of(detail: ObjectDetail) -> Seq<ObjectId> {
    let a = match detail.value {
        crate::model::ObjectValue::IndirectRef(o) => seq![o],
        _ => seq![],
    };
    let b = match detail.dictionary_entries {
        Some(p) => push_objects(a, Seq::new(p.items@.len(), |i: int| p.items@[i].value.object)),
        None => a,
    };
    match detail.array_entries {
        Some(p) => push_objects(b, Seq::new(p.items@.len(), |i: int| p.items@[i].object)),
        None => b,
    }
}

/// Adds `object` to `out` unless it is there already.
pub fn push_unique_object(out: &mut Vec<ObjectId>, object: ObjectId)
    ensures
        final(out)@ == push_unique(old(out)@, object),
{
    let mut i: usize = 0;
    while i < out.len()
        invariant
            0 <= i <= out@.len(),
            out@ == old(out)@,
            forall|k: int| 0 <= k < i ==> out@[k] != object,
        decreases out@.len() - i,
    {
        if out[i].num == object.num && out[i].gen == object.gen {
            assert(out@[i as int] == object);
            return;
        }
        i += 1;
    }
    out.push(object);
}

/// Adds the object a value refers to, if it is a reference.
pub fn push_value_reference(out: &mut Vec<ObjectId>, value: &crate::model::ObjectValue)
    ensures
        final(out)@ == (match value {
            crate::model::ObjectValue::IndirectRef(o) => push_unique(old(out)@, *o),
            _ => old(out)@,
        }),
{
    match value {
        crate::model::ObjectValue::IndirectRef(o) => push_unique_object(out, *o),
        _ => {},
    }
}

/// The objects a detail refers to, each once.
pub fn detail_reference_targets(detail: &ObjectDetail) -> (out: Vec<ObjectId>)
    ensures
        out@ == reference_targets_of(*detail),
{
    let mut out: Vec<ObjectId> = Vec::new();
    push_value_reference(&mut out, &detail.value);
    let ghost a = out@;
    assert(a =~= (match detail.value {
        crate::model::ObjectValue::IndirectRef(o) => seq![o],
        _ => seq![],
    }));
    match &detail.dictionary_entries {
        Some(p) => {
            let ghost objs = Seq::new(p.items@.len(), |i: int| p.items@[i].value.object);
            let mut i: usize = 0;
            assert(objs.take(0) =~= seq![]);
            while i < p.items.len()
                invariant
                    0 <= i <= p.items@.len(),
                    objs == Seq::new(p.items@.len(), |i: int| p.items@[i].value.object),
                    out@ == push_objects(a, objs.take(i as int)),
                decreases p.items@.len() - i,
            {
                assert(objs.take(i + 1).drop_last() =~= objs.take(i as int));
                match p.items[i].value.object {
                    Some(o) => push_unique_object(&mut out, o),
                    None => {},
                }
                i += 1;
            }
            assert(objs.take(i as int) =~= objs);
        },
        None => {},
    }
    let ghost b = out@;
    match &detail.array_entries {
        Some(p) => {
            let ghost objs = Seq::new(p.items@.len(), |i: int| p.items@[i].object);
            let mut i: usize = 0;
            assert(objs.take(0) =~= seq![]);
            while i < p.items.len()
                invariant
                    0 <= i <= p.items@.len(),
                    objs == Seq::new(p.items@.len(), |i: int| p.items@[i].object),
                    out@ == push_objects(b, objs.take(i as int)),
                decreases p.items@.len() - i,
            {
                assert(objs.take(i + 1).drop_last() =~= objs.take(i as int));
                match p.items[i].object {
                    Some(o) => push_unique_object(&mut out, o),
                    None => {},
                }
                i += 1;
            }
            assert(objs.take(i as int) =~= objs);
        },
        None => {},
    }
    out
}

/// Pushing objects once each never repeats one: a list without repeats
/// stays without repeats.
pub proof fn lemma_push_objects_distinct(out: Seq<ObjectId>, objs: Seq<Option<ObjectId>>)
    requires
        forall|i: int, j: int| 0 <= i < j < out.len() ==> out[i] != out[j],
    ensures
        forall|i: int, j: int|
            0 <= i < j < push_objects(out, objs).len() ==> push_objects(out, objs)[i] != push_objects(
                out,
                objs,
            )[j],
    decreases objs.len(),
{
    if objs.len() > 0 {
        lemma_push_objects_distinct(out, objs.drop_last());
        let prev = push_objects(out, objs.drop_last());
        match objs.last() {
            Some(o) => {
                if !prev.contains(o) {
                    assert forall|i: int, j: int| 0 <= i < j < prev.push(o).len() implies prev.push(o)[i]
                        != prev.push(o)[j] by {
                        if j == prev.len() {
                            assert(prev.push(o)[j] == o);
                            assert(prev.push(o)[i] == prev[i]);
                        }
                    }
                }
            },
            None => {},
        }
    }
}

/// The objects a detail refers to are listed once each.
pub proof fn lemma_reference_targets_distinct(detail: ObjectDetail)
    ensures
        forall|i: int, j: int|
            0 <= i < j < reference_targets_of(detail).len() ==> reference_targets_of(detail)[i]
                != reference_targets_of(detail)[j],
{
    let a = match detail.value {
        crate::model::ObjectValue::IndirectRef(o) => seq![o],
        _ => seq![],
    };
    let b = match detail.dictionary_entries {
        Some(p) => push_objects(a, Seq::new(p.items@.len(), |i: int| p.items@[i].value.object)),
        None => a,
    };
    match detail.dictionary_entries {
        Some(p) => lemma_push_objects_distinct(
            a,
            Seq::new(p.items@.len(), |i: int| p.items@[i].value.object),
        ),
        None => {},
    }
    match detail.array_entries {
        Some(p) => lemma_push_objects_distinct(b, Seq::new(p.items@.len(), |i: int| p.items@[i].object)),
        None => {},
    }
}

} // verus!
