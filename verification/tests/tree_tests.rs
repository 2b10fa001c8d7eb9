use pdbg_app::model::{
    ChildPage, DiagnosticSeverity, DiagnosticSummary, DocumentId, NodeId, ObjectDetail, ObjectId,
    ObjectKind, ObjectSearchField, ObjectSearchHit, ObjectSummary, ObjectValue, ResourceGroup,
};
use pdbg_app::node::{
    is_page_content_stream_node, is_page_row_node_for_index, node_breadcrumb, page_index_for_node,
};
use pdbg_app::model::DictEntrySummary;
use pdbg_app::tree::{detail_reference_targets, RealObjectTree, RealTreeRow, VirtualObjectTree};

fn summary(id: NodeId, kind: ObjectKind, label: &str, preview: &str) -> ObjectSummary {
    ObjectSummary {
        id,
        kind,
        label: label.to_string(),
        preview: preview.to_string(),
        object: None,
        has_children: false,
        has_stream: false,
        child_count: None,
        byte_size_hint: None,
        diagnostics: Vec::new(),
    }
}

#[test]
fn virtual_tree_does_not_materialize_rows() {
    let tree = VirtualObjectTree::new(1_000_000);
    assert_eq!(tree.row_count(), 1_000_001);
    assert_eq!(tree.row_label(0), "root / catalog");
    assert_eq!(tree.row_label(999_999), "obj 999999 0 R  /FakeNode248");
}

#[test]
fn page_content_stream_node_detection_follows_contents_arrays() {
    let doc = DocumentId(7);
    let page = NodeId::Page { doc, index: 0 };
    let contents = NodeId::DictEntry {
        doc,
        parent: Box::new(page),
        key: "Contents".to_string(),
    };
    let content_item = NodeId::ArrayEntry {
        doc,
        parent: Box::new(contents),
        index: 0,
    };
    let media_box = NodeId::DictEntry {
        doc,
        parent: Box::new(NodeId::Page {
            doc: DocumentId(7),
            index: 0,
        }),
        key: "MediaBox".to_string(),
    };

    assert!(is_page_content_stream_node(&content_item));
    assert!(!is_page_content_stream_node(&media_box));
}

#[test]
fn real_tree_finds_page_content_stream_descendant() {
    let doc = DocumentId(7);
    let page = NodeId::ArrayEntry {
        doc,
        parent: Box::new(NodeId::PageRoot { doc }),
        index: 1,
    };
    let mut content_stream = summary(
        NodeId::DictEntry {
            doc,
            parent: Box::new(page.clone()),
            key: "Contents".to_string(),
        },
        ObjectKind::Stream,
        "Contents",
        "7 0 R stream",
    );
    content_stream.object = Some(ObjectId { num: 7, gen: 0 });
    content_stream.has_stream = true;
    let media_box = summary(
        NodeId::DictEntry {
            doc,
            parent: Box::new(page.clone()),
            key: "MediaBox".to_string(),
        },
        ObjectKind::Array,
        "MediaBox",
        "",
    );
    let mut page_summary = summary(page, ObjectKind::Page, "Page 2", "");
    page_summary.has_children = true;
    page_summary.child_count = Some(2);
    let tree = RealObjectTree {
        rows: vec![
            RealTreeRow {
                summary: page_summary,
                depth: 0,
                expanded: true,
            },
            RealTreeRow {
                summary: media_box,
                depth: 1,
                expanded: false,
            },
            RealTreeRow {
                summary: content_stream,
                depth: 1,
                expanded: false,
            },
        ],
        root_children: Vec::new(),
        total: Some(1),
    };

    assert_eq!(tree.first_page_content_stream_row(0), Some(2));
    assert_eq!(tree.page_content_candidate_rows(0), vec![2]);
}

#[test]
fn real_tree_search_hit_row_preserves_search_node() {
    let doc = DocumentId(7);
    let node = NodeId::DictEntry {
        doc,
        parent: Box::new(NodeId::DocumentRoot { doc }),
        key: "Needs".to_string(),
    };
    let hit = ObjectSearchHit {
        label: "Needs".to_string(),
        matched_field: ObjectSearchField::DictionaryKey,
        excerpt: "Needs".to_string(),
        object: None,
        node: Some(node.clone()),
        depth: 2,
    };
    let mut tree = RealObjectTree::from_child_page(&ChildPage {
        total: Some(0),
        items: Vec::new(),
    });

    let row = tree.ensure_search_hit_row(doc, &hit).unwrap();

    assert!(tree.rows[row].summary.id.same(&node));
    assert_eq!(tree.rows[row].summary.preview, "Needs");
    assert_eq!(tree.rows[row].depth, 2);
}

#[test]
fn real_tree_row_anatomy_uses_kind_count_ref_preview_and_diagnostics() {
    let mut s = summary(
        NodeId::XrefObject {
            doc: DocumentId(7),
            object: ObjectId { num: 12, gen: 0 },
        },
        ObjectKind::Dict,
        "Info",
        "<< /Creator (...) >>",
    );
    s.object = Some(ObjectId { num: 12, gen: 0 });
    s.has_children = true;
    s.has_stream = true;
    s.child_count = Some(3);
    s.diagnostics = vec![DiagnosticSummary {
        severity: DiagnosticSeverity::Warning,
        code: "RepairWarning".to_string(),
        message: "repaired".to_string(),
        page_index: None,
        object: Some(ObjectId { num: 12, gen: 0 }),
    }];
    let tree = RealObjectTree::from_child_page(&ChildPage {
        total: Some(1),
        items: vec![s],
    });

    assert_eq!(tree.row_count_label(), "1 loaded / 1 total");
    assert_eq!(tree.row_depth(0), Some(0));
    assert_eq!(tree.row_depth(1), Some(1));
    assert_eq!(tree.row_tree_marker(0), Some("-"));
    assert!(tree.row_label(1).contains("[12 0 R]"));
    let row_text = tree.row_layout_text(1);
    assert!(row_text.contains("<> Info (3) [12 0 R]"));
    assert!(!row_text.contains("preview"));
    assert!(row_text.contains("stream"));
}

#[test]
fn real_tree_detail_refresh_keeps_structural_label_stable() {
    let id = NodeId::DocumentRoot { doc: DocumentId(7) };
    let mut s = summary(
        id.clone(),
        ObjectKind::Unknown,
        "Trailer",
        "PDF trailer dictionary",
    );
    s.has_children = true;
    s.child_count = Some(4);
    let mut tree = RealObjectTree {
        rows: vec![RealTreeRow {
            summary: s,
            depth: 0,
            expanded: false,
        }],
        root_children: Vec::new(),
        total: Some(1),
    };
    let detail = ObjectDetail {
        id,
        kind: ObjectKind::Trailer,
        object: None,
        label: "Object".to_string(),
        preview: "<object preview exceeds max depth>".to_string(),
        value: ObjectValue::Container,
        dictionary_entries: Some(ChildPage {
            total: Some(4),
            items: Vec::new(),
        }),
        array_entries: None,
        stream: None,
        diagnostics: Vec::new(),
    };

    tree.update_row_from_detail(0, &detail);

    let row_text = tree.row_layout_text(0);
    assert!(row_text.contains("trl Trailer (4)"));
    assert!(!row_text.contains("Object"));
    assert_eq!(tree.row_label(0), "PDF trailer dictionary");
}

#[test]
fn real_tree_page_rows_use_dictionary_badge_before_detail_load() {
    let doc = DocumentId(9);
    let mut s = summary(
        NodeId::ArrayEntry {
            doc,
            parent: Box::new(NodeId::PageRoot { doc }),
            index: 3,
        },
        ObjectKind::Page,
        "Page 4",
        "",
    );
    s.has_children = true;
    let tree = RealObjectTree::from_child_page(&ChildPage {
        total: Some(1),
        items: vec![s],
    });

    let row_text = tree.row_layout_text(1);
    assert!(row_text.starts_with("<> Page 4"));
    assert!(!row_text.starts_with("page Page 4"));
}

#[test]
fn real_tree_xref_object_rows_use_object_badge_before_detail_load() {
    let doc = DocumentId(10);
    let mut s = summary(
        NodeId::XrefObject {
            doc,
            object: ObjectId { num: 4, gen: 0 },
        },
        ObjectKind::XrefEntry,
        "Object 4 0 R",
        "",
    );
    s.object = Some(ObjectId { num: 4, gen: 0 });
    s.has_children = true;
    s.child_count = Some(5);
    let tree = RealObjectTree::from_child_page(&ChildPage {
        total: Some(1),
        items: vec![s],
    });

    let row_text = tree.row_layout_text(1);
    assert!(row_text.starts_with("<> Object 4 0 R"));
    assert!(!row_text.starts_with("xref Object 4 0 R"));
}

#[test]
fn node_breadcrumb_formats_public_path_segments() {
    let id = NodeId::DictEntry {
        doc: DocumentId(1),
        parent: Box::new(NodeId::ArrayEntry {
            doc: DocumentId(1),
            parent: Box::new(NodeId::PageRoot { doc: DocumentId(1) }),
            index: 0,
        }),
        key: "Contents".to_string(),
    };

    assert_eq!(node_breadcrumb(&id), "Pages/[0]/Contents");
}

#[test]
fn page_index_for_node_follows_page_children() {
    let id = NodeId::DictEntry {
        doc: DocumentId(1),
        parent: Box::new(NodeId::ArrayEntry {
            doc: DocumentId(1),
            parent: Box::new(NodeId::Page {
                doc: DocumentId(1),
                index: 3,
            }),
            index: 0,
        }),
        key: "Contents".to_string(),
    };

    assert_eq!(page_index_for_node(&id), Some(3));
    assert_eq!(
        page_index_for_node(&NodeId::ArrayEntry {
            doc: DocumentId(1),
            parent: Box::new(NodeId::DictEntry {
                doc: DocumentId(1),
                parent: Box::new(NodeId::Catalog { doc: DocumentId(1) }),
                key: "Pages".to_string(),
            }),
            index: 1,
        }),
        Some(1)
    );
    assert_eq!(
        page_index_for_node(&NodeId::ResourceGroup {
            doc: DocumentId(1),
            page_index: 2,
            group: ResourceGroup::XObjects,
        }),
        Some(2)
    );
    assert_eq!(
        page_index_for_node(&NodeId::Trailer { doc: DocumentId(1) }),
        None
    );
}

#[test]
fn page_row_node_detection_ignores_page_child_nodes() {
    let doc = DocumentId(1);
    let page = NodeId::ArrayEntry {
        doc,
        parent: Box::new(NodeId::PageRoot { doc }),
        index: 2,
    };
    let media_box = NodeId::DictEntry {
        doc,
        parent: Box::new(page.clone()),
        key: "MediaBox".to_string(),
    };

    assert!(is_page_row_node_for_index(&page, 2));
    assert!(!is_page_row_node_for_index(&media_box, 2));
}

fn page_tree() -> RealObjectTree {
    let doc = DocumentId(3);
    let mut pages = summary(NodeId::PageRoot { doc }, ObjectKind::Array, "Pages", "");
    pages.has_children = true;
    pages.child_count = Some(2);
    RealObjectTree::from_child_page(&ChildPage {
        total: Some(1),
        items: vec![pages],
    })
}

fn page_entry(index: usize) -> ObjectSummary {
    let doc = DocumentId(3);
    let mut s = summary(
        NodeId::ArrayEntry {
            doc,
            parent: Box::new(NodeId::PageRoot { doc }),
            index,
        },
        ObjectKind::Page,
        "Page",
        "",
    );
    s.has_children = true;
    s
}

#[test]
fn expanding_then_collapsing_a_row_restores_the_tree() {
    let mut tree = page_tree();
    let before = tree.row_count();
    let detail = ObjectDetail {
        id: NodeId::PageRoot { doc: DocumentId(3) },
        kind: ObjectKind::Array,
        object: None,
        label: "Pages".to_string(),
        preview: String::new(),
        value: ObjectValue::Container,
        dictionary_entries: None,
        array_entries: Some(ChildPage {
            total: Some(2),
            items: vec![page_entry(0), page_entry(1)],
        }),
        stream: None,
        diagnostics: Vec::new(),
    };
    let inserted = tree.expand_row_from_detail(1, &detail);
    assert_eq!(inserted, 2);
    assert_eq!(tree.row_count(), before + 2);
    assert_eq!(tree.row_depth(2), Some(2));
    assert_eq!(tree.row_page_index(3), Some(1));
    assert_eq!(tree.row_for_page_index(1), Some(3));
    let removed = tree.collapse_row(1);
    assert_eq!(removed, 2);
    assert_eq!(tree.row_count(), before);
    assert_eq!(tree.row_for_page_index(1), None);
}

#[test]
fn ensuring_an_object_row_twice_gives_the_same_row() {
    let mut tree = page_tree();
    let object = ObjectId { num: 42, gen: 0 };
    let first = tree.ensure_object_row(DocumentId(3), object);
    let count = tree.row_count();
    let second = tree.ensure_object_row(DocumentId(3), object);
    assert_eq!(first, second);
    assert_eq!(tree.row_count(), count);
    assert_eq!(tree.row_for_object(object), Some(first));
}

#[test]
fn page_child_row_is_found_under_the_page_root() {
    let mut tree = page_tree();
    let root = tree.page_root_row().unwrap();
    let row = tree.ensure_page_child_row(root, page_entry(4)).unwrap();
    assert!(row > root);
    assert_eq!(tree.row_page_index(row), Some(4));
    let again = tree.ensure_page_child_row(root, page_entry(4)).unwrap();
    assert_eq!(row, again);
}

#[test]
fn reference_targets_list_each_object_once() {
    let doc = DocumentId(2);
    let mut entry = summary(NodeId::Catalog { doc }, ObjectKind::IndirectRef, "Pages", "");
    entry.object = Some(ObjectId { num: 3, gen: 0 });
    let mut again = summary(NodeId::Catalog { doc }, ObjectKind::IndirectRef, "Outlines", "");
    again.object = Some(ObjectId { num: 3, gen: 0 });
    let mut other = summary(NodeId::Catalog { doc }, ObjectKind::IndirectRef, "Info", "");
    other.object = Some(ObjectId { num: 9, gen: 0 });
    let detail = ObjectDetail {
        id: NodeId::Catalog { doc },
        kind: ObjectKind::Dict,
        object: None,
        label: "Catalog".to_string(),
        preview: String::new(),
        value: ObjectValue::IndirectRef(ObjectId { num: 9, gen: 0 }),
        dictionary_entries: Some(ChildPage {
            total: Some(3),
            items: vec![
                DictEntrySummary { key: "Pages".to_string(), value: entry },
                DictEntrySummary { key: "Outlines".to_string(), value: again },
                DictEntrySummary { key: "Info".to_string(), value: other },
            ],
        }),
        array_entries: None,
        stream: None,
        diagnostics: Vec::new(),
    };
    assert_eq!(
        detail_reference_targets(&detail),
        vec![ObjectId { num: 9, gen: 0 }, ObjectId { num: 3, gen: 0 }]
    );
}

#[test]
fn virtual_references_never_point_at_the_catalog() {
    let tree = VirtualObjectTree::new(100);
    assert_eq!(tree.reference_targets(0), [3, 11, 1]);
    assert_eq!(tree.reference_targets(50), [50, 50, 50]);
    assert_eq!(tree.reference_targets(7), [21, 77, 7]);
}
