use pdbg_app::about::{infer_mupdf_version_from_path, mupdf_version_from_ancestor_names};
use pdbg_app::chunks::{RealStreamPreset, REAL_STREAM_DEFAULT_VIEW_LIMIT_BYTES};
use pdbg_app::labels::{
    display_file_chip_label, empty_status_log, file_chip_label, object_value_preview,
};
use pdbg_app::model::{
    ChildPage, DiagnosticSeverity, DiagnosticSummary, DocumentFacts, DocumentId, NodeId, ObjectId,
    ObjectKind, ObjectSummary, ObjectValue, StreamMode, StreamSummary, StreamViewMode,
    TextSearchHit, TextSearchPageError,
};
use pdbg_app::recent::{is_pdf_extension, is_pdf_path};
use pdbg_app::render::RealRenderKey;
use pdbg_app::shell::{
    breadcrumb_label, collected_diagnostics, current_render_key, document_chips,
    initial_shell_after_open, initial_shell_decision,
    initial_status_log, opened_pdf_status_log, render_page_change, window_title,
    RealStreamSettings, StreamPanelEvent, StreamPanelLoad, REAL_STREAM_MAX_VIEW_LIMIT_BYTES,
};
use pdbg_app::spans::{
    text_fragment_span_indices, text_hits_same_position, text_span_indices_for_fragment,
};
use pdbg_app::tree::{RealObjectTree, TreeModel, VirtualObjectTree};

fn facts(path: &str) -> DocumentFacts {
    DocumentFacts {
        doc: DocumentId(1),
        file_path: path.to_string(),
        page_count: 12,
        xref_size: 40,
        diagnostics: Vec::new(),
    }
}

#[test]
fn gui_empty_workspace_starts_without_fake_document() {
    let tree = TreeModel::Virtual(VirtualObjectTree::new(10));
    assert_eq!(document_chips(true, None).0, "No PDF");
    assert_eq!(window_title(None, true, None), "Scalpel");
    assert_eq!(breadcrumb_label(true, None, &tree, 0), "No document");
    assert!(empty_status_log().iter().any(|line| line == "No PDF open"));
}

#[test]
fn gui_window_title_reflects_document_and_pending_open() {
    assert_eq!(window_title(None, false, None), "fake.pdf - Scalpel");
    assert_eq!(
        window_title(Some("fixtures/synthetic/minimal.pdf"), false, None),
        "Opening minimal.pdf - Scalpel"
    );
}

#[test]
fn chips_and_title_name_the_open_document() {
    let f = facts("/docs/report.pdf");
    let chips = document_chips(false, Some(&f));
    assert_eq!(chips, ("report.pdf".to_string(), "pages 12".to_string(), "xref 40".to_string()));
    assert_eq!(
        document_chips(false, None),
        ("fake.pdf".to_string(), "pages 1".to_string(), "xref 3".to_string())
    );
    assert_eq!(window_title(None, false, Some(&f)), "report.pdf - Scalpel");
}

#[test]
fn status_logs_describe_how_the_document_opened() {
    let virtual_tree = TreeModel::Virtual(VirtualObjectTree::new(10));
    let log = opened_pdf_status_log(&virtual_tree, "/a/b.pdf");
    assert_eq!(log[0], "opened b.pdf");
    assert_eq!(log.len(), 3);
    let real = TreeModel::Real(RealObjectTree::from_child_page(&ChildPage {
        total: Some(2),
        items: Vec::new(),
    }));
    let log = opened_pdf_status_log(&real, "/a/b.pdf");
    assert_eq!(log[0], "real MuPDF opened b.pdf");
    assert!(log[1].starts_with("loaded bounded root page: "));
    let failed = initial_status_log(Some("bad header"), &real, Some("/a/b.pdf"));
    assert_eq!(failed, vec!["failed to open b.pdf".to_string(), "bad header".to_string()]);
    let demo = initial_status_log(None, &virtual_tree, None);
    assert_eq!(demo[0], "fake shim opened fake.pdf");
}

#[test]
fn breadcrumb_follows_detail_then_selection() {
    let doc = DocumentId(1);
    let tree = TreeModel::Real(RealObjectTree::from_child_page(&ChildPage {
        total: Some(1),
        items: vec![ObjectSummary {
            id: NodeId::PageRoot { doc },
            kind: ObjectKind::Array,
            label: "Pages".to_string(),
            preview: String::new(),
            object: None,
            has_children: true,
            has_stream: false,
            child_count: None,
            byte_size_hint: None,
            diagnostics: Vec::new(),
        }],
    }));
    let detail = NodeId::Trailer { doc };
    assert_eq!(breadcrumb_label(false, Some(&detail), &tree, 1), "Trailer");
    assert_eq!(breadcrumb_label(false, None, &tree, 1), "Pages");
    assert_eq!(breadcrumb_label(false, None, &tree, 99), "Document");
    let virtual_tree = TreeModel::Virtual(VirtualObjectTree::new(10));
    assert_eq!(breadcrumb_label(false, None, &virtual_tree, 3), "Document/FakeNode");
}

#[test]
fn render_page_changes_stay_in_the_document() {
    assert_eq!(render_page_change(0, 0, 3), None);
    assert_eq!(render_page_change(5, 2, 2), None);
    assert_eq!(render_page_change(5, 2, 3), Some(3));
    assert_eq!(render_page_change(5, 2, 99), Some(4));
    assert_eq!(render_page_change(5, 4, 99), None);
    assert_eq!(current_render_key(false, 5, 1, 0, 0, 100), None);
    assert_eq!(current_render_key(true, 0, 1, 0, 0, 100), None);
    let key = current_render_key(true, 5, 1, 1.0f32.to_bits(), 90, 100).unwrap();
    assert_eq!(key, RealRenderKey::new(1, 1.0f32.to_bits(), 90, 100));
}

#[test]
fn stream_presets_reset_the_window() {
    let stream = StreamSummary {
        object: ObjectId { num: 5, gen: 0 },
        filters: Vec::new(),
        raw_size_hint: Some(100),
        decoded_size_hint: None,
        can_decode: true,
        image_preview_available: false,
    };
    let mut settings = RealStreamSettings {
        preset: RealStreamPreset::Raw,
        mode: StreamMode::Decoded,
        view_mode: StreamViewMode::Text,
        offset: 4096,
        limit: 7,
    };
    assert!(settings.apply_real_stream_preset(&stream));
    assert_eq!(settings.mode, StreamMode::Raw);
    assert_eq!(settings.view_mode, StreamViewMode::Hex);
    assert_eq!(settings.offset, 0);
    assert_eq!(settings.limit, 100);
    assert!(!settings.apply_real_stream_preset(&stream));
    settings.preset = RealStreamPreset::Nice;
    assert!(settings.apply_real_stream_preset(&stream));
    assert_eq!(settings.mode, StreamMode::Decoded);
    assert_eq!(settings.limit, REAL_STREAM_DEFAULT_VIEW_LIMIT_BYTES);
}

#[test]
fn diagnostics_model_includes_text_page_errors_and_filters_codes() {
    let errors = vec![TextSearchPageError {
        page_index: 2,
        message: "limit".to_string(),
    }];
    let render = vec![DiagnosticSummary {
        severity: DiagnosticSeverity::Error,
        code: "RenderFailed".to_string(),
        message: "boom".to_string(),
        page_index: Some(0),
        object: None,
    }];
    let diagnostics = collected_diagnostics(None, None, None, Some(&render), Some(&errors));
    assert_eq!(diagnostics.len(), 2);
    assert_eq!(diagnostics[0].code, "RenderFailed");
    assert!(diagnostics.iter().any(|diagnostic| {
        diagnostic.code == "Unknown"
            && diagnostic.page_index == Some(2)
            && diagnostic.message.contains("text extraction failed")
    }));
    assert_eq!(diagnostics[1].message, "text extraction failed on page 3: limit");
}

#[test]
fn text_span_indices_find_single_and_joined_spans() {
    let spans = vec![
        "Country of".to_string(),
        "   ".to_string(),
        "Citizenship".to_string(),
        "China".to_string(),
    ];
    assert_eq!(text_span_indices_for_fragment(&spans, "china"), vec![3]);
    assert_eq!(
        text_span_indices_for_fragment(&spans, "Country of Citizenship"),
        vec![0, 2]
    );
    assert!(text_span_indices_for_fragment(&spans, "nowhere").is_empty());
    assert!(text_span_indices_for_fragment(&spans, "  ").is_empty());
    assert_eq!(
        text_fragment_span_indices(
            &spans,
            &["Country of Citizenship".to_string(), "country".to_string(), "China".to_string()]
        ),
        vec![0, 2, 3]
    );
}

#[test]
fn text_hits_compare_by_position_and_excerpt() {
    let a = TextSearchHit {
        page_index: 1,
        span_index: 2,
        excerpt: "x".to_string(),
        untrusted: false,
    };
    let mut b = a.clone();
    b.untrusted = true;
    assert!(text_hits_same_position(&a, &b));
    b.excerpt = "y".to_string();
    assert!(!text_hits_same_position(&a, &b));
}

#[test]
fn value_previews_show_scalars() {
    assert_eq!(object_value_preview(&ObjectValue::Null, "f").as_deref(), Some("null"));
    assert_eq!(object_value_preview(&ObjectValue::Bool(true), "f").as_deref(), Some("true"));
    assert_eq!(object_value_preview(&ObjectValue::Int(-42), "f").as_deref(), Some("-42"));
    assert_eq!(
        object_value_preview(&ObjectValue::Int(i64::MIN), "f").as_deref(),
        Some("-9223372036854775808")
    );
    assert_eq!(
        object_value_preview(&ObjectValue::Name("Type".to_string()), "f").as_deref(),
        Some("/Type")
    );
    assert_eq!(
        object_value_preview(
            &ObjectValue::StringBytes {
                bytes: vec![1, 2, 3],
                decoded_text: None
            },
            "f"
        )
        .as_deref(),
        Some("3 bytes")
    );
    assert_eq!(
        object_value_preview(&ObjectValue::IndirectRef(ObjectId { num: 4, gen: 0 }), "f")
            .as_deref(),
        Some("4 0 R")
    );
    assert_eq!(object_value_preview(&ObjectValue::Container, "<<...>>").as_deref(), Some("<<...>>"));
    assert_eq!(object_value_preview(&ObjectValue::Real(1.5f64.to_bits()), "f"), None);
}

#[test]
fn pdf_paths_are_recognised_by_extension() {
    assert!(is_pdf_path("/a/b.PDF"));
    assert!(is_pdf_path("b.pdf"));
    assert!(!is_pdf_path("/a/b.txt"));
    assert!(!is_pdf_path("/a/pdf"));
    assert!(is_pdf_extension(Some("PdF")));
    assert!(!is_pdf_extension(None));
}

#[test]
fn mupdf_versions_come_from_ancestor_directories() {
    assert_eq!(
        infer_mupdf_version_from_path("/opt/mupdf-1.24.2-source/include"),
        Some("1.24.2".to_string())
    );
    assert_eq!(infer_mupdf_version_from_path("/usr/include"), None);
    assert_eq!(
        infer_mupdf_version_from_path("mupdf-1.24.2-source"),
        Some("1.24.2".to_string())
    );
    assert_eq!(infer_mupdf_version_from_path("mupdf-latest"), None);
    assert_eq!(
        mupdf_version_from_ancestor_names(&[
            None,
            Some("include".to_string()),
            Some("mupdf-1.23.0".to_string()),
        ]),
        Some("1.23.0".to_string())
    );
}

#[test]
fn file_names_come_from_the_last_path_component() {
    assert_eq!(file_chip_label("report.pdf"), "report.pdf");
    assert_eq!(file_chip_label("/a/b/report.pdf"), "report.pdf");
    assert_eq!(display_file_chip_label("docs/x\u{7}y.pdf"), "x\u{fffd}y.pdf");
    assert!(is_pdf_path("/a/b/c.pdf"));
    assert!(!is_pdf_path(".pdf"));
    assert!(!is_pdf_path("a/b.pdf.txt"));
    assert_eq!(
        window_title(Some("/home/u/docs/minimal.pdf"), false, None),
        "Opening minimal.pdf - Scalpel"
    );
    assert_eq!(
        infer_mupdf_version_from_path("build/mupdf-1.23.0-source/include/mupdf"),
        Some("1.23.0".to_string())
    );
}

#[test]
fn start_up_decides_between_empty_and_open() {
    let d = initial_shell_decision(true, None, None);
    assert!(d.empty_workspace);
    assert!(!d.open_document);
    assert_eq!(d.render_max_dimension, pdbg_app::render::DEFAULT_RENDER_MAX_DIMENSION);
    let d = initial_shell_decision(true, Some("a.pdf"), Some(512));
    assert!(!d.empty_workspace);
    assert!(d.open_document);
    assert_eq!(d.open_path.as_deref(), Some("a.pdf"));
    assert_eq!(d.render_max_dimension, 512);

    let tree = TreeModel::Virtual(VirtualObjectTree::new(10));
    let empty = initial_shell_after_open(true, Some("No PDF open"), &tree, None, None, None);
    assert_eq!(empty.status_log[0], "No PDF open");
    assert!(!empty.record_recent);
    let real = TreeModel::Real(RealObjectTree::from_child_page(&ChildPage {
        total: Some(2),
        items: Vec::new(),
    }));
    let pages = ChildPage { total: Some(3), items: Vec::new() };
    let opened = initial_shell_after_open(false, None, &real, Some("/d/a.pdf"), Some(&pages), None);
    assert_eq!(opened.status_log[0], "real MuPDF opened a.pdf");
    assert_eq!(opened.status_log.last().unwrap(), "loaded page list 0 loaded / 3 total");
    assert!(opened.record_recent);
    let failed = initial_shell_after_open(false, None, &real, Some("/d/a.pdf"), None, Some("bad"));
    assert_eq!(failed.status_log.last().unwrap(), "page list load failed: bad");
}

#[test]
fn paths_ending_in_separator_dot_or_parent_read_as_std_does() {
    assert_eq!(file_chip_label("/usr/bin/"), "bin");
    assert_eq!(file_chip_label("docs/report.pdf/."), "report.pdf");
    assert_eq!(file_chip_label("docs/.."), "docs/..");
    assert_eq!(file_chip_label(".."), "..");
    assert_eq!(display_file_chip_label("/a/b/"), "b");
    assert!(is_pdf_path("/a/report.pdf/"));
    assert!(is_pdf_path("report.pdf/."));
    assert!(!is_pdf_path("report.pdf/.."));
}

fn panel_stream(can_decode: bool) -> StreamSummary {
    StreamSummary {
        object: ObjectId { num: 5, gen: 0 },
        filters: Vec::new(),
        raw_size_hint: Some(100),
        decoded_size_hint: Some(300),
        can_decode,
        image_preview_available: false,
    }
}

#[test]
fn stream_panel_first_show_applies_preset_and_loads() {
    let stream = panel_stream(true);
    let mut settings = RealStreamSettings {
        preset: RealStreamPreset::Nice,
        mode: StreamMode::Raw,
        view_mode: StreamViewMode::Hex,
        offset: 64,
        limit: 7,
    };
    let idle = StreamPanelLoad { has_key: false, has_chunk: false, has_job: false };
    let actions = settings.real_stream_panel_step(&stream, idle, StreamPanelEvent::Nothing, false);
    assert_eq!(settings.mode, StreamMode::Decoded);
    assert_eq!(settings.view_mode, StreamViewMode::Text);
    assert_eq!(settings.offset, 0);
    assert_eq!(settings.limit, 300);
    assert!(!actions.clear);
    assert!(actions.load);
    assert!(!actions.cancel);
}

#[test]
fn stream_panel_controls_clear_reload_and_cancel() {
    let stream = panel_stream(false);
    let loaded = StreamPanelLoad { has_key: true, has_chunk: true, has_job: false };
    let loading = StreamPanelLoad { has_key: true, has_chunk: false, has_job: true };
    let mut settings = RealStreamSettings {
        preset: RealStreamPreset::Raw,
        mode: StreamMode::Raw,
        view_mode: StreamViewMode::Hex,
        offset: 0,
        limit: 100,
    };
    let a = settings.real_stream_panel_step(&stream, loaded, StreamPanelEvent::Nothing, true);
    assert!(!a.clear && !a.load && !a.cancel);
    let a = settings.real_stream_panel_step(&stream, loaded, StreamPanelEvent::SetOffset(32), false);
    assert_eq!(settings.offset, 32);
    assert!(a.clear && a.load && !a.cancel);
    let a = settings.real_stream_panel_step(
        &stream,
        loaded,
        StreamPanelEvent::ChooseMode(StreamMode::Decoded),
        true,
    );
    assert_eq!(settings.mode, StreamMode::Raw);
    assert!(!a.clear && !a.load);
    let a = settings.real_stream_panel_step(
        &stream,
        loaded,
        StreamPanelEvent::SetLimit(usize::MAX),
        false,
    );
    assert_eq!(settings.limit, REAL_STREAM_MAX_VIEW_LIMIT_BYTES);
    assert!(a.clear && a.load);
    let a = settings.real_stream_panel_step(&stream, loaded, StreamPanelEvent::Reload, false);
    assert!(a.clear && a.load && !a.cancel);
    let a = settings.real_stream_panel_step(&stream, loading, StreamPanelEvent::CancelLoad, false);
    assert!(!a.clear && !a.load && a.cancel);
    settings.mode = StreamMode::Decoded;
    let a = settings.real_stream_panel_step(&stream, loading, StreamPanelEvent::Nothing, true);
    assert_eq!(settings.mode, StreamMode::Raw);
    assert!(a.clear && a.load && !a.cancel);
    let a = settings.real_stream_panel_step(
        &stream,
        loaded,
        StreamPanelEvent::ChoosePreset(RealStreamPreset::Nice),
        false,
    );
    assert_eq!(settings.preset, RealStreamPreset::Nice);
    assert_eq!(settings.view_mode, StreamViewMode::Text);
    assert_eq!(settings.offset, 0);
    assert!(a.clear && a.load);
}
