use pdbg_app::cache::VisualPageCache;
use pdbg_app::labels::{
    child_page_detail, display_file_chip_label, display_path_hover, escape_plain_text,
    file_chip_label, file_chip_label_from, kind_badge_text, object_ref_text, option_text,
    optional_u64, text_search_hit_summary, visual_object_attribution_text,
};
use pdbg_app::model::{ObjectId, ObjectKind, TextSearchHit};
use pdbg_app::recent::{
    is_recent_path_entry_safe, normalize_recent_pdf_path,
    parse_recent_pdf_paths, record_recent_pdf_path, recent_pdf_paths_text, RECENT_PDF_MAX_ITEMS,
};

#[test]
fn option_text_hides_rust_debug_wrappers() {
    assert_eq!(option_text(Some("fake-hash")), "fake-hash");
    assert_eq!(option_text(None), "-");
}

#[test]
fn displayed_file_paths_neutralize_controls() {
    let path = format!("/tmp/report{}fdp.pdf", '\u{202e}');
    let label = display_file_chip_label(&path);
    let hover = display_path_hover(&path);

    assert!(!label.contains('\u{202e}'));
    assert!(!hover.contains('\u{202e}'));
    assert!(label.contains('\u{fffd}'));
    assert!(hover.contains('\u{fffd}'));
    assert_eq!(normalize_recent_pdf_path(&path, None), Some(path));
}

#[test]
fn visual_object_attribution_text_hides_missing_object() {
    assert_eq!(visual_object_attribution_text(None), None);
    assert_eq!(
        visual_object_attribution_text(Some(ObjectId { num: 12, gen: 0 })).as_deref(),
        Some("12 0 R")
    );
}

#[test]
fn text_search_hit_summary_egresses_display_controls() {
    let hit = TextSearchHit {
        page_index: 0,
        span_index: 2,
        excerpt: "A\0B\u{202e}C\nD".to_string(),
        untrusted: true,
    };

    let summary = text_search_hit_summary(&hit);

    assert!(summary.contains(&format!("A{}B{}C D", '\u{fffd}', '\u{fffd}')));
    assert!(!summary.contains('\0'));
    assert!(!summary.contains('\u{202e}'));
    assert!(summary.starts_with("p1 s2  "));
}

#[test]
fn visual_page_cache_reuses_lru_and_respects_element_budget() {
    let mut cache: VisualPageCache<u32> = VisualPageCache::new(2, 3);
    cache.insert(1, 1, 10);
    cache.insert(2, 1, 20);

    assert!(cache.get(1).is_some());
    cache.insert(3, 1, 30);

    assert!(cache.get(2).is_none());
    assert_eq!(cache.get(1), Some(10));
    assert_eq!(cache.get(3), Some(30));

    cache.insert(4, 4, 40);
    assert!(cache.get(4).is_none());
    assert_eq!(cache.len(), 2);
    assert!(cache.element_count() <= 3);
}

#[test]
fn recent_pdf_paths_are_deduped_bounded_and_persisted() {
    let first = "/nonexistent-dir-for-tests/first.pdf";
    let second = "/nonexistent-dir-for-tests/second.pdf";
    let mut recent = Vec::new();
    assert!(record_recent_pdf_path(&mut recent, first, None));
    assert!(record_recent_pdf_path(&mut recent, second, None));
    assert!(record_recent_pdf_path(&mut recent, first, None));
    assert_eq!(recent.len(), 2);
    assert_eq!(recent[0], first);
    assert!(!record_recent_pdf_path(&mut recent, "bad\npath.pdf", None));

    for index in 0..(RECENT_PDF_MAX_ITEMS + 4) {
        let path = format!("/nonexistent-dir-for-tests/extra-{index}.pdf");
        record_recent_pdf_path(&mut recent, &path, None);
    }
    assert_eq!(recent.len(), RECENT_PDF_MAX_ITEMS);

    let text = recent_pdf_paths_text(&recent);
    let loaded = parse_recent_pdf_paths(&text);
    assert_eq!(loaded, recent);
}

#[test]
fn recent_entries_reject_blank_and_multiline_paths() {
    assert!(is_recent_path_entry_safe("/a/b.pdf"));
    assert!(!is_recent_path_entry_safe("   "));
    assert!(!is_recent_path_entry_safe("a\rb"));
    assert_eq!(normalize_recent_pdf_path(" ", None), None);
    assert_eq!(
        normalize_recent_pdf_path("x.pdf", Some("/abs/x.pdf".to_string())),
        Some("/abs/x.pdf".to_string())
    );
    assert_eq!(
        normalize_recent_pdf_path("x.pdf", None),
        Some("x.pdf".to_string())
    );
}

#[test]
fn recent_file_text_skips_blank_lines() {
    let loaded = parse_recent_pdf_paths("  /a.pdf  \n\n/b.pdf\r\n");
    assert_eq!(loaded, vec!["/a.pdf".to_string(), "/b.pdf".to_string()]);
    assert_eq!(recent_pdf_paths_text(&loaded), "/a.pdf\n/b.pdf\n");
}

#[test]
fn escaping_replaces_controls_and_cuts_at_the_limit() {
    let e = escape_plain_text("ab\u{7}c\n", 100);
    assert_eq!(e.text, "ab\u{fffd}c\n");
    assert!(!e.truncated);
    let cut = escape_plain_text("abcdef", 3);
    assert_eq!(cut.text, "abc");
    assert!(cut.truncated);
    let wide = escape_plain_text("\u{e9}\u{e9}", 3);
    assert_eq!(wide.text, "\u{e9}");
    assert!(wide.truncated);
}

#[test]
fn small_labels() {
    assert_eq!(object_ref_text(ObjectId { num: 3, gen: 1 }), "3 1 R");
    assert_eq!(optional_u64(Some(9)), "9");
    assert_eq!(optional_u64(None), "-");
    assert_eq!(child_page_detail(Some(10), 4), "4 loaded / 10 total");
    assert_eq!(child_page_detail(None, 4), "4 loaded");
    assert_eq!(kind_badge_text(&ObjectKind::Dict), "<>");
    assert_eq!(file_chip_label_from("/a/b.pdf", Some("b.pdf".to_string())), "b.pdf");
    assert_eq!(file_chip_label_from("/a/", None), "/a/");
    assert_eq!(file_chip_label("/tmp/report.pdf"), "report.pdf");
}

#[test]
fn recorded_paths_use_the_canonical_form() {
    let mut recent = Vec::new();
    assert!(record_recent_pdf_path(&mut recent, " x.pdf ", Some("/abs/x.pdf".to_string())));
    assert_eq!(recent, vec!["/abs/x.pdf".to_string()]);
    assert!(!record_recent_pdf_path(&mut recent, "x.pdf", Some("/abs/x.pdf".to_string())));
    assert!(!record_recent_pdf_path(&mut recent, "x.pdf", Some("bad\n".to_string())));
}
