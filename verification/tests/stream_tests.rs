use pdbg_app::chunks::{
    fake_stream_byte, hex_dump_bytes, real_stream_chunks_has_more, real_stream_chunks_range_label,
    real_stream_default_limit, real_stream_loaded_label, real_stream_next_offset,
    real_stream_edge_request, real_stream_preset_defaults, real_stream_previous_offset,
    stream_chunk_display_text, StreamScrollEdge,
    LargeStreamModel, RealStreamKey, RealStreamPreset, RealStreamWindowCache,
    REAL_STREAM_DEFAULT_VIEW_LIMIT_BYTES, REAL_STREAM_MAX_LOADED_WINDOWS,
};
use pdbg_app::model::{ObjectId, StreamChunk, StreamMode, StreamSummary, StreamViewMode, TextSearchHit};
use pdbg_app::nice::{pdf_content_stream_nice_lines, pdf_content_stream_nice_text};
use pdbg_app::stream::{
    nice_stream_do_resource_for_selection, nice_stream_line_operator,
    nice_stream_selection_has_non_text_visual_ops, nice_stream_selection_key_for_text_hit,
    nice_stream_text_fragments_for_selection, real_stream_nice_render_lines, VisualElementKind,
    nice_stream_line_visual_kind, nice_stream_visible_rows, toggle_collapsed,
};

fn decoded_chunk(offset: u64, bytes: &[u8], total: Option<u64>, truncated: bool) -> StreamChunk {
    StreamChunk {
        mode: StreamMode::Decoded,
        offset,
        bytes: bytes.to_vec(),
        total_size: total,
        truncated,
        decode_diagnostics: Vec::new(),
    }
}

#[test]
fn stream_hex_window_uses_generated_bytes() {
    let model = LargeStreamModel::default();
    let window = model.hex_window();
    assert!(window.starts_with("00000000  11 30 4f 6e"));
    assert!(window.lines().count() > 1);
}

#[test]
fn hex_dump_bytes_formats_offsets_hex_and_ascii() {
    let dump = hex_dump_bytes(16, b"BT /F1\n");
    assert!(dump.starts_with("00000010  42 54 20 2f 46 31 0a"));
    assert!(dump.contains("BT /F1."));
}

#[test]
fn stream_chunk_display_text_supports_hex_text_and_bytes() {
    let chunk = decoded_chunk(32, b"Hi\n", Some(3), false);

    assert!(stream_chunk_display_text(&chunk, StreamViewMode::Hex).starts_with("00000020  48 69 0a"));
    assert_eq!(stream_chunk_display_text(&chunk, StreamViewMode::Text), "Hi\n");
    assert_eq!(stream_chunk_display_text(&chunk, StreamViewMode::Bytes), "72 105 10");
}

#[test]
fn pdf_content_stream_nice_text_indents_content_stream_structure() {
    let nice = pdf_content_stream_nice_text(
        b"q 1 0 0 -1 0 792 cm q /GS63 gs 0 0 541.44 753.96 re f* Q \
          /P << /MCID 0 >> BDC BT /FT68 360 Tf <0017> Tj ET EMC Q",
    );

    assert_eq!(
        nice,
        "q\n  1 0 0 -1 0 792 cm\n  q\n    /GS63 gs\n    0 0 541.44 753.96 re\n    f*\n  Q\n  /P << /MCID 0 >> BDC\n    BT\n      /FT68 360 Tf\n      <0017> Tj\n    ET\n  EMC\nQ\n"
    );
}

#[test]
fn nice_stream_render_lines_group_selection_by_structural_block() {
    let object = ObjectId { num: 38, gen: 0 };
    let chunks = vec![decoded_chunk(
        0,
        b"q /P << /MCID 0 >> BDC BT /F1 9 Tf (Hi) Tj ET EMC Q",
        Some(64),
        false,
    )];

    let rows = real_stream_nice_render_lines(object, &chunks);
    let bdc_key = rows
        .iter()
        .find(|row| row.line.text.ends_with(" BDC"))
        .unwrap()
        .line_key
        .clone();
    let bt_key = rows
        .iter()
        .find(|row| row.line.text == "BT")
        .unwrap()
        .line_key
        .clone();

    assert_eq!(
        rows.iter()
            .find(|row| row.line.text == "/F1 9 Tf")
            .unwrap()
            .block_key
            .as_deref(),
        Some(bt_key.as_str())
    );
    assert!(rows
        .iter()
        .find(|row| row.line.text == "/F1 9 Tf")
        .unwrap()
        .guide_blocks
        .iter()
        .any(|(_, key)| key == &bdc_key));
    assert!(rows
        .iter()
        .find(|row| row.line.text == "/F1 9 Tf")
        .unwrap()
        .guide_blocks
        .iter()
        .any(|(_, key)| key == &bt_key));
    assert_eq!(
        rows.iter()
            .find(|row| row.line.text == "EMC")
            .unwrap()
            .block_key
            .as_deref(),
        Some(bdc_key.as_str())
    );
}

#[test]
fn nice_stream_selection_extracts_text_fragments_from_block() {
    let object = ObjectId { num: 7, gen: 0 };
    let chunks = vec![decoded_chunk(
        0,
        b"BT /F1 12 Tf (Country of Citizenship) Tj ET",
        Some(47),
        false,
    )];
    let rows = real_stream_nice_render_lines(object, &chunks);
    let bt_key = rows
        .iter()
        .find(|row| row.line.text == "BT")
        .unwrap()
        .line_key
        .clone();

    assert_eq!(
        nice_stream_text_fragments_for_selection(&rows, &bt_key),
        vec!["Country of Citizenship"]
    );
}

#[test]
fn nice_stream_text_hit_selects_matching_text_show_line() {
    let object = ObjectId { num: 7, gen: 0 };
    let chunks = vec![decoded_chunk(
        0,
        b"BT /F1 12 Tf (Country of Citizenship) Tj (China) Tj ET",
        Some(59),
        false,
    )];
    let rows = real_stream_nice_render_lines(object, &chunks);
    let hit = TextSearchHit {
        page_index: 0,
        span_index: 0,
        excerpt: "Country of Citizenship".to_string(),
        untrusted: false,
    };

    let key = nice_stream_selection_key_for_text_hit(&rows, &hit).unwrap();
    let row = rows.iter().find(|row| row.line_key == key).unwrap();

    assert_eq!(row.line.text, "(Country of Citizenship) Tj");
}

#[test]
fn real_stream_default_limit_uses_bounded_windows() {
    let stream = StreamSummary {
        object: ObjectId { num: 262, gen: 0 },
        filters: vec!["FlateDecode".to_string()],
        raw_size_hint: Some(6417),
        decoded_size_hint: None,
        can_decode: true,
        image_preview_available: false,
    };

    assert_eq!(real_stream_default_limit(&stream, StreamMode::Raw), 6417);
    assert_eq!(
        real_stream_default_limit(&stream, StreamMode::Decoded),
        REAL_STREAM_DEFAULT_VIEW_LIMIT_BYTES
    );
}

#[test]
fn real_stream_chunks_range_label_describes_loaded_span_not_manual_windows() {
    let chunks = vec![decoded_chunk(0, &[b' '; 4096], Some(72_511), true)];

    let label = real_stream_chunks_range_label(&chunks);

    assert_eq!(label, "bytes 0..4096 / total 72511 / more");
    assert!(!label.contains("truncated"));
    assert!(real_stream_chunks_has_more(&chunks));
}

#[test]
fn real_stream_window_cache_keeps_recent_neighbors_bounded() {
    let mut cache = RealStreamWindowCache::new();
    let object = ObjectId { num: 4, gen: 0 };
    for index in 0..(REAL_STREAM_MAX_LOADED_WINDOWS + 2) {
        let offset = (index * 64) as u64;
        let key = RealStreamKey {
            object,
            mode: StreamMode::Decoded,
            offset,
            limit: 64,
        };
        cache.insert_real_stream_window(key, decoded_chunk(offset, &[b' '; 64], Some(1024), true));
    }

    assert_eq!(cache.len(), REAL_STREAM_MAX_LOADED_WINDOWS);
    assert_eq!(cache.window(0).unwrap().key.offset, 2 * 64);
    assert_eq!(
        cache.window(cache.len() - 1).unwrap().key.offset,
        (REAL_STREAM_MAX_LOADED_WINDOWS + 1) as u64 * 64
    );
}

#[test]
fn real_stream_view_presets_choose_nice_text_and_raw_hex() {
    assert_eq!(
        real_stream_preset_defaults(RealStreamPreset::Nice, true),
        (StreamMode::Decoded, StreamViewMode::Text)
    );
    assert_eq!(
        real_stream_preset_defaults(RealStreamPreset::Nice, false),
        (StreamMode::Raw, StreamViewMode::Text)
    );
    assert_eq!(
        real_stream_preset_defaults(RealStreamPreset::Raw, true),
        (StreamMode::Raw, StreamViewMode::Hex)
    );
}

#[test]
fn read_only_hex_window_resets_to_canonical_dump() {
    let mut model = LargeStreamModel::default();
    let canonical = model.hex_text.clone();
    model.hex_text.push_str("mutated");
    model.reset_hex_window();
    assert_eq!(model.hex_text, canonical);
}

#[test]
fn fake_stream_bytes_follow_the_generator() {
    assert_eq!(fake_stream_byte(0), 0x11);
    assert_eq!(fake_stream_byte(1), 0x30);
    assert_eq!(fake_stream_byte(2), 0x4f);
    assert_eq!(fake_stream_byte(3), 0x6e);
}

#[test]
fn stream_offsets_step_to_neighbouring_windows() {
    let chunks = vec![
        decoded_chunk(4096, &[b' '; 4096], Some(16_000), false),
        decoded_chunk(8192, &[b' '; 4096], Some(16_000), true),
    ];
    assert_eq!(real_stream_next_offset(&chunks), Some(12_288));
    assert_eq!(real_stream_previous_offset(&chunks, 4096), Some(0));
    let at_start = vec![decoded_chunk(0, &[b' '; 10], Some(10), false)];
    assert_eq!(real_stream_next_offset(&at_start), Some(10));
    assert_eq!(real_stream_next_offset(&[]), None);
    assert_eq!(real_stream_previous_offset(&at_start, 4096), None);
    assert!(real_stream_loaded_label(&chunks).contains("8192"));
}

#[test]
fn cached_stream_window_is_found_by_its_key() {
    let mut cache = RealStreamWindowCache::new();
    let key = RealStreamKey {
        object: ObjectId { num: 9, gen: 0 },
        mode: StreamMode::Raw,
        offset: 128,
        limit: 64,
    };
    let chunk = StreamChunk {
        mode: StreamMode::Raw,
        offset: 128,
        bytes: b"abc".to_vec(),
        total_size: Some(3),
        truncated: false,
        decode_diagnostics: Vec::new(),
    };
    assert!(cache.real_stream_cached_window(key).is_none());
    cache.insert_real_stream_window(key, chunk);
    assert_eq!(cache.real_stream_cached_window(key).unwrap().chunk.bytes, b"abc".to_vec());
    let other = RealStreamKey { offset: 0, ..key };
    assert!(cache.real_stream_cached_window(other).is_none());
}

#[test]
fn nice_lines_are_indented_inside_blocks() {
    let lines = pdf_content_stream_nice_lines(b"q BT (x) Tj ET Q");
    let indents: Vec<usize> = lines.iter().map(|l| l.indent).collect();
    assert_eq!(indents, vec![0, 1, 2, 1, 0]);
    assert!(lines[0].block_open);
    assert!(lines[4].block_close);
}

#[test]
fn nice_lines_operators_and_kinds() {
    assert_eq!(nice_stream_line_operator("/Im0 Do"), Some("Do".to_string()));
    assert_eq!(nice_stream_line_visual_kind("/Im0 Do"), Some(VisualElementKind::Image));
    assert_eq!(nice_stream_line_visual_kind("(a) Tj"), Some(VisualElementKind::Text));
    assert_eq!(nice_stream_line_visual_kind("0 0 1 1 re"), None);
    assert_eq!(nice_stream_line_visual_kind("f"), Some(VisualElementKind::Vector));
}

#[test]
fn nice_selection_finds_painted_resource() {
    let object = ObjectId { num: 7, gen: 0 };
    let chunks = vec![decoded_chunk(0, b"q 10 10 20 20 re f Q q /Im0 Do Q", Some(37), false)];
    let rows = real_stream_nice_render_lines(object, &chunks);
    let image_key = rows
        .iter()
        .find(|row| row.line.text.ends_with(" Do"))
        .and_then(|row| row.block_key.clone())
        .unwrap();
    assert_eq!(
        nice_stream_do_resource_for_selection(&rows, &image_key),
        Some("Im0".to_string())
    );
    assert!(nice_stream_selection_has_non_text_visual_ops(&rows, &image_key));
}

#[test]
fn real_stream_scroll_request_loads_adjacent_content_at_edges() {
    let chunks = vec![
        decoded_chunk(4096, &[b' '; 4096], Some(16_000), false),
        decoded_chunk(8192, &[b' '; 4096], Some(16_000), true),
    ];
    assert_eq!(
        real_stream_edge_request(StreamScrollEdge::Bottom, &chunks, 4096),
        Some(12_288)
    );
    assert_eq!(real_stream_edge_request(StreamScrollEdge::Top, &chunks, 4096), Some(0));
    let done = vec![decoded_chunk(0, &[b' '; 16], Some(16), false)];
    assert_eq!(real_stream_edge_request(StreamScrollEdge::Bottom, &done, 4096), None);
    assert_eq!(real_stream_edge_request(StreamScrollEdge::Top, &done, 4096), None);
}

#[test]
fn deep_nesting_is_indented_at_most_sixty_four_levels() {
    let mut input = String::new();
    for _ in 0..100 {
        input.push_str("q ");
    }
    input.push_str("0 0 1 1 re f");
    let lines = pdf_content_stream_nice_lines(input.as_bytes());
    assert!(lines.iter().all(|line| line.indent <= 64));
    assert_eq!(lines[99].indent, 64);
    assert_eq!(lines.last().unwrap().indent, 64);
    assert_eq!(pdf_content_stream_nice_lines(b"").len(), 1);
    assert_eq!(pdf_content_stream_nice_text(b""), "<empty content stream>\n");
}

#[test]
fn window_sharing_its_offset_with_five_others_is_dropped_on_load() {
    let mut cache = RealStreamWindowCache::new();
    for num in 0..6u32 {
        let key = RealStreamKey {
            object: ObjectId { num, gen: 0 },
            mode: StreamMode::Raw,
            offset: 0,
            limit: 8,
        };
        cache.insert_real_stream_window(key, decoded_chunk(0, b"abcdefgh", Some(8), false));
    }
    assert_eq!(cache.len(), REAL_STREAM_MAX_LOADED_WINDOWS);
    let last = RealStreamKey {
        object: ObjectId { num: 5, gen: 0 },
        mode: StreamMode::Raw,
        offset: 0,
        limit: 8,
    };
    assert!(cache.real_stream_cached_window(last).is_none());
}

#[test]
fn collapsed_blocks_hide_their_rows_and_closing_line() {
    let object = ObjectId { num: 7, gen: 0 };
    let chunks = vec![decoded_chunk(0, b"q BT (a) Tj ET Q 1 w", Some(20), false)];
    let rows = real_stream_nice_render_lines(object, &chunks);
    assert_eq!(rows.len(), 6);
    let none: Vec<String> = Vec::new();
    assert_eq!(nice_stream_visible_rows(&rows, &none), vec![0, 1, 2, 3, 4, 5]);
    let mut collapsed: Vec<String> = Vec::new();
    toggle_collapsed(&mut collapsed, &rows[1].line_key);
    assert_eq!(nice_stream_visible_rows(&rows, &collapsed), vec![0, 1, 4, 5]);
    toggle_collapsed(&mut collapsed, &rows[0].line_key);
    assert_eq!(nice_stream_visible_rows(&rows, &collapsed), vec![0, 5]);
    toggle_collapsed(&mut collapsed, &rows[1].line_key);
    assert_eq!(collapsed, vec![rows[0].line_key.clone()]);
    for i in 0..rows.len() {
        for j in (i + 1)..rows.len() {
            assert_ne!(rows[i].line_key, rows[j].line_key);
        }
    }
}

#[test]
fn generated_hex_dump_lines_start_with_their_offset_and_bytes() {
    let model = LargeStreamModel::default();
    let dump = model.hex_dump(8, 40);
    let lines: Vec<&str> = dump.lines().collect();
    assert_eq!(lines.len(), 3);
    assert!(dump.ends_with('\n'));
    let starts = [8usize, 24, 40];
    for (k, line) in lines.iter().enumerate() {
        let start = starts[k];
        let end = (start + 16).min(48);
        let mut expected = format!("{:08x}  ", start);
        for i in start..end {
            expected.push_str(&format!("{:02x} ", fake_stream_byte(i)));
        }
        assert!(line.starts_with(&expected), "line {} was {:?}", k, line);
    }
    assert_eq!(model.hex_dump(5, 0), "");
}

#[test]
fn ascii_stream_text_is_shown_byte_for_byte() {
    let chunk = decoded_chunk(0, b"q 1 0 0 1 0 0 cm\tQ", None, false);
    assert_eq!(
        stream_chunk_display_text(&chunk, StreamViewMode::Text),
        "q 1 0 0 1 0 0 cm\tQ"
    );
}

#[test]
fn guides_name_blocks_opened_at_or_before_their_row() {
    let object = ObjectId { num: 9, gen: 0 };
    let chunks = vec![decoded_chunk(0, b"q BT /F1 9 Tf (x) Tj ET Q", Some(25), false)];
    let rows = real_stream_nice_render_lines(object, &chunks);
    for (i, row) in rows.iter().enumerate() {
        for (_, key) in row.guide_blocks.iter() {
            assert!(rows[..=i].iter().any(|r| r.line.block_open && &r.line_key == key));
        }
        if let Some(key) = &row.block_key {
            assert!(rows[..=i].iter().any(|r| r.line.block_open && &r.line_key == key));
        }
    }
}

#[test]
fn toggling_a_block_twice_shows_the_same_rows() {
    let object = ObjectId { num: 7, gen: 0 };
    let chunks = vec![decoded_chunk(0, b"q BT (a) Tj ET Q 1 w", Some(20), false)];
    let rows = real_stream_nice_render_lines(object, &chunks);
    let mut collapsed: Vec<String> = vec![rows[1].line_key.clone()];
    let before = nice_stream_visible_rows(&rows, &collapsed);
    toggle_collapsed(&mut collapsed, &rows[0].line_key);
    assert_eq!(nice_stream_visible_rows(&rows, &collapsed), vec![0, 5]);
    toggle_collapsed(&mut collapsed, &rows[0].line_key);
    assert_eq!(nice_stream_visible_rows(&rows, &collapsed), before);
    let shown = nice_stream_visible_rows(&rows, &collapsed);
    assert!(shown.windows(2).all(|w| w[0] < w[1]));
}
