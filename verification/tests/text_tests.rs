use pdbg_app::about::{
    about_info_text, backend_label, extract_mupdf_version_from_component,
    parse_mupdf_version_header,
};
use pdbg_app::content::pdf_content_tokens;
use pdbg_app::fragments::{
    decode_pdf_hex_string_token, decode_pdf_literal_string_token, dedupe_text_fragments,
    is_useful_pdf_text_fragment, nice_stream_line_text_fragments, normalized_text_match_key,
};
use pdbg_app::history::NavigationHistory;

#[test]
fn literal_strings_decode_escapes() {
    assert_eq!(decode_pdf_literal_string_token("(a\\(b\\)c)"), "a(b)c");
    assert_eq!(decode_pdf_literal_string_token("(x\\ny\\tz)"), "x\ny\tz");
    assert_eq!(decode_pdf_literal_string_token("(\\101\\102)"), "AB");
    assert_eq!(decode_pdf_literal_string_token("(line\\\ncont)"), "linecont");
    assert_eq!(decode_pdf_literal_string_token("plain"), "plain");
}

#[test]
fn hex_strings_decode_pairs() {
    assert_eq!(decode_pdf_hex_string_token("<48 69>"), "Hi");
    assert_eq!(decode_pdf_hex_string_token("<414>"), "A@");
}

#[test]
fn match_keys_fold_case_and_space() {
    assert_eq!(normalized_text_match_key("  Hello \t World  "), "hello world");
    assert_eq!(normalized_text_match_key("A\u{7}B"), "ab");
    assert!(is_useful_pdf_text_fragment("ab"));
    assert!(!is_useful_pdf_text_fragment(" a "));
    assert_eq!(
        dedupe_text_fragments(vec![
            "Hello".to_string(),
            "hello ".to_string(),
            " ".to_string(),
            "World".to_string(),
        ]),
        vec!["Hello".to_string(), "World".to_string()]
    );
}

#[test]
fn text_show_lines_yield_fragments() {
    assert_eq!(
        nice_stream_line_text_fragments("(Country of Citizenship) Tj"),
        vec!["Country of Citizenship".to_string()]
    );
    assert_eq!(
        nice_stream_line_text_fragments("[(Ab) -20 (cd)] TJ"),
        vec!["Ab".to_string(), "cd".to_string()]
    );
    assert!(nice_stream_line_text_fragments("/F1 9 Tf").is_empty());
}

#[test]
fn content_tokens_split_strings_and_dictionaries() {
    assert_eq!(
        pdf_content_tokens("/P << /MCID 0 >> BDC (a b) Tj"),
        vec!["/P", "<<", "/MCID", "0", ">>", "BDC", "(a b)", "Tj"]
    );
    assert_eq!(pdf_content_tokens("  % comment\nq"), vec!["q"]);
}

#[test]
fn about_text_lists_build_facts() {
    let text = about_info_text(
        "0.1.0",
        "abc",
        "2024-01-01",
        "MuPDF 1.24.2",
        "linux / x86_64",
        "release",
        "8192 px",
    );
    assert!(text.starts_with("Scalpel 0.1.0\nCommit: abc\n"));
    assert!(text.contains("\nBackend: MuPDF 1.24.2\n"));
    assert!(text.ends_with("\nGitHub: https://github.com/tooluse-labs/xreflab"));
    assert_eq!(backend_label("linked (version unavailable)"), "MuPDF (version unavailable)");
    assert_eq!(backend_label("1.24.2"), "MuPDF 1.24.2");
}

#[test]
fn mupdf_versions_are_read_from_headers_and_paths() {
    assert_eq!(
        parse_mupdf_version_header("/* x */\n  #define FZ_VERSION \"1.24.2\"\n"),
        Some("1.24.2".to_string())
    );
    assert_eq!(parse_mupdf_version_header("#define FZ_VERSION 1"), None);
    assert_eq!(
        extract_mupdf_version_from_component("mupdf-1.24.2-source"),
        Some("1.24.2".to_string())
    );
    assert_eq!(extract_mupdf_version_from_component("mupdf-latest"), None);
    assert_eq!(extract_mupdf_version_from_component("other"), None);
}

#[test]
fn back_after_follow_returns_to_the_row() {
    let mut history = NavigationHistory::new(3);
    assert!(history.follow_reference(7, 10));
    assert_eq!(history.selected_row, 7);
    assert!(history.go_back());
    assert_eq!(history.selected_row, 3);
    assert!(history.go_forward());
    assert_eq!(history.selected_row, 7);
    assert!(!history.follow_reference(10, 10));
    assert!(!history.go_forward());
}

#[test]
fn ascii_hex_tokens_decode_pair_by_pair() {
    assert_eq!(decode_pdf_hex_string_token("<48 65 6C 6C 6F>"), "Hello");
    assert_eq!(decode_pdf_hex_string_token("<486>"), "H`");
    assert_eq!(decode_pdf_hex_string_token("<FEFF00410042>"), "AB");
    assert_eq!(decode_pdf_hex_string_token("<zz41>"), "A");
}

#[test]
fn ascii_match_keys_lowercase_letters_and_fold_spaces() {
    assert_eq!(normalized_text_match_key("  Hello \t  World!  "), "hello world!");
    assert_eq!(normalized_text_match_key("ABC\u{7}def"), "abcdef");
}

#[test]
fn dedupe_keeps_first_occurrences_in_order() {
    let fragments = vec![
        "Beta".to_string(),
        "  ".to_string(),
        "alpha".to_string(),
        "BETA".to_string(),
        "Gamma".to_string(),
        "ALPHA ".to_string(),
    ];
    assert_eq!(
        dedupe_text_fragments(fragments),
        vec!["Beta".to_string(), "alpha".to_string(), "Gamma".to_string()]
    );
}
