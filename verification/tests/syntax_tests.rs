use textedit::char_kind::CharKind;
use textedit::doc::Document;
use textedit::syntax::{
    build_runs, injections_from, style_for_capture, CaptureData, HighlightKind, Injection,
    LanguageConfigManager, QueryMatchData, StyleRun, StyledSpan, SyntaxManager,
};

#[test]
fn built_in_languages_load() {
    let m = LanguageConfigManager::new().expect("bundled grammars and queries must load");
    assert_eq!(m.language_configs.len(), 4);
    assert_eq!(m.language_config_for_language_id("markdown"), Some(0));
    assert_eq!(m.language_config_for_language_id("yml"), Some(2));
    assert_eq!(m.language_config_for_language_id("html"), Some(3));
    assert_eq!(m.language_config_for_language_id("unknown"), None);
}

#[test]
fn capture_style_table() {
    assert_eq!(
        style_for_capture(&"text.strong".to_string()),
        Some(HighlightKind::Strong)
    );
    assert_eq!(
        style_for_capture(&"text.title".to_string()),
        Some(HighlightKind::Title)
    );
    assert_eq!(
        style_for_capture(&"text.emphasis".to_string()),
        Some(HighlightKind::Emphasis)
    );
    assert_eq!(
        style_for_capture(&"punctuation.bracket".to_string()),
        Some(HighlightKind::Dim)
    );
    assert_eq!(style_for_capture(&"number".to_string()), Some(HighlightKind::Number));
    // Unknown names style nothing, and never fail.
    assert_eq!(style_for_capture(&"comment".to_string()), None);
}

fn runs_total(runs: &[StyleRun]) -> usize {
    runs.iter().map(|r| r.len).sum()
}

#[test]
fn runs_cover_document_exactly_once() {
    let spans = vec![
        StyledSpan { start: 2, end: 4, style: HighlightKind::Strong },
        StyledSpan { start: 4, end: 6, style: HighlightKind::Emphasis },
        StyledSpan { start: 5, end: 9, style: HighlightKind::Dim },
    ];
    let runs = build_runs(&spans, 12);
    assert_eq!(runs_total(&runs), 12);
    // Gap, strong, emphasis, (overlap dropped), tail.
    assert_eq!(runs[0], StyleRun { len: 2, style: None });
    assert_eq!(runs[1], StyleRun { len: 2, style: Some(HighlightKind::Strong) });
    assert_eq!(runs[2], StyleRun { len: 2, style: Some(HighlightKind::Emphasis) });
    assert_eq!(runs[3], StyleRun { len: 6, style: None });
}

#[test]
fn runs_clamp_out_of_range_spans() {
    let spans = vec![StyledSpan { start: 3, end: 99, style: HighlightKind::Accent }];
    let runs = build_runs(&spans, 5);
    assert_eq!(runs_total(&runs), 5);
    assert_eq!(runs[1], StyleRun { len: 2, style: Some(HighlightKind::Accent) });
}

#[test]
fn empty_document_has_no_runs() {
    let runs = build_runs(&Vec::new(), 0);
    assert_eq!(runs_total(&runs), 0);
}

#[test]
fn markdown_title_is_highlighted() {
    let m = LanguageConfigManager::new().unwrap();
    let host = &m.language_configs[0];
    let mut syn = SyntaxManager::new(host).expect("host grammar loads");
    let doc = Document::from_text("# Title\n\nplain text\n");
    let text: Vec<u8> = "# Title\n\nplain text\n".bytes().collect();
    syn.parse_full(&text);
    assert!(syn.parse_tree.is_some());

    let spans = syn.highlight_spans(&m, host, &text);
    // The heading line carries at least one styled span, and spans
    // arrive in document order.
    assert!(spans.len() > 0);
    for w in spans.windows(2) {
        assert!(w[0].start <= w[1].start);
    }
    let runs = build_runs(&spans, text.len());
    assert_eq!(runs_total(&runs), text.len());
    assert!(runs.iter().any(|r| r.style.is_some()));

    let _ = doc;
}

#[test]
fn incremental_update_keeps_a_tree() {
    let m = LanguageConfigManager::new().unwrap();
    let host = &m.language_configs[0];
    let mut syn = SyntaxManager::new(host).unwrap();
    let mut doc = Document::from_text("# Title\n");
    let bytes: Vec<u8> = "# Title\n".bytes().collect();
    syn.parse_full(&bytes);

    // Insert " more" at the end of the heading and patch the tree.
    doc.insert(7, " more");
    syn.update_tree(&doc, 7, 12, 0);
    assert!(syn.parse_tree.is_some());
    let text: Vec<u8> = "# Title more\n".bytes().collect();
    let spans = syn.highlight_spans(&m, host, &text);
    let runs = build_runs(&spans, text.len());
    assert_eq!(runs_total(&runs), text.len());
}

#[test]
fn char_classes() {
    assert_eq!(CharKind::kind(' '), CharKind::WhiteSpace);
    assert_eq!(CharKind::kind('\t'), CharKind::WhiteSpace);
    assert_eq!(CharKind::kind('a'), CharKind::Word);
    assert_eq!(CharKind::kind('Z'), CharKind::Word);
    assert_eq!(CharKind::kind('7'), CharKind::Word);
    assert_eq!(CharKind::kind('_'), CharKind::Word);
    assert_eq!(CharKind::kind('+'), CharKind::Punctuation);
    assert_eq!(CharKind::kind('.'), CharKind::Punctuation);
}

#[test]
fn document_index_conversions() {
    let d = Document::from_text("ab\ncé\n");
    assert_eq!(d.len_chars(), 6);
    assert_eq!(d.len_bytes(), 7);
    assert_eq!(d.len_lines(), 3);
    assert_eq!(d.char_to_byte(4), 4);
    assert_eq!(d.char_to_byte(5), 6);
    assert_eq!(d.byte_to_char(6), 5);
    assert_eq!(d.char_to_line(3), 1);
    assert_eq!(d.line_to_char(1), 3);
    assert_eq!(d.line_to_byte(2), 7);
    assert_eq!(d.byte_to_line(3), 1);
    assert_eq!(d.line_end_char(0), 2);
    assert_eq!(d.line_end_char(2), 6);
    assert_eq!(d.slice_string(3, 5), "cé");
}

#[test]
fn injections_resolve_languages_and_file_types() {
    let m = LanguageConfigManager::new().unwrap();
    // A match whose language capture reads "yaml": no configuration
    // carries that identifier, but the yaml configuration lists it
    // among its file types, so the injection resolves to it.
    let text: Vec<u8> = b"yaml\nkey: value\n".to_vec();
    let names = vec!["injection.language".to_string(), "injection.content".to_string()];
    let matches = vec![QueryMatchData {
        pattern_index: 0,
        captures: vec![
            CaptureData { capture_index: 0, start_byte: 0, end_byte: 4 },
            CaptureData { capture_index: 1, start_byte: 5, end_byte: 16 },
        ],
    }];
    let props: Vec<Vec<(String, Option<String>)>> = vec![Vec::new()];
    let inj = injections_from(&m, &names, &matches, &props, &text);
    assert_eq!(inj.len(), 1);
    let Injection { config_index, start_byte, end_byte } = inj[0];
    assert_eq!(config_index, 2);
    assert_eq!((start_byte, end_byte), (5, 16));

    // An unknown language degrades to no injection.
    let text2: Vec<u8> = b"toml\nkey = 1\n".to_vec();
    let inj2 = injections_from(&m, &names, &matches, &props, &text2);
    assert_eq!(inj2.len(), 0);

    // A pattern property names the language when no capture does.
    let matches3 = vec![QueryMatchData {
        pattern_index: 0,
        captures: vec![CaptureData { capture_index: 1, start_byte: 5, end_byte: 16 }],
    }];
    let props3 = vec![vec![("injection.language".to_string(), Some("html".to_string()))]];
    let inj3 = injections_from(&m, &names, &matches3, &props3, &text);
    assert_eq!(inj3.len(), 1);
    assert_eq!(inj3[0].config_index, 3);
}
