use pagetext::cluster::ClusterParams;
use pagetext::fonts::{FontResource, FontTable};
use pagetext::ops::{PageOp, ShowPart};
use pagetext::pipeline::extract_page_strings;
use pagetext::scan::{scan_ops, ScanState};
use pagetext::order::sort_runs;
use pagetext::runs::RawGlyphRun;

fn show(text: &str) -> PageOp {
    PageOp::ShowText { bytes: text.as_bytes().to_vec() }
}

fn text_object(x: i64, y: i64, text: &str, font_ref: u64) -> Vec<PageOp> {
    vec![
        PageOp::BeginText,
        PageOp::SetFont { font_ref, size: 10_000 },
        PageOp::SetTextPosition { x, y },
        show(text),
        PageOp::EndText,
    ]
}

fn latin_table(font_ref: u64) -> FontTable {
    FontTable {
        fonts: vec![
            FontResource { font_ref, char_map: None, avg_glyph_width: Some(500_000) },
        ],
    }
}

#[test]
fn scanner_emits_complete_runs_in_stream_order() {
    let mut ops = text_object(100_000, 200_000, "one", 1);
    ops.extend(text_object(100_000, 100_000, "two", 1));
    let runs = scan_ops(&ops);
    assert_eq!(runs.len(), 2);
    assert_eq!(runs[0].raw_bytes, b"one".to_vec());
    assert_eq!(runs[0].x, 100_000);
    assert_eq!(runs[0].y, 200_000);
    assert_eq!(runs[1].raw_bytes, b"two".to_vec());
}

#[test]
fn scanner_drops_run_missing_a_position() {
    let ops = vec![
        PageOp::BeginText,
        PageOp::SetFont { font_ref: 1, size: 10_000 },
        show("lost"),
        PageOp::EndText,
    ];
    assert!(scan_ops(&ops).is_empty());
}

#[test]
fn scanner_drops_trailing_run_without_end() {
    let ops = vec![
        PageOp::BeginText,
        PageOp::SetFont { font_ref: 1, size: 10_000 },
        PageOp::SetTextPosition { x: 0, y: 0 },
        show("pending"),
    ];
    assert!(scan_ops(&ops).is_empty());
}

#[test]
fn end_of_text_object_clears_all_pending_state() {
    // The first object emits; the second sets only a position and text,
    // and the font selection does not survive the first object's end.
    let mut ops = text_object(0, 0, "first", 1);
    ops.push(PageOp::BeginText);
    ops.push(PageOp::SetTextPosition { x: 0, y: -100_000 });
    ops.push(show("second"));
    ops.push(PageOp::EndText);
    let runs = scan_ops(&ops);
    assert_eq!(runs.len(), 1);
    assert_eq!(runs[0].raw_bytes, b"first".to_vec());
}

#[test]
fn font_set_before_text_object_is_kept() {
    let ops = vec![
        PageOp::SetFont { font_ref: 9, size: 12_000 },
        PageOp::BeginText,
        PageOp::SetTextPosition { x: 1_000, y: 2_000 },
        show("kept"),
        PageOp::EndText,
    ];
    let runs = scan_ops(&ops);
    assert_eq!(runs.len(), 1);
    assert_eq!(runs[0].font_ref, 9);
    assert_eq!(runs[0].font_size, 12_000);
}

#[test]
fn adjusted_show_concatenates_text_and_skips_spacing() {
    let ops = vec![
        PageOp::BeginText,
        PageOp::SetFont { font_ref: 1, size: 10_000 },
        PageOp::SetTextPosition { x: 0, y: 0 },
        PageOp::ShowTextAdjusted {
            parts: vec![
                ShowPart::Text(b"He".to_vec()),
                ShowPart::Spacing(-120_000),
                ShowPart::Text(b"llo".to_vec()),
            ],
        },
        PageOp::EndText,
    ];
    let runs = scan_ops(&ops);
    assert_eq!(runs.len(), 1);
    assert_eq!(runs[0].raw_bytes, b"Hello".to_vec());
}

#[test]
fn later_show_replaces_pending_text() {
    let ops = vec![
        PageOp::BeginText,
        PageOp::SetFont { font_ref: 1, size: 10_000 },
        PageOp::SetTextPosition { x: 0, y: 0 },
        show("first"),
        show("second"),
        PageOp::EndText,
    ];
    let runs = scan_ops(&ops);
    assert_eq!(runs.len(), 1);
    assert_eq!(runs[0].raw_bytes, b"second".to_vec());
}

#[test]
fn unknown_operators_are_ignored() {
    let ops = vec![
        PageOp::Other,
        PageOp::BeginText,
        PageOp::Other,
        PageOp::SetFont { font_ref: 1, size: 10_000 },
        PageOp::SetTextPosition { x: 0, y: 0 },
        show("ok"),
        PageOp::Other,
        PageOp::EndText,
        PageOp::Other,
    ];
    assert_eq!(scan_ops(&ops).len(), 1);
}

fn raw_at(x: i64, y: i64, tag: &str) -> RawGlyphRun {
    RawGlyphRun { x, y, raw_bytes: tag.as_bytes().to_vec(), font_size: 10_000, font_ref: 1 }
}

#[test]
fn sort_orders_top_to_bottom_then_left_to_right() {
    let runs = vec![
        raw_at(50_000, 100_000, "c"),
        raw_at(0, 200_000, "a"),
        raw_at(10_000, 100_000, "b"),
    ];
    let sorted = sort_runs(runs);
    let tags: Vec<Vec<u8>> = sorted.into_iter().map(|r| r.raw_bytes).collect();
    assert_eq!(tags, vec![b"a".to_vec(), b"b".to_vec(), b"c".to_vec()]);
}

#[test]
fn sort_keeps_stream_order_of_equal_positions() {
    let runs = vec![raw_at(0, 0, "first"), raw_at(0, 0, "second")];
    let sorted = sort_runs(runs);
    assert_eq!(sorted[0].raw_bytes, b"first".to_vec());
    assert_eq!(sorted[1].raw_bytes, b"second".to_vec());
}

#[test]
fn extraction_is_deterministic() {
    let mut ops = text_object(100_000, 200_000, "alpha", 1);
    ops.extend(text_object(0, 300_000, "beta", 1));
    let table = latin_table(1);
    let params = ClusterParams::standard();
    let first = extract_page_strings(&ops, &table, &params).expect("extraction should succeed");
    let second = extract_page_strings(&ops, &table, &params).expect("extraction should succeed");
    assert_eq!(first, second);
}

#[test]
fn output_strings_follow_reading_order() {
    // Stream order is scrambled; output must read top-to-bottom and,
    // within one line, left-to-right.
    let mut ops = text_object(500_000, 100_000, "bottomright", 1);
    ops.extend(text_object(0, 300_000, "top", 1));
    ops.extend(text_object(0, 100_000, "bottomleft", 1));
    let table = latin_table(1);
    let params = ClusterParams::standard();
    let out = extract_page_strings(&ops, &table, &params).expect("extraction should succeed");
    assert_eq!(
        out,
        vec!["top".to_string(), "bottomleft".to_string(), "bottomright".to_string()]
    );
}

#[test]
fn page_extraction_merges_adjacent_runs() {
    // Two runs on one baseline, the second starting where the first's
    // estimated advance ends: one output string.
    let mut ops = text_object(100_000, 200_000, "LOC", 1);
    ops.extend(text_object(115_000, 200_000, "ATION", 1));
    let table = latin_table(1);
    let params = ClusterParams::standard();
    let out = extract_page_strings(&ops, &table, &params).expect("extraction should succeed");
    assert_eq!(out, vec!["LOCATION".to_string()]);
}

#[test]
fn page_failure_aborts_whole_page() {
    let mut ops = text_object(0, 300_000, "fine", 1);
    ops.extend(text_object(0, 200_000, "broken", 2));
    let table = latin_table(1);
    let params = ClusterParams::standard();
    let err = extract_page_strings(&ops, &table, &params).expect_err("missing font must fail");
    assert!(matches!(err, pagetext::errors::ExtractError::FontLookup { font_ref: 2 }));
}

#[test]
fn empty_operator_sequence_extracts_nothing() {
    let table = latin_table(1);
    let params = ClusterParams::standard();
    let out = extract_page_strings(&Vec::new(), &table, &params)
        .expect("empty page should succeed");
    assert!(out.is_empty());
}

#[test]
fn scan_step_reducer_matches_whole_pass() {
    let ops = text_object(1_000, 2_000, "go", 4);
    let mut state = ScanState::new();
    let mut stepped = Vec::new();
    for op in &ops {
        if let Some(run) = pagetext::scan::scan_step(&mut state, op) {
            stepped.push(run);
        }
    }
    assert_eq!(stepped, scan_ops(&ops));
}
