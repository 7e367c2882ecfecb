use pagetext::cluster::{cluster_runs, cluster_to_strings, ClusterParams};
use pagetext::runs::DecodedGlyphRun;

fn run(text: &str, x: i64, y: i64, font_ref: u64) -> DecodedGlyphRun {
    DecodedGlyphRun {
        x,
        y,
        text: text.chars().collect(),
        font_size: 10_000,
        font_ref,
        avg_glyph_width: 500_000,
    }
}

#[test]
fn merge_example_joins_continuation() {
    // Accumulator "LOC" at (100, 200), size 10, average width 500:
    // expected advance 3 * 10 * 500 / 1000 = 15 units, so a run at
    // x = 115 on the same baseline continues it.
    let a = run("LOC", 100_000, 200_000, 1);
    let b = run("ATION", 115_000, 200_010, 1);
    let params = ClusterParams::standard();
    let merged = cluster_runs(vec![a, b], &params);
    assert_eq!(merged.len(), 1);
    assert_eq!(merged[0].text.iter().collect::<String>(), "LOCATION");
    // The merged run keeps the accumulator's position and metadata.
    assert_eq!(merged[0].x, 100_000);
    assert_eq!(merged[0].y, 200_000);
    assert_eq!(merged[0].font_size, 10_000);
}

#[test]
fn non_merge_example_keeps_two_strings() {
    // Same accumulator; the next run at x = 140 is 25 units past the
    // expected end, at or over the 22-unit tolerance: no merge.
    let a = run("LOC", 100_000, 200_000, 1);
    let b = run("ATION", 140_000, 200_000, 1);
    let params = ClusterParams::standard();
    let out = cluster_to_strings(vec![a, b], &params);
    assert_eq!(out, vec!["LOC".to_string(), "ATION".to_string()]);
}

#[test]
fn different_fonts_never_merge() {
    // Identical geometry to the merging example, but differing fonts.
    let a = run("LOC", 100_000, 200_000, 1);
    let b = run("ATION", 115_000, 200_000, 2);
    let params = ClusterParams::standard();
    let out = cluster_to_strings(vec![a, b], &params);
    assert_eq!(out, vec!["LOC".to_string(), "ATION".to_string()]);
}

#[test]
fn vertical_distance_at_tolerance_never_merges() {
    // dx is zero but dy is exactly 0.05 units: baselines differ, no merge.
    let a = run("LOC", 100_000, 200_000, 1);
    let b = run("ATION", 115_000, 200_050, 1);
    let params = ClusterParams::standard();
    let out = cluster_to_strings(vec![a, b], &params);
    assert_eq!(out, vec!["LOC".to_string(), "ATION".to_string()]);
}

#[test]
fn trimming_strips_whitespace_and_drops_empty() {
    let a = run("  spaced  ", 0, 500_000, 1);
    let b = run("   ", 0, 200_000, 1);
    let params = ClusterParams::standard();
    let out = cluster_to_strings(vec![a, b], &params);
    assert_eq!(out, vec!["spaced".to_string()]);
}

#[test]
fn empty_input_clusters_to_nothing() {
    let params = ClusterParams::standard();
    let out = cluster_to_strings(Vec::new(), &params);
    assert!(out.is_empty());
}

#[test]
fn advance_counts_text_in_encoded_bytes() {
    // "é" is one character but two UTF-8 bytes: the advance estimate is
    // 2 * 10 * 500 / 1000 = 10 units. With a tight one-unit horizontal
    // tolerance, only the byte-based estimate lands the next run inside.
    let a = run("é", 100_000, 200_000, 1);
    let b = run("x", 110_000, 200_000, 1);
    let params = ClusterParams { dx_tolerance: 1_000, dy_tolerance: 50 };
    let merged = cluster_runs(vec![a, b], &params);
    assert_eq!(merged.len(), 1);
    assert_eq!(merged[0].text.iter().collect::<String>(), "éx");
}

#[test]
fn standard_params_carry_the_tuned_tolerances() {
    let params = ClusterParams::standard();
    assert_eq!(params.dx_tolerance, 22_000);
    assert_eq!(params.dy_tolerance, 50);
}

#[test]
fn chain_of_continuations_merges_left_to_right() {
    let a = run("AB", 0, 0, 1);
    // expected advance of "AB": 2 * 10 * 500 / 1000 = 10 units
    let b = run("CD", 10_000, 0, 1);
    // accumulator "ABCD": 4 * 10 * 500 / 1000 = 20 units from x = 0
    let c = run("EF", 20_000, 0, 1);
    let params = ClusterParams::standard();
    let out = cluster_to_strings(vec![a, b, c], &params);
    assert_eq!(out, vec!["ABCDEF".to_string()]);
}
