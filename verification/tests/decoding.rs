use pagetext::decode::decode_run;
use pagetext::errors::ExtractError;
use pagetext::fonts::{FontResource, FontTable};
use pagetext::runs::RawGlyphRun;

fn simple_cmap() -> Vec<u8> {
    let program = "/CIDInit /ProcSet findresource begin\n\
         12 dict begin\n\
         begincmap\n\
         /CIDSystemInfo << /Registry (Adobe) /Ordering (UCS) /Supplement 0 >> def\n\
         /CMapName /Adobe-Identity-UCS def\n\
         /CMapType 2 def\n\
         1 begincodespacerange\n\
         <0000> <ffff>\n\
         endcodespacerange\n\
         1 beginbfchar\n\
         <0041> <0041>\n\
         endbfchar\n\
         endcmap\n\
         CMapName currentdict /CMap defineresource pop\n\
         end\n\
         end\n";
    program.as_bytes().to_vec()
}

fn table_with(font_ref: u64, char_map: Option<Vec<u8>>) -> FontTable {
    FontTable {
        fonts: vec![FontResource { font_ref, char_map, avg_glyph_width: Some(500_000) }],
    }
}

fn raw(bytes: Vec<u8>, font_ref: u64) -> RawGlyphRun {
    RawGlyphRun { x: 0, y: 0, raw_bytes: bytes, font_size: 10_000, font_ref }
}

#[test]
fn round_trip_two_byte_code() {
    // A map declaring a two-byte code width and one entry: the byte pair
    // [0x00, 0x41] decodes to "A".
    let table = table_with(7, Some(simple_cmap()));
    let run = raw(vec![0x00, 0x41], 7);
    let decoded = decode_run(&run, &table).expect("decoding should succeed");
    assert_eq!(decoded.text, vec!['A']);
    assert_eq!(decoded.avg_glyph_width, 500_000);
    assert_eq!(decoded.font_size, 10_000);
    assert_eq!(decoded.font_ref, 7);
}

#[test]
fn fallback_without_map_decodes_bytes_directly() {
    let table = table_with(3, None);
    let run = raw(vec![0x48, 0x49], 3);
    let decoded = decode_run(&run, &table).expect("decoding should succeed");
    assert_eq!(decoded.text, vec!['H', 'I']);
}

#[test]
fn fallback_width_used_when_descriptor_missing() {
    let table = FontTable {
        fonts: vec![FontResource { font_ref: 1, char_map: None, avg_glyph_width: None }],
    };
    let run = raw(vec![0x41], 1);
    let decoded = decode_run(&run, &table).expect("decoding should succeed");
    assert_eq!(decoded.avg_glyph_width, 521);
}

#[test]
fn unmapped_pair_fails_with_the_offending_chunk() {
    let table = table_with(7, Some(simple_cmap()));
    let run = raw(vec![0xFF, 0xFF], 7);
    let err = decode_run(&run, &table).expect_err("unmapped code must fail");
    match err {
        ExtractError::UnmappedCharacter { font_ref, chunk } => {
            assert_eq!(font_ref, 7);
            assert_eq!(chunk, vec![0xFF, 0xFF]);
        },
        other => panic!("expected an unmapped-character failure, got {:?}", other),
    }
}

#[test]
fn missing_font_fails_lookup() {
    let table = table_with(7, None);
    let run = raw(vec![0x41], 8);
    let err = decode_run(&run, &table).expect_err("unknown font must fail");
    assert!(matches!(err, ExtractError::FontLookup { font_ref: 8 }));
}

#[test]
fn garbage_map_fails_parse() {
    let table = table_with(7, Some(vec![0x29, 0x28]));
    let run = raw(vec![0x41], 7);
    let err = decode_run(&run, &table).expect_err("unparseable map must fail");
    assert!(matches!(err, ExtractError::MapParse { font_ref: 7 }));
}

#[test]
fn map_without_codespace_fails_parse() {
    let program = "begincmap\n1 beginbfchar\n<0041> <0041>\nendbfchar\nendcmap\n";
    let table = table_with(7, Some(program.as_bytes().to_vec()));
    let run = raw(vec![0x00, 0x41], 7);
    let err = decode_run(&run, &table).expect_err("missing codespace must fail");
    assert!(matches!(err, ExtractError::MapParse { font_ref: 7 }));
}

#[test]
fn unpaired_surrogate_fails_encoding() {
    let program = "1 begincodespacerange\n<0000> <ffff>\nendcodespacerange\n\
         1 beginbfchar\n<0041> <d800>\nendbfchar\n";
    let table = table_with(7, Some(program.as_bytes().to_vec()));
    let run = raw(vec![0x00, 0x41], 7);
    let err = decode_run(&run, &table).expect_err("lone surrogate must fail");
    assert!(matches!(err, ExtractError::InvalidEncoding { font_ref: 7 }));
}

#[test]
fn final_short_chunk_is_left_padded() {
    let table = table_with(7, Some(simple_cmap()));
    let run = raw(vec![0x00, 0x41, 0x41], 7);
    let decoded = decode_run(&run, &table).expect("decoding should succeed");
    assert_eq!(decoded.text, vec!['A', 'A']);
}

#[test]
fn one_byte_codespace_gives_one_byte_codes() {
    let program = "1 begincodespacerange\n<00> <ff>\nendcodespacerange\n\
         1 beginbfchar\n<41> <0042>\nendbfchar\n";
    let table = table_with(7, Some(program.as_bytes().to_vec()));
    let run = raw(vec![0x41, 0x41], 7);
    let decoded = decode_run(&run, &table).expect("decoding should succeed");
    assert_eq!(decoded.text, vec!['B', 'B']);
}

#[test]
fn bfrange_with_string_start_increments() {
    let program = "1 begincodespacerange\n<0000> <ffff>\nendcodespacerange\n\
         1 beginbfrange\n<0000> <0002> <0061>\nendbfrange\n";
    let table = table_with(7, Some(program.as_bytes().to_vec()));
    let run = raw(vec![0x00, 0x00, 0x00, 0x01, 0x00, 0x02], 7);
    let decoded = decode_run(&run, &table).expect("decoding should succeed");
    assert_eq!(decoded.text, vec!['a', 'b', 'c']);
}

#[test]
fn bfrange_with_array_start_maps_each_code() {
    let program = "1 begincodespacerange\n<0000> <ffff>\nendcodespacerange\n\
         1 beginbfrange\n<0000> <0001> [<0048> <0049>]\nendbfrange\n";
    let table = table_with(7, Some(program.as_bytes().to_vec()));
    let run = raw(vec![0x00, 0x00, 0x00, 0x01], 7);
    let decoded = decode_run(&run, &table).expect("decoding should succeed");
    assert_eq!(decoded.text, vec!['H', 'I']);
}

#[test]
fn surrogate_pair_decodes_to_supplementary_character() {
    let program = "1 begincodespacerange\n<0000> <ffff>\nendcodespacerange\n\
         2 beginbfchar\n<0041> <d835>\n<0042> <dc00>\nendbfchar\n";
    let table = table_with(7, Some(program.as_bytes().to_vec()));
    let run = raw(vec![0x00, 0x41, 0x00, 0x42], 7);
    let decoded = decode_run(&run, &table).expect("decoding should succeed");
    assert_eq!(decoded.text, vec!['\u{1D400}']);
}

#[test]
fn comments_and_literal_strings_are_lexed() {
    let program = "%!PS-Adobe-3.0 Resource-CMap\n\
         %%Comment line\n\
         /Note (nested (parens) and \\(escapes\\)) def\n\
         1 begincodespacerange\n<0000> <ffff>\nendcodespacerange\n\
         1 beginbfchar\n<0041> <0041>\nendbfchar\n";
    let table = table_with(7, Some(program.as_bytes().to_vec()));
    let run = raw(vec![0x00, 0x41], 7);
    let decoded = decode_run(&run, &table).expect("decoding should succeed");
    assert_eq!(decoded.text, vec!['A']);
}

#[test]
fn later_map_entry_for_same_code_wins() {
    let program = "1 begincodespacerange\n<0000> <ffff>\nendcodespacerange\n\
         2 beginbfchar\n<0041> <0041>\n<0041> <0042>\nendbfchar\n";
    let table = table_with(7, Some(program.as_bytes().to_vec()));
    let run = raw(vec![0x00, 0x41], 7);
    let decoded = decode_run(&run, &table).expect("decoding should succeed");
    assert_eq!(decoded.text, vec!['B']);
}

#[test]
fn octal_and_named_escapes_in_literal_strings() {
    // The literal string lexes with escapes resolved; the map still
    // resolves through the hex sections that follow it.
    let program = "/Note (line\\nbreak \\101 \\12) def\n\
         1 begincodespacerange\n<0000> <ffff>\nendcodespacerange\n\
         1 beginbfchar\n<0041> <0043>\nendbfchar\n";
    let table = table_with(7, Some(program.as_bytes().to_vec()));
    let run = raw(vec![0x00, 0x41], 7);
    let decoded = decode_run(&run, &table).expect("decoding should succeed");
    assert_eq!(decoded.text, vec!['C']);
}

#[test]
fn hex_strings_allow_whitespace_between_pairs() {
    let program = "1 begincodespacerange\n< 00 00 > < ff ff >\nendcodespacerange\n\
         1 beginbfchar\n<00 41> <00 44>\nendbfchar\n";
    let table = table_with(7, Some(program.as_bytes().to_vec()));
    let run = raw(vec![0x00, 0x41], 7);
    let decoded = decode_run(&run, &table).expect("decoding should succeed");
    assert_eq!(decoded.text, vec!['D']);
}

#[test]
fn counts_reals_and_signed_numbers_are_lexed() {
    let program = "/Version 0.5 def\n-3 7 add\n\
         1 begincodespacerange\n<0000> <ffff>\nendcodespacerange\n\
         1 beginbfchar\n<0041> <0045>\nendbfchar\n";
    let table = table_with(7, Some(program.as_bytes().to_vec()));
    let run = raw(vec![0x00, 0x41], 7);
    let decoded = decode_run(&run, &table).expect("decoding should succeed");
    assert_eq!(decoded.text, vec!['E']);
}

#[test]
fn key_wider_than_code_width_is_unreachable() {
    // A one-byte codespace with a two-byte-value key: no one-byte code
    // can reach it, so looking one up fails as unmapped.
    let program = "1 begincodespacerange\n<00> <ff>\nendcodespacerange\n\
         1 beginbfchar\n<0141> <0042>\nendbfchar\n";
    let table = table_with(7, Some(program.as_bytes().to_vec()));
    let run = raw(vec![0x41], 7);
    let err = decode_run(&run, &table).expect_err("unreachable key must leave code unmapped");
    assert!(matches!(err, ExtractError::UnmappedCharacter { .. }));
}

#[test]
fn empty_raw_bytes_decode_to_empty_text() {
    let table = table_with(7, Some(simple_cmap()));
    let run = raw(Vec::new(), 7);
    let decoded = decode_run(&run, &table).expect("decoding should succeed");
    assert!(decoded.text.is_empty());
}

#[test]
fn parse_font_map_derives_code_width_from_first_bound() {
    let fm = pagetext::cmap_walk::parse_font_map(&simple_cmap()).expect("map should resolve");
    // Two-byte bounds declare a two-byte code.
    assert_eq!(fm.code_width, 2);
    assert_eq!(fm.lookup(0x41), Some(0x0041));
    assert_eq!(fm.lookup(0x42), None);
}

#[test]
fn one_byte_bounds_derive_one_byte_codes() {
    let program = "1 begincodespacerange\n<00> <ff>\nendcodespacerange\n\
         1 beginbfchar\n<41> <0042>\nendbfchar\n";
    let fm = pagetext::cmap_walk::parse_font_map(&program.as_bytes().to_vec())
        .expect("map should resolve");
    assert_eq!(fm.code_width, 1);
    assert_eq!(fm.lookup(0x41), Some(0x0042));
}
