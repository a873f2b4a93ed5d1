use rat_king::hershey::{jhf_text_ok, parse_hershey_coords, HersheyFont};

#[test]
fn test_parse_coords() {
    // Simple test with known coordinates
    let coords = "RFRT"; // Two points: R,F and R,T
    let path = parse_hershey_coords(coords);
    assert!(path.contains("M "));
    assert!(path.contains("L "));
}

#[test]
fn parse_coords_exact_path() {
    assert_eq!(parse_hershey_coords("RFRT"), "M 0 -12 L 0 2");
    assert_eq!(parse_hershey_coords("MWRFRT RRYQZ"), "M -5 5 L 0 -12 L 0 2 M 0 7 L -1 8");
    assert_eq!(parse_hershey_coords(""), "");
    assert_eq!(parse_hershey_coords("R"), "");
}

#[test]
fn parse_coords_pen_up_starts_new_stroke() {
    assert_eq!(parse_hershey_coords("RF RRT"), "M 0 -12 M 0 2");
    assert_eq!(parse_hershey_coords("RF R RT"), "M 0 -12");
}

#[test]
fn font_parse_assigns_glyphs_from_space() {
    let content = "12345  1JZ\n12346  9MWRFRT RRYQZ\n\n  \nnot a glyph\n12347  3NV\n";
    let font = HersheyFont::parse(content).unwrap();
    let space = font.get_glyph(' ').unwrap();
    assert_eq!(space.path, "");
    assert_eq!(space.left, -8);
    assert_eq!(space.right, 8);
    let bang = font.get_glyph('!').unwrap();
    assert_eq!(bang.path, "M 0 -12 L 0 2 M 0 7 L -1 8");
    assert_eq!(bang.left, -5);
    assert_eq!(bang.right, 5);
    // The skipped line still takes a place in the numbering.
    assert!(font.get_glyph('"').is_none());
    let hash = font.get_glyph('#').unwrap();
    assert_eq!(hash.left, -4);
    assert_eq!(hash.right, 4);
    assert!(font.get_glyph('é').is_none());
}

#[test]
fn font_parse_skips_short_data() {
    let content = "1 12\n2  5\n";
    let font = HersheyFont::parse(content).unwrap();
    assert!(font.get_glyph(' ').is_none());
}

#[test]
fn font_text_check() {
    assert!(jhf_text_ok("12345  1JZ\n\nnot a glyph\n"));
    assert!(jhf_text_ok(""));
    assert!(!jhf_text_ok("12345  1\u{c0}Z\n"));
    assert!(!jhf_text_ok("12345  1J\u{c0}\n"));
    assert!(jhf_text_ok("12345  1\u{e9}Z\n"));
}
