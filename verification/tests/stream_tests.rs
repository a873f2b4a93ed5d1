use rat_king::analyze::streaming::{element_kind, ElementKind, StreamingAnalyzer};
use rat_king::analyze::report::{report_body, report_head};
use rat_king::analyze::types::SvgSummary;
use rat_king::analyze::viewbox::{float_text_ok, parse_viewbox};

fn analyze(content: &str, file_size: u64) -> Result<SvgSummary, String> {
    StreamingAnalyzer::new().analyze(content, file_size)
}

fn chars(s: &str) -> Vec<char> {
    s.chars().collect()
}

#[test]
fn test_parse_viewbox() {
    let vb = parse_viewbox("0 0 100 200").unwrap();
    assert_eq!(vb.min_x.parse::<f64>().unwrap(), 0.0);
    assert_eq!(vb.min_y.parse::<f64>().unwrap(), 0.0);
    assert_eq!(vb.width.parse::<f64>().unwrap(), 100.0);
    assert_eq!(vb.height.parse::<f64>().unwrap(), 200.0);

    let vb = parse_viewbox("0, 0, 100, 200").unwrap();
    assert_eq!(vb.width.parse::<f64>().unwrap(), 100.0);
}

#[test]
fn parse_viewbox_rejects() {
    assert!(parse_viewbox("0 0 100").is_none());
    assert!(parse_viewbox("0 0 100 200 5").is_none());
    assert!(parse_viewbox("0 0 wide 200").is_none());
    assert!(parse_viewbox("").is_none());
    assert!(parse_viewbox("0\t0 100 200").is_none());
    let vb = parse_viewbox(" -1.5e2,,  .5 1E3 +inf ").unwrap();
    assert_eq!(vb.min_x, "-1.5e2");
    assert_eq!(vb.min_y, ".5");
    assert_eq!(vb.width, "1E3");
    assert_eq!(vb.height, "+inf");
}

#[test]
fn float_text_matches_std_parse() {
    let samples = [
        "0", "1", "-1", "+1", "1.", ".5", ".", "1.5", "1.5.2", "1e5", "1E5", "1e", "e5", "1e+5",
        "1e-5", "1e+-5", "-.5e-3", "inf", "INF", "-inf", "Infinity", "+infinity", "infinit", "nan",
        "NaN", "-NAN", "", "+", "-", " 1", "1 ", "0x10", "1_000", "١", "1e5.0", "00012", "1.e3",
        "inF", "∞", "1d", "12345678901234567890", "1e99999", ".e1", "+.", "-e",
    ];
    for s in samples {
        assert_eq!(float_text_ok(&chars(s)), s.parse::<f64>().is_ok(), "text {:?}", s);
    }
}

#[test]
fn test_basic_analysis() {
    let svg = "<svg viewBox=\"0 0 100 100\"><g id=\"Layer1\"><path fill=\"#FF0000\" d=\"M0,0 L100,100\"/><rect fill=\"#00FF00\" x=\"0\" y=\"0\" width=\"10\" height=\"10\"/></g></svg>";

    let summary = analyze(svg, svg.len() as u64).unwrap();

    assert_eq!(summary.element_counts.paths, 1);
    assert_eq!(summary.element_counts.rects, 1);
    assert_eq!(summary.element_counts.groups, 1);
    assert_eq!(summary.top_level_groups.len(), 1);
    assert_eq!(summary.top_level_groups[0].id, Some("Layer1".to_string()));
    assert_eq!(summary.fill_colors.len(), 2);
}

#[test]
fn analysis_counts_colors_styles_and_defs() {
    let svg = "<svg width=\"10\"><defs><linearGradient id=\"g1\"/><path fill=\"blue\"/></defs><g id=\"a\" transform=\"scale(2)\"><g id=\"inner\"><circle fill=\"RED\" stroke=\"none\"/></g></g><g><path style=\"fill: red ; stroke:#ABC;fill:none\" transform=\"x\"/><polygon fill=\"url(#g1)\" stroke=\"#abc\"/><text>hi</text></g></svg>";
    let summary = analyze(svg, 2048).unwrap();
    let c = &summary.element_counts;
    assert_eq!(c.paths, 2);
    assert_eq!(c.groups, 3);
    assert_eq!(c.circles, 1);
    assert_eq!(c.polygons, 1);
    assert_eq!(c.text, 1);
    assert_eq!(c.defs, 1);
    assert_eq!(c.gradients, 1);
    assert_eq!(c.total, 11);
    assert_eq!(summary.transform_count, 2);
    assert_eq!(summary.file_size_human, "2.00 KB");
    assert_eq!(summary.width, Some("10".to_string()));
    assert!(summary.view_box.is_none());
    assert!(summary.warnings.is_empty());
    let groups: Vec<(Option<String>, bool)> = summary
        .top_level_groups
        .iter()
        .map(|g| (g.id.clone(), g.has_transform))
        .collect();
    assert_eq!(groups, vec![(Some("a".to_string()), true), (None, false)]);
    let fills: Vec<(String, usize)> = summary.fill_colors.iter().map(|c| (c.color.clone(), c.count)).collect();
    assert_eq!(fills, vec![("red".to_string(), 2), ("url-reference".to_string(), 1)]);
    let strokes: Vec<(String, usize)> = summary.stroke_colors.iter().map(|c| (c.color.clone(), c.count)).collect();
    assert_eq!(strokes, vec![("#abc".to_string(), 2)]);
}

#[test]
fn analysis_warnings() {
    let summary = analyze("<svg viewBox=\"0 0 x\"></svg>", 10).unwrap();
    assert_eq!(
        summary.warnings,
        vec!["Invalid viewBox: 0 0 x".to_string(), "SVG has no viewBox or dimensions".to_string()]
    );
    let summary = analyze("<svg viewbox=\"1,2,3,4\" height=\"5\"/>", 10).unwrap();
    assert!(summary.warnings.is_empty());
    let vb = summary.view_box.unwrap();
    assert_eq!((vb.min_x.as_str(), vb.height.as_str()), ("1", "4"));
    assert_eq!(summary.height, Some("5".to_string()));
}

#[test]
fn analysis_reports_parse_errors() {
    assert!(analyze("<svg><g></svg>", 10).is_err());
}

#[test]
fn end_element_depth_never_negative() {
    let mut a = StreamingAnalyzer::new();
    a.process_end_element("g");
    a.process_start_element("svg", &[], false);
    a.process_start_element("g", &[("id".to_string(), "x".to_string())], false);
    let s = a.build_summary(0);
    assert_eq!(s.top_level_groups.len(), 1);
    assert_eq!(s.file_size_human, "0 bytes");
}

#[test]
fn element_kinds() {
    assert_eq!(element_kind("tspan"), ElementKind::Text);
    assert_eq!(element_kind("radialGradient"), ElementKind::Gradient);
    assert_eq!(element_kind("clipPath"), ElementKind::ClipPath);
    assert_eq!(element_kind("clippath"), ElementKind::Other);
    assert_eq!(element_kind("svg"), ElementKind::Svg);
}

#[test]
fn report_text_of_analysis() {
    let svg = "<svg width=\"10\" height=\"20\"><g id=\"L\" transform=\"t\"><path fill=\"#F00\"/><path fill=\"#f00\" stroke=\"blue\"/></g><g><rect fill=\"a\"/><rect fill=\"b\"/><rect fill=\"c\"/><rect fill=\"d\"/><rect fill=\"e\"/><rect fill=\"f\"/><rect fill=\"g\"/><rect fill=\"h\"/></g></svg>";
    let summary = analyze(svg, 100).unwrap();
    assert_eq!(report_head(&summary), "SVG Analysis\n============\n\nFile: 100 bytes\n");
    let lines = [
        "width: 10  height: 20",
        "",
        "Elements (13 total):",
        "  paths: 2",
        "  groups: 2",
        "  rects: 8",
        "",
        "Structure:",
        "  transforms: 1",
        "  top-level groups: 2",
        "    - L [T] (2 children)",
        "    - <anonymous> (8 children)",
        "",
        "Fill colors (9 unique):",
        "  #f00 (2x)",
        "  a (1x)",
        "  b (1x)",
        "  c (1x)",
        "  d (1x)",
        "  e (1x)",
        "  f (1x)",
        "  g (1x)",
        "  ... and 1 more",
        "",
        "Stroke colors (1 unique):",
        "  blue (1x)",
    ];
    let expected: String = lines.iter().map(|l| format!("{}\n", l)).collect();
    assert_eq!(report_body(&summary), expected);
}

#[test]
fn report_warnings_and_missing_dimensions() {
    let summary = analyze("<svg/>", 0).unwrap();
    assert_eq!(
        report_body(&summary),
        "\nElements (1 total):\n\nStructure:\n  transforms: 0\n  top-level groups: 0\n\nWarnings:\n  - SVG has no viewBox or dimensions\n"
    );
}

#[test]
fn summary_new_is_empty() {
    let s = SvgSummary::new(3 * 1024 * 1024);
    assert_eq!(s.file_size_human, "3.00 MB");
    assert!(s.fill_colors.is_empty() && s.top_level_groups.is_empty() && s.warnings.is_empty());
    assert_eq!(s.element_counts.total, 0);
}

#[test]
fn top_level_groups_count_direct_children() {
    let svg = r#"<svg viewBox="0 0 10 10"><g id="A"><rect/><rect/></g></svg>"#;
    let summary = StreamingAnalyzer::new().analyze(svg, 10).unwrap();
    assert_eq!(summary.top_level_groups.len(), 1);
    assert_eq!(summary.top_level_groups[0].id.as_deref(), Some("A"));
    assert_eq!(summary.top_level_groups[0].child_count, 2);
}

#[test]
fn child_counts_skip_grandchildren_and_close_with_group() {
    let svg = r#"<svg width="4"><g id="a"><g><circle/><circle/></g><path d="M0 0"/>text</g><rect/><g id="b" transform="scale(2)"><line/></g><g id="c"/></svg>"#;
    let summary = StreamingAnalyzer::new().analyze(svg, 10).unwrap();
    let groups: Vec<(Option<&str>, usize, bool)> = summary
        .top_level_groups
        .iter()
        .map(|g| (g.id.as_deref(), g.child_count, g.has_transform))
        .collect();
    assert_eq!(groups, vec![(Some("a"), 2, false), (Some("b"), 1, true)]);
    assert_eq!(summary.element_counts.groups, 4);
    assert_eq!(summary.element_counts.total, 10);
}

#[test]
fn analyze_keeps_tags_read_before_an_error() {
    let mut analyzer = StreamingAnalyzer::new();
    let r = analyzer.analyze("<svg><rect/><circle/></g>", 10);
    assert!(r.unwrap_err().starts_with("XML parse error at position"));
    let summary = analyzer.build_summary(10);
    assert_eq!(summary.element_counts.rects, 1);
    assert_eq!(summary.element_counts.circles, 1);
}
