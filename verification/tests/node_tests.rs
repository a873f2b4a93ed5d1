use rat_king::analyze::nodes::{
    build_tree, build_tree_node, child_summaries, collect_path_positions, count_all_children, count_path_points, Segment, find_element_path, find_group_path, group_at,
    layer_stats, paint_to_string, query_color, Paint, SvgGroup, SvgNode, SvgPath,
};
use rat_king::analyze::report::render_color_query;
use rat_king::analyze::tree::render_tree_text;

fn path(id: &str, fill: Option<Paint>, stroke: Option<Paint>) -> SvgNode {
    SvgNode::Path(SvgPath { id: id.to_string(), fill, stroke })
}

fn group(id: &str, children: Vec<SvgNode>) -> SvgGroup {
    SvgGroup { id: id.to_string(), children }
}

fn sample() -> SvgGroup {
    group(
        "",
        vec![
            SvgNode::Group(group(
                "layer",
                vec![
                    path("", Some(Paint::Color(255, 0, 0)), None),
                    path("p1", None, Some(Paint::Color(0, 10, 171))),
                    SvgNode::Group(group("", vec![path("", Some(Paint::Color(255, 0, 0)), None)])),
                ],
            )),
            SvgNode::Image("img".to_string()),
            SvgNode::Text(String::new()),
            path("", Some(Paint::LinearGradient), None),
        ],
    )
}

#[test]
fn paints_as_text() {
    assert_eq!(paint_to_string(&Paint::Color(255, 0, 171)), "#ff00ab");
    assert_eq!(paint_to_string(&Paint::Color(1, 2, 3)), "#010203");
    assert_eq!(paint_to_string(&Paint::LinearGradient), "linear-gradient");
    assert_eq!(paint_to_string(&Paint::RadialGradient), "radial-gradient");
    assert_eq!(paint_to_string(&Paint::Pattern), "pattern");
}

#[test]
fn counts_every_node() {
    assert_eq!(count_all_children(&sample()), 8);
    assert_eq!(count_all_children(&group("x", vec![])), 0);
}

#[test]
fn tree_without_limit() {
    let t = build_tree(&sample(), None);
    let text = render_tree_text(&t, 0, true, "");
    let expected = "svg (8)\n\
├── g #layer (4)\n\
│   ├── path #p1\n\
│   ├── g (1)\n\
│   │   └── (1 paths)\n\
│   └── (1 paths)\n\
├── image #img\n\
└── (1 paths)\n";
    assert_eq!(text, expected);
}

#[test]
fn tree_with_depth_limit() {
    let t = build_tree(&sample(), Some(1));
    assert_eq!(t.element_count, 8);
    assert_eq!(t.children.len(), 3);
    assert_eq!(t.children[0].name, "g");
    assert_eq!(t.children[0].id, Some("layer".to_string()));
    assert_eq!(t.children[0].element_count, 4);
    assert_eq!(t.children[0].children.len(), 1);
    assert_eq!(t.children[0].children[0].name, "(4 elements)");
    let t0 = build_tree(&sample(), Some(0));
    assert_eq!(t0.children.len(), 1);
    assert_eq!(t0.children[0].name, "(8 elements)");
    assert_eq!(t0.children[0].element_count, 8);
}

#[test]
fn color_query_finds_fill_and_stroke_in_order() {
    let r = query_color(&sample(), "#FF0000", 10);
    assert_eq!(r.query_color, "#FF0000");
    assert_eq!(r.match_count, 2);
    assert_eq!(r.elements[0].element_type, "path");
    assert_eq!(r.elements[0].fill, Some("#ff0000".to_string()));
    let r = query_color(&sample(), "#000aab", 10);
    assert_eq!(r.match_count, 1);
    assert_eq!(r.elements[0].id, Some("p1".to_string()));
    assert_eq!(r.elements[0].fill, None);
    let r = query_color(&sample(), "Linear-Gradient", 10);
    assert_eq!(r.match_count, 1);
}

#[test]
fn color_query_respects_limit() {
    let r = query_color(&sample(), "#ff0000", 1);
    assert_eq!(r.match_count, 1);
    assert_eq!(r.elements.len(), 1);
    assert!(query_color(&sample(), "#ff0000", 0).elements.is_empty());
    assert!(query_color(&sample(), "blue", 5).elements.is_empty());
}

#[test]
fn color_query_report() {
    let r = query_color(&sample(), "#ff0000", 10);
    assert_eq!(render_color_query(&r), "Color Query: #ff0000\nFound 2 elements:\n  path\n  path\n");
    let r = query_color(&sample(), "#000AAB", 10);
    assert_eq!(render_color_query(&r), "Color Query: #000AAB\nFound 1 elements:\n  path #p1\n");
}

#[test]
fn group_search_in_document_order() {
    let doc = sample();
    assert_eq!(find_group_path(&doc, ""), Some(vec![]));
    assert_eq!(find_group_path(&doc, "layer"), Some(vec![0]));
    assert_eq!(find_group_path(&doc, "p1"), None);
    assert_eq!(find_group_path(&doc, "missing"), None);
    let layer = group_at(&doc, &[0]).unwrap();
    assert_eq!(layer.id, "layer");
    assert_eq!(group_at(&doc, &[0, 2]).unwrap().children.len(), 1);
    assert!(group_at(&doc, &[1]).is_none());
    assert!(group_at(&doc, &[7]).is_none());
}

#[test]
fn layer_counts() {
    let doc = sample();
    let stats = layer_stats(group_at(&doc, &[0]).unwrap());
    assert_eq!(stats.element_count, 4);
    assert_eq!(stats.path_count, 3);
    assert_eq!(stats.nested_groups, 1);
    let mut colors = stats.colors_used.clone();
    colors.sort();
    assert_eq!(colors, vec!["#000aab".to_string(), "#ff0000".to_string()]);
    let all = layer_stats(&doc);
    assert_eq!(all.element_count, 8);
    assert_eq!(all.path_count, 4);
    assert_eq!(all.nested_groups, 2);
    assert_eq!(all.colors_used.len(), 3);
}

#[test]
fn element_search_in_document_order() {
    let doc = sample();
    assert_eq!(find_element_path(&doc, "p1"), Some(vec![0, 1]));
    assert_eq!(find_element_path(&doc, "img"), Some(vec![1]));
    assert_eq!(find_element_path(&doc, "layer"), Some(vec![0]));
    assert_eq!(find_element_path(&doc, "none"), None);
    // The unnamed root matches the empty id before anything below it.
    assert_eq!(find_element_path(&doc, ""), Some(vec![]));
}

#[test]
fn child_summary_entries() {
    let doc = sample();
    let all = child_summaries(&doc, 20);
    assert_eq!(all.len(), 4);
    assert_eq!(all[0].element_type, "g");
    assert_eq!(all[0].id, Some("layer".to_string()));
    assert_eq!(all[1].element_type, "image");
    assert_eq!(all[2].element_type, "text");
    assert_eq!(all[2].id, None);
    assert_eq!(all[3].element_type, "path");
    assert_eq!(all[3].fill, Some("linear-gradient".to_string()));
    assert_eq!(child_summaries(&doc, 2).len(), 2);
}

#[test]
fn path_positions_in_document_order() {
    let doc = sample();
    let positions = collect_path_positions(&doc);
    assert_eq!(positions, vec![vec![0, 0], vec![0, 1], vec![0, 2, 0], vec![3]]);
}

#[test]
fn path_point_counts() {
    assert_eq!(count_path_points(&[]), 0);
    assert_eq!(
        count_path_points(&[Segment::MoveTo, Segment::LineTo, Segment::QuadTo, Segment::CubicTo, Segment::Close]),
        7
    );
}

#[test]
fn tree_node_counts_everything_below_at_any_depth() {
    let g = sample();
    let deep = build_tree_node(&g, "g", 0, 5);
    assert_eq!(deep.name, "g");
    assert_eq!(deep.element_count, count_all_children(&g));
    let cut = build_tree_node(&g, "g", 3, 3);
    assert_eq!(cut.element_count, count_all_children(&g));
    assert_eq!(cut.children.len(), 1);
    assert_eq!(cut.children[0].name, format!("({} elements)", count_all_children(&g)));
    assert_eq!(cut.children[0].element_count, count_all_children(&g));
    assert!(cut.children[0].children.is_empty());
    let empty = build_tree_node(&group("", vec![]), "g", 2, 2);
    assert_eq!(empty.element_count, 0);
    assert!(empty.children.is_empty());
}
