use rat_king::analyze::colors::{colors_to_sorted_vec, normalize_color};
use rat_king::analyze::size::format_file_size;
use rat_king::analyze::tree::{render_tree_compact, render_tree_text, tree_levels};
use rat_king::analyze::types::{ColorInfo, ElementCounts, GroupElementCounts, TreeNode};

fn leaf(name: &str, id: Option<&str>, count: usize) -> TreeNode {
    TreeNode {
        name: name.to_string(),
        id: id.map(|s| s.to_string()),
        element_count: count,
        children: vec![],
    }
}

#[test]
fn test_normalize_color() {
    assert_eq!(normalize_color("#FF0000"), "#ff0000");
    assert_eq!(normalize_color("  red  "), "red");
    assert_eq!(normalize_color("url(#gradient1)"), "url-reference");
}

#[test]
fn normalize_color_keeps_inner_spaces_and_lowercases_names() {
    assert_eq!(normalize_color("\tRGB(1, 2, 3)\n"), "rgb(1, 2, 3)");
    assert_eq!(normalize_color("url(x"), "url-reference");
    assert_eq!(normalize_color(""), "");
}

#[test]
fn test_render_tree_compact() {
    let tree = TreeNode {
        name: "svg".to_string(),
        id: None,
        element_count: 10,
        children: vec![leaf("g", Some("Layer1"), 5), leaf("g", Some("Layer2"), 5)],
    };

    let output = render_tree_compact(&tree, 0);
    assert!(output.contains("svg (10)"));
    assert!(output.contains("g #Layer1 (5)"));
    assert!(output.contains("g #Layer2 (5)"));
}

#[test]
fn render_tree_compact_exact_text() {
    let tree = TreeNode {
        name: "svg".to_string(),
        id: None,
        element_count: 3,
        children: vec![
            TreeNode {
                name: "g".to_string(),
                id: Some("a".to_string()),
                element_count: 2,
                children: vec![leaf("path", None, 0), leaf("(2 more)", None, 2)],
            },
        ],
    };
    let output = render_tree_compact(&tree, 1);
    assert_eq!(output, "  svg (3)\n    g #a (2)\n      path\n      (2 more)\n");
}

#[test]
fn render_tree_text_draws_connectors() {
    let tree = TreeNode {
        name: "svg".to_string(),
        id: None,
        element_count: 4,
        children: vec![
            TreeNode {
                name: "g".to_string(),
                id: Some("L1".to_string()),
                element_count: 2,
                children: vec![leaf("path", Some("p"), 0), leaf("rect", None, 0)],
            },
            leaf("circle", None, 0),
        ],
    };
    let output = render_tree_text(&tree, 0, true, "");
    let expected = "svg (4)\n\
├── g #L1 (2)\n\
│   ├── path #p\n\
│   └── rect\n\
└── circle\n";
    assert_eq!(output, expected);
}

#[test]
fn colors_sorted_by_count_then_name() {
    let input = vec![
        ColorInfo { color: "red".to_string(), count: 2 },
        ColorInfo { color: "#000".to_string(), count: 5 },
        ColorInfo { color: "blue".to_string(), count: 2 },
        ColorInfo { color: "aqua".to_string(), count: 1 },
    ];
    let sorted = colors_to_sorted_vec(&input);
    let names: Vec<&str> = sorted.iter().map(|c| c.color.as_str()).collect();
    assert_eq!(names, vec!["#000", "blue", "red", "aqua"]);
    let counts: Vec<usize> = sorted.iter().map(|c| c.count).collect();
    assert_eq!(counts, vec![5, 2, 2, 1]);
}

#[test]
fn colors_sorted_empty() {
    assert!(colors_to_sorted_vec(&[]).is_empty());
}

#[test]
fn file_size_exact_texts() {
    assert_eq!(format_file_size(0), "0 bytes");
    assert_eq!(format_file_size(1023), "1023 bytes");
    assert_eq!(format_file_size(1024), "1.00 KB");
    assert_eq!(format_file_size(1536), "1.50 KB");
    assert_eq!(format_file_size(1048576), "1.00 MB");
    assert_eq!(format_file_size(15_938_355), "15.20 MB");
    assert_eq!(format_file_size(1073741824), "1.00 GB");
}

#[test]
fn file_size_matches_float_formatting() {
    let mut samples: Vec<u64> = vec![
        1152, 1153, 1151, 2047, 2048, 10_240, 1_048_575, 1_049_088, 5_368_709_120,
        (1u64 << 53) - 1, 1u64 << 53, (1u64 << 53) + 1, (1u64 << 53) + 3, u64::MAX,
        u64::MAX - 1024, 12_345_678_901_234_567_890,
    ];
    let mut x: u64 = 1;
    for _ in 0..2000 {
        x = x.wrapping_mul(6364136223846793005).wrapping_add(1442695040888963407);
        samples.push(x >> (x % 50));
        samples.push(1024 + (x % 4096) * 128);
    }
    for b in samples {
        let expected = if b >= 1 << 30 {
            format!("{:.2} GB", b as f64 / (1u64 << 30) as f64)
        } else if b >= 1 << 20 {
            format!("{:.2} MB", b as f64 / (1u64 << 20) as f64)
        } else if b >= 1 << 10 {
            format!("{:.2} KB", b as f64 / (1u64 << 10) as f64)
        } else {
            format!("{} bytes", b)
        };
        assert_eq!(format_file_size(b), expected, "bytes = {}", b);
    }
}

#[test]
fn default_counts_are_zero() {
    let c = ElementCounts::default();
    assert_eq!(c.paths + c.groups + c.total + c.patterns, 0);
    let g = GroupElementCounts::default();
    assert_eq!(g.paths + g.use_elements, 0);
}

#[test]
fn tree_levels_counts_depth() {
    let flat = leaf("svg", None, 0);
    assert_eq!(tree_levels(&flat), 1);
    let nested = TreeNode {
        name: "svg".to_string(),
        id: None,
        element_count: 2,
        children: vec![
            leaf("path", None, 0),
            TreeNode { name: "g".to_string(), id: None, element_count: 1, children: vec![leaf("rect", None, 0)] },
        ],
    };
    assert_eq!(tree_levels(&nested), 3);
}

#[test]
fn color_listing_independent_of_input_order() {
    let entries = [("b", 3usize), ("a", 3), ("c", 1), ("d", 7)];
    let forward: Vec<ColorInfo> = entries.iter().map(|(c, n)| ColorInfo { color: c.to_string(), count: *n }).collect();
    let backward: Vec<ColorInfo> = entries.iter().rev().map(|(c, n)| ColorInfo { color: c.to_string(), count: *n }).collect();
    let a: Vec<(String, usize)> = colors_to_sorted_vec(&forward).into_iter().map(|c| (c.color, c.count)).collect();
    let b: Vec<(String, usize)> = colors_to_sorted_vec(&backward).into_iter().map(|c| (c.color, c.count)).collect();
    assert_eq!(a, b);
    assert_eq!(a[0], ("d".to_string(), 7));
    assert_eq!(a[1], ("a".to_string(), 3));
}
