use rat_king::patterns::{get_pattern_notes, Pattern};

#[test]
fn names_round_trip() {
    for p in Pattern::all() {
        assert_eq!(Pattern::from_name(p.name()), Some(*p));
    }
    assert_eq!(Pattern::all().len(), 17);
    assert_eq!(Pattern::all()[0], Pattern::Lines);
    assert_eq!(Pattern::all()[8], Pattern::Honeycomb);
}

#[test]
fn catalogue_lists_seventeen_names() {
    let names: Vec<&str> = Pattern::all().iter().map(|p| p.name()).collect();
    assert_eq!(
        names,
        vec![
            "lines", "crosshatch", "zigzag", "wiggle", "spiral", "fermat", "concentric", "radial",
            "honeycomb", "crossspiral", "hilbert", "guilloche", "lissajous", "rose", "phyllotaxis",
            "scribble", "gyroid",
        ]
    );
}

#[test]
fn from_name_ignores_case_and_knows_alias() {
    assert_eq!(Pattern::from_name("ZigZag"), Some(Pattern::Zigzag));
    assert_eq!(Pattern::from_name("WAVE"), Some(Pattern::Wiggle));
    assert_eq!(Pattern::from_name("wiggle"), Some(Pattern::Wiggle));
    assert_eq!(Pattern::from_name("sine"), Some(Pattern::Wiggle));
    assert_eq!(Pattern::from_name("Sine"), Some(Pattern::Wiggle));
    assert_eq!(Pattern::from_name("PHYLLOTAXIS"), Some(Pattern::Phyllotaxis));
    assert_eq!(Pattern::from_name("CrossSpiral"), Some(Pattern::Crossspiral));
    assert_eq!(Pattern::from_name("hexagon"), None);
    assert_eq!(Pattern::from_name(""), None);
    assert_eq!(Pattern::from_name(" lines"), None);
}

#[test]
fn from_lowercase_name_is_case_sensitive() {
    assert_eq!(Pattern::from_lowercase_name("radial"), Some(Pattern::Radial));
    assert_eq!(Pattern::from_lowercase_name("Radial"), None);
}

#[test]
fn notes_per_pattern() {
    assert_eq!(get_pattern_notes(&Pattern::Lines), "angle: rotation | simple, fast");
    assert_eq!(get_pattern_notes(&Pattern::Crosshatch), "angle: rotation | simple, fast");
    assert_eq!(get_pattern_notes(&Pattern::Spiral), "archimedean | center artifacts");
    assert_eq!(get_pattern_notes(&Pattern::Honeycomb), "hex cells | edge clipping");
    assert_eq!(get_pattern_notes(&Pattern::Zigzag), "amplitude varies | sharp corners");
    assert_eq!(get_pattern_notes(&Pattern::Hilbert), "space-filling | recursive depth");
    assert_eq!(get_pattern_notes(&Pattern::Gyroid), "3D projection | organic curves");
}
