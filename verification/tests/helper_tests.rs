use rand::rngs::StdRng;
use rand::SeedableRng;
use rat_king::banner::{banner_patterns, eq_ignore_ascii_case, palette, plan_banner};
use rat_king::common::extract_viewbox;
use rat_king::patterns::Pattern;
use rat_king::recipe::{default_background, default_enabled};
use rat_king::svg::SvgError;
use rat_king::swatches::render_stars;
use rat_king::viewer::{
    key_action, next_focus, next_index, next_spinner_frame, prev_index, Action, GenerationState,
    Key,
};

#[test]
fn viewbox_camel_case() {
    let svg = r#"<svg width="10" viewBox="0 0 100 200"><g/></svg>"#;
    assert_eq!(extract_viewbox(svg), Some("0 0 100 200".to_string()));
}

#[test]
fn viewbox_lowercase_fallback() {
    assert_eq!(extract_viewbox(r#"<svg viewbox="1 2 3 4">"#), Some("1 2 3 4".to_string()));
    // An unterminated camel-case value falls back to the lowercase form.
    assert_eq!(extract_viewbox(r#"<svg viewbox="5 6 7 8" viewBox="oops"#), Some("5 6 7 8".to_string()));
}

#[test]
fn viewbox_missing() {
    assert_eq!(extract_viewbox("<svg width=\"3\">"), None);
    assert_eq!(extract_viewbox("viewBox=\"unterminated"), None);
    assert_eq!(extract_viewbox(""), None);
}

#[test]
fn viewbox_first_occurrence_and_empty_value() {
    assert_eq!(extract_viewbox(r#"viewBox="" viewBox="9""#), Some(String::new()));
    assert_eq!(extract_viewbox(r#"é viewBox="ü 1""#), Some("ü 1".to_string()));
}

#[test]
fn stars_render() {
    assert_eq!(render_stars(0), "☆☆☆☆☆");
    assert_eq!(render_stars(3), "★★★☆☆");
    assert_eq!(render_stars(5), "★★★★★");
}

#[test]
fn recipe_defaults() {
    assert_eq!(default_background(), "white");
    assert!(default_enabled());
}

#[test]
fn svg_error_messages() {
    assert_eq!(SvgError::ParseError("bad".to_string()).message(), "SVG parse error: bad");
    assert_eq!(SvgError::NoPolygons.message(), "No polygons found in SVG");
}

#[test]
fn selection_wraps_both_ways() {
    assert_eq!(next_index(Some(0), 3), 1);
    assert_eq!(next_index(Some(2), 3), 0);
    assert_eq!(next_index(None, 3), 0);
    assert_eq!(prev_index(Some(0), 3), 2);
    assert_eq!(prev_index(Some(2), 3), 1);
    assert_eq!(prev_index(None, 3), 0);
    for i in 0..5 {
        assert_eq!(prev_index(Some(next_index(Some(i), 5)), 5), i);
        assert_eq!(next_index(Some(prev_index(Some(i), 5)), 5), i);
    }
}

#[test]
fn focus_and_spinner_cycle() {
    assert_eq!(next_focus(0), 1);
    assert_eq!(next_focus(1), 0);
    assert_eq!(next_spinner_frame(7), 0);
    assert_eq!(next_spinner_frame(3), 4);
}

#[test]
fn key_bindings() {
    assert_eq!(key_action(Key::Char('q')), Action::Quit);
    assert_eq!(key_action(Key::Esc), Action::Quit);
    assert_eq!(key_action(Key::Char('k')), Action::PrevPattern);
    assert_eq!(key_action(Key::Down), Action::NextPattern);
    assert_eq!(key_action(Key::Tab), Action::NextFocus);
    assert_eq!(key_action(Key::Char('[')), Action::JumpDown);
    assert_eq!(key_action(Key::Char('=')), Action::ZoomIn);
    assert_eq!(key_action(Key::Char('_')), Action::ZoomOut);
    assert_eq!(key_action(Key::Char('0')), Action::ResetView);
    assert_eq!(key_action(Key::Char('d')), Action::PanRight);
    assert_eq!(key_action(Key::Char('x')), Action::Nothing);
    assert_eq!(key_action(Key::Other), Action::Nothing);
}

#[test]
fn generation_defers_requests_while_loading() {
    let mut g = GenerationState::new();
    assert!(g.request());
    assert!(g.is_loading);
    assert!(!g.request());
    assert!(!g.request());
    assert!(g.needs_regenerate);
    assert!(g.finish());
    assert!(g.is_loading);
    assert!(!g.needs_regenerate);
    assert!(!g.finish());
    assert!(!g.is_loading);
}

#[test]
fn banner_pattern_filters() {
    let all = banner_patterns(&None, &None);
    assert_eq!(all.len(), 17);
    let only = banner_patterns(&Some(vec!["ZIGZAG".to_string(), "lines".to_string(), "nope".to_string()]), &None);
    assert_eq!(only, vec![Pattern::Lines, Pattern::Zigzag]);
    let without = banner_patterns(&None, &Some(vec!["Spiral".to_string(), "fermat".to_string()]));
    assert_eq!(without.len(), 15);
    assert!(!without.contains(&Pattern::Spiral));
    let both = banner_patterns(&Some(vec!["lines".to_string()]), &Some(vec!["LINES".to_string()]));
    assert!(both.is_empty());
}

#[test]
fn ascii_case_comparison() {
    assert!(eq_ignore_ascii_case("Zigzag", "zIGZAG"));
    assert!(!eq_ignore_ascii_case("zigzag", "zigzags"));
    assert!(!eq_ignore_ascii_case("É", "é"));
    assert!(eq_ignore_ascii_case("", ""));
}

#[test]
fn banner_plan_draws_in_range() {
    let mut rng = StdRng::seed_from_u64(42);
    let patterns = vec![Pattern::Lines, Pattern::Radial];
    let cells = plan_banner(&patterns, 200, &mut rng);
    assert_eq!(cells.len(), 200);
    for c in &cells {
        assert!(patterns.contains(&c.pattern));
        assert!(c.color < palette().len());
        assert!((0..180).contains(&c.angle));
    }
    assert!(cells.iter().any(|c| c.pattern == Pattern::Radial));
    let mut again = StdRng::seed_from_u64(42);
    assert_eq!(plan_banner(&patterns, 200, &mut again), cells);
    assert_eq!(palette()[0], "#E63946");
}

#[test]
fn palette_lists_its_colors() {
    let p = palette();
    assert_eq!(p.len(), 30);
    assert_eq!(p[1], "#F4A261");
    assert_eq!(p[19], "#073B4C");
    assert_eq!(p[29], "#FFCA3A");
}
