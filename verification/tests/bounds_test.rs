//! The bounds tracker.

use mermaid_svg_render::layout::ContentBounds;
use mermaid_svg_render::units::px;

#[test]
fn test_bounds_new() {
    let bounds = ContentBounds::new();
    assert_eq!(bounds.svg_size(px(0)), (0, 0));
}

#[test]
fn test_bounds_include_point() {
    let mut bounds = ContentBounds::new();
    bounds.include_point(px(100), px(200));
    assert_eq!(bounds.svg_size(px(0)), (100, 200));
}

#[test]
fn test_bounds_include_rect() {
    let mut bounds = ContentBounds::new();
    bounds.include_rect(px(10), px(20), px(100), px(50));
    assert_eq!(bounds.svg_size(px(0)), (110, 70));
}

#[test]
fn test_bounds_with_padding() {
    let mut bounds = ContentBounds::new();
    bounds.include_point(px(100), px(100));
    assert_eq!(bounds.svg_size(px(20)), (120, 120));
}

#[test]
fn bounds_default_is_empty() {
    let bounds = ContentBounds::default();
    assert_eq!(bounds.svg_size(0), (0, 0));
    assert_eq!(bounds.svg_size(px(20)), (20, 20));
}

#[test]
fn bounds_never_shrink() {
    let mut bounds = ContentBounds::new();
    bounds.include_point(px(100), px(200));
    bounds.include_point(px(50), px(300));
    assert_eq!(bounds.svg_size(0), (100, 300));
    bounds.include_point(px(-10), px(-10));
    assert_eq!(bounds.svg_size(0), (100, 300));
    bounds.include_rect(px(0), px(0), px(10), px(10));
    assert_eq!(bounds.svg_size(0), (100, 300));
}

#[test]
fn bounds_ignore_what_lies_left_of_or_above_the_origin() {
    let mut bounds = ContentBounds::new();
    bounds.include_point(px(-5), px(-7));
    bounds.include_rect(px(-30), px(-30), px(10), px(10));
    assert_eq!(bounds.svg_size(0), (0, 0));
}

#[test]
fn bounds_include_text_by_anchor() {
    let mut start = ContentBounds::new();
    start.include_text(px(10), px(5), px(40), "start");
    assert_eq!(start.svg_size(0), (50, 5));

    let mut middle = ContentBounds::new();
    middle.include_text(px(10), px(5), px(40), "middle");
    assert_eq!(middle.svg_size(0), (30, 5));

    let mut end = ContentBounds::new();
    end.include_text(px(10), px(5), px(40), "end");
    assert_eq!(end.svg_size(0), (10, 5));

    // An anchor that is not known is read as "start".
    let mut other = ContentBounds::new();
    other.include_text(px(10), px(5), px(40), "justify");
    assert_eq!(other.svg_size(0), (50, 5));
}

#[test]
fn bounds_round_the_canvas_up_to_whole_pixels() {
    let mut bounds = ContentBounds::new();
    bounds.include_point(px(100) + 1, px(100) - 1);
    assert_eq!(bounds.svg_size(0), (101, 100));
    // Half a pixel of padding on a whole extent.
    let mut whole = ContentBounds::new();
    whole.include_point(px(10), px(10));
    assert_eq!(whole.svg_size(70), (11, 11));
    assert_eq!(whole.svg_size(-70), (10, 10));
    assert_eq!(whole.svg_size(px(-20)), (0, 0));
}

#[test]
fn bounds_hold_the_canvas_within_u32() {
    let mut bounds = ContentBounds::new();
    bounds.include_point(i64::MAX, i64::MAX);
    assert_eq!(bounds.svg_size(i64::MAX), (u32::MAX, u32::MAX));
    assert_eq!(bounds.svg_size(i64::MIN), (0, 0));
}
