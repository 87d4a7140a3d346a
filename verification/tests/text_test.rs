//! Text metrics: widths, line splitting and box sizes.

use mermaid_svg_render::layout::{
    calculate_text_box_height, calculate_text_box_width, split_by_line_breaks, text_width,
};
use mermaid_svg_render::units::px;

#[test]
fn test_text_width_basic() {
    let width = text_width("Hello", 14);
    assert!(width > 0);
}

#[test]
fn test_text_width_scales_with_font_size() {
    let width_14 = text_width("Test", 14);
    let width_28 = text_width("Test", 28);
    assert_eq!(width_28, width_14 * 2);
}

#[test]
fn test_split_by_line_breaks_br() {
    let lines = split_by_line_breaks("Hello<br>World");
    assert_eq!(lines, vec!["Hello", "World"]);
}

#[test]
fn test_split_by_line_breaks_br_slash() {
    let lines = split_by_line_breaks("Hello<br/>World");
    assert_eq!(lines, vec!["Hello", "World"]);
}

#[test]
fn test_split_by_line_breaks_newline() {
    let lines = split_by_line_breaks("Hello\nWorld");
    assert_eq!(lines, vec!["Hello", "World"]);
}

#[test]
fn test_split_by_line_breaks_trims() {
    let lines = split_by_line_breaks("  Hello  <br>  World  ");
    assert_eq!(lines, vec!["Hello", "World"]);
}

#[test]
fn test_text_box_width_single_line() {
    let lines = vec!["Hello".to_string()];
    let width = calculate_text_box_width(&lines, 14, px(20));
    // Width should be text width + padding
    let text_w = text_width("Hello", 14);
    assert_eq!(width as i128, text_w + px(20) as i128);
}

#[test]
fn test_text_box_width_uses_widest_line() {
    let lines = vec![
        "Hi".to_string(),
        "Hello World".to_string(),
        "Hey".to_string(),
    ];
    let width = calculate_text_box_width(&lines, 14, px(20));
    let widest = text_width("Hello World", 14);
    assert_eq!(width as i128, widest + px(20) as i128);
}

#[test]
fn test_text_box_width_empty_lines() {
    let lines: Vec<String> = vec![];
    let width = calculate_text_box_width(&lines, 14, px(20));
    // Empty lines should return just padding
    assert_eq!(width, px(20));
}

#[test]
fn test_text_box_height_single_line() {
    let height = calculate_text_box_height(1, px(18), px(16));
    assert_eq!(height, px(34)); // 1 * 18 + 16
}

#[test]
fn test_text_box_height_multiple_lines() {
    let height = calculate_text_box_height(3, px(18), px(16));
    assert_eq!(height, px(70)); // 3 * 18 + 16
}

#[test]
fn test_text_box_height_zero_lines_defaults_to_one() {
    let height = calculate_text_box_height(0, px(18), px(16));
    assert_eq!(height, px(34)); // 1 * 18 + 16
}

// ---------------------------------------------------------------------
// Exact widths
// ---------------------------------------------------------------------

#[test]
fn text_width_is_the_sum_of_the_glyph_table() {
    // H 9, e 7, l 4, l 4, o 7: 31 pixels at the reference size.
    assert_eq!(text_width("Hello", 14), px(31) as i128);
    // One glyph of each class.
    assert_eq!(text_width("i", 14), px(4) as i128);
    assert_eq!(text_width("I", 14), px(5) as i128);
    assert_eq!(text_width(" ", 14), px(5) as i128);
    assert_eq!(text_width("a", 14), px(7) as i128);
    assert_eq!(text_width("w", 14), px(10) as i128);
    assert_eq!(text_width("A", 14), px(9) as i128);
    assert_eq!(text_width("M", 14), px(11) as i128);
    assert_eq!(text_width("7", 14), px(7) as i128);
    assert_eq!(text_width("@", 14), px(8) as i128);
    assert_eq!(text_width("\u{4f60}", 14), px(7) as i128);
    assert_eq!(text_width("", 14), 0);
}

#[test]
fn text_width_counts_characters_not_bytes() {
    // Two characters of three bytes each: 2 * 7 pixels.
    assert_eq!(text_width("\u{4f60}\u{597d}", 14), px(14) as i128);
}

#[test]
fn text_width_scales_by_fourteenths_without_rounding() {
    // 7 pixels at size 14 is half a pixel for each pixel of font size.
    assert_eq!(text_width("a", 1), 70);
    assert_eq!(text_width("a", 15), 15 * 70);
    assert_eq!(text_width("i", 1), 40);
    assert_eq!(text_width("Hello", 0), 0);
    for size in [1u32, 3, 7, 14, 15, 100, u32::MAX / 3] {
        assert_eq!(text_width("Width", 2 * size), 2 * text_width("Width", size));
        assert_eq!(text_width("Width", 3 * size), 3 * text_width("Width", size));
    }
}

#[test]
fn text_width_has_room_for_every_text_at_every_size() {
    let long = "M".repeat(50_000_000);
    let half = text_width(&long, u32::MAX / 2);
    assert_eq!(half, 550_000_000 * 10 * (u32::MAX / 2) as i128);
    assert!(half > i64::MAX as i128);
    assert_eq!(text_width(&long, 2 * (u32::MAX / 2)), 2 * half);
}

// ---------------------------------------------------------------------
// Line splitting
// ---------------------------------------------------------------------

#[test]
fn split_of_text_without_breaks_is_one_line() {
    assert_eq!(split_by_line_breaks("Alice"), vec!["Alice"]);
    assert_eq!(split_by_line_breaks("  Alice and Bob \t"), vec!["Alice and Bob"]);
}

#[test]
fn split_of_blank_text_is_empty() {
    assert!(split_by_line_breaks("").is_empty());
    assert!(split_by_line_breaks("   ").is_empty());
    assert!(split_by_line_breaks(" \t\n \r\n").is_empty());
    assert!(split_by_line_breaks("\u{a0}\u{2003}\u{3000}").is_empty());
    assert!(split_by_line_breaks("<br>").is_empty());
    assert!(split_by_line_breaks(" <br/> <br> \n ").is_empty());
}

#[test]
fn split_drops_empty_lines_between_breaks() {
    assert_eq!(split_by_line_breaks("a<br><br>b"), vec!["a", "b"]);
    assert_eq!(split_by_line_breaks("<br/>a\n\n<br>  <br/>b<br>"), vec!["a", "b"]);
}

#[test]
fn split_mixes_all_three_breaks() {
    assert_eq!(
        split_by_line_breaks("Backend<br>API<br/>Server\nv2"),
        vec!["Backend", "API", "Server", "v2"]
    );
}

#[test]
fn split_leaves_lookalikes_alone() {
    assert_eq!(split_by_line_breaks("a<br b"), vec!["a<br b"]);
    assert_eq!(split_by_line_breaks("a<BR>b"), vec!["a<BR>b"]);
    assert_eq!(split_by_line_breaks("a<br />b"), vec!["a<br />b"]);
    assert_eq!(split_by_line_breaks("<b<br>r>"), vec!["<b", "r>"]);
    assert_eq!(split_by_line_breaks("<br<br/>/>"), vec!["<br", "/>"]);
    assert_eq!(split_by_line_breaks("x<br"), vec!["x<br"]);
    assert_eq!(split_by_line_breaks("x<br/"), vec!["x<br/"]);
}

#[test]
fn split_trims_unicode_white_space() {
    assert_eq!(split_by_line_breaks("\u{2003}Alice\u{a0}<br>\u{3000}Bob\u{85}"), vec!["Alice", "Bob"]);
    // A zero width space is no white space.
    assert_eq!(split_by_line_breaks("\u{200b}x"), vec!["\u{200b}x"]);
}

#[test]
fn split_agrees_with_the_standard_library() {
    let samples = [
        "",
        "plain",
        "  padded  ",
        "one<br>two<br/>three\nfour",
        "<br><br/>\n",
        " a <br> b <br/> c \n d ",
        "<br<br>>",
        "<<br/>br>",
        "tab\tinside<br>\u{1680}ogham\u{1680}",
        "\u{2028}line separator\u{2029}",
        "emoji \u{1f44b}<br>\u{1f60a} more",
    ];
    for text in samples {
        let expected: Vec<String> = text
            .replace("<br/>", "\n")
            .replace("<br>", "\n")
            .split('\n')
            .map(|s| s.trim().to_string())
            .filter(|s| !s.is_empty())
            .collect();
        assert_eq!(split_by_line_breaks(text), expected, "splitting {:?}", text);
    }
}

#[test]
fn split_is_idempotent_on_its_own_lines() {
    for text in ["  Hello  <br>  World  ", "a\nb<br/>c", "single", " x <br> y z "] {
        for line in split_by_line_breaks(text) {
            assert_eq!(split_by_line_breaks(&line), vec![line.clone()]);
        }
    }
}

// ---------------------------------------------------------------------
// Box sizes
// ---------------------------------------------------------------------

#[test]
fn text_box_width_is_exact() {
    // "Hello World": 9+7+4+4+7 + 5 + 11+7+5+4+7 = 70 pixels.
    let lines = vec!["Hi".to_string(), "Hello World".to_string()];
    assert_eq!(calculate_text_box_width(&lines, 14, px(20)), px(90));
    assert_eq!(calculate_text_box_width(&lines, 28, px(20)), px(160));
    assert_eq!(calculate_text_box_width(&lines, 14, 0), px(70));
}

#[test]
fn text_box_height_is_exact() {
    assert_eq!(calculate_text_box_height(2, px(18), px(16)), px(52));
    assert_eq!(calculate_text_box_height(0, px(18), 0), px(18));
    assert_eq!(calculate_text_box_height(5, 0, px(16)), px(16));
}
