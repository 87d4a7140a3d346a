//! The layout pass, and what the drawing pass makes of it.

use mermaid_svg_render::layout::text_width;
use mermaid_svg_render::sequence::constants::{
    MESSAGE_TEXT_MARGIN, MIN_PARTICIPANT_SPACING, PADDING,
};
use mermaid_svg_render::sequence::diagram::{ArrowType, Message, Participant, SequenceDiagram};
use mermaid_svg_render::layout::text::text_width_capped;
use mermaid_svg_render::sequence::constants::{LAYOUT_LIMIT, MAX_BOX_HEIGHT, MAX_TEXT_WIDTH};
use mermaid_svg_render::sequence::layout::{calculate_layout, find_participant_center};
use mermaid_svg_render::sequence::placement::calculate_participant_layouts;
use mermaid_svg_render::sequence::render::{arrow_type_to_styles, is_dotted_arrow};
use mermaid_svg_render::sequence::sizing::{
    calculate_participant_dimensions, calculate_participant_height, calculate_participant_width,
    get_participant_lines, largest,
};
use mermaid_svg_render::sequence::spacing::{calculate_gap_spacings, find_participant_index};
use mermaid_svg_render::sequence::render as render_sequence;
use mermaid_svg_render::svg::{EndStyle, LineStyle};
use mermaid_svg_render::units::px;
use mermaid_svg_render::{RenderOptions, Theme};

fn actor(name: &str) -> Participant {
    Participant { actor: name.to_string(), alias: None }
}

fn shown_as(name: &str, alias: &str) -> Participant {
    Participant { actor: name.to_string(), alias: Some(alias.to_string()) }
}

fn arrow(from: &str, to: &str, text: &str) -> Message {
    Message {
        from: from.to_string(),
        to: to.to_string(),
        text: text.to_string(),
        arrow_type: ArrowType::SolidClosed,
    }
}

fn sequence(names: &[&str], messages: Vec<Message>) -> SequenceDiagram {
    SequenceDiagram { participants: names.iter().map(|n| actor(n)).collect(), statements: messages }
}

fn centers(diagram: &SequenceDiagram, font_size: u32) -> Vec<i64> {
    calculate_layout(diagram, font_size).participants.iter().map(|p| p.center_x).collect()
}

/// A label that is `pixels` wide at the reference size, `pixels` a multiple
/// of 11.
fn label(pixels: usize) -> String {
    "M".repeat(pixels / 11)
}

// ---------------------------------------------------------------------
// Box sizes
// ---------------------------------------------------------------------

#[test]
fn short_names_get_the_minimum_box() {
    let lines = vec!["Alice".to_string()];
    assert_eq!(calculate_participant_width(&lines, 14), px(80));
    assert_eq!(calculate_participant_height(1), px(40));
    assert_eq!(calculate_participant_height(0), px(40));
}

#[test]
fn long_names_get_a_box_that_holds_them() {
    let lines = vec!["Very Long Participant Name".to_string()];
    // 173 pixels of text and 20 of padding.
    assert_eq!(calculate_participant_width(&lines, 14), px(193));
    // Three lines of 18 and 16 of padding.
    assert_eq!(calculate_participant_height(3), px(70));
    assert_eq!(calculate_participant_height(2), px(52));
}

#[test]
fn lines_come_from_the_alias_if_there_is_one() {
    assert_eq!(get_participant_lines(&actor("A")), vec!["A"]);
    assert_eq!(
        get_participant_lines(&shown_as("B", "Backend<br>API<br/>Server")),
        vec!["Backend", "API", "Server"]
    );
    assert!(get_participant_lines(&shown_as("C", "  ")).is_empty());
}

#[test]
fn dimensions_are_taken_per_participant() {
    let participants = vec![
        shown_as("A", "Short"),
        shown_as("B", "Very Long Participant Name"),
        shown_as("C", "Backend<br>API<br>Server"),
    ];
    let (widths, heights, lines) = calculate_participant_dimensions(&participants, 14);
    assert_eq!(widths, vec![px(80), px(193), px(80)]);
    assert_eq!(heights, vec![px(40), px(40), px(70)]);
    assert_eq!(lines[0], vec!["Short"]);
    assert_eq!(lines[2], vec!["Backend", "API", "Server"]);
    assert_eq!(largest(&widths, px(80)), px(193));
    assert_eq!(largest(&heights, px(40)), px(70));
    assert_eq!(largest(&vec![], px(80)), px(80));
    assert_eq!(largest(&vec![px(1), px(2)], px(80)), px(80));
}

#[test]
fn every_box_has_the_size_of_the_largest() {
    let diagram = SequenceDiagram {
        participants: vec![
            shown_as("A", "Short"),
            shown_as("B", "Very Long Participant Name"),
            shown_as("C", "Backend<br>API<br>Server"),
        ],
        statements: vec![],
    };
    let layout = calculate_layout(&diagram, 14);
    for p in &layout.participants {
        assert_eq!(p.width, px(193));
    }
    assert_eq!(layout.participant_height, px(70));
    assert_eq!(layout.participants[1].lines, vec!["Very Long Participant Name"]);
    assert_eq!(layout.participants[2].name, "C");
}

// ---------------------------------------------------------------------
// Gaps
// ---------------------------------------------------------------------

#[test]
fn gaps_start_at_two_half_boxes_and_the_minimum_spacing() {
    let participants = vec![actor("A"), actor("B"), actor("C")];
    let gaps = calculate_gap_spacings(&participants, &[px(80), px(80), px(80)], &[], 14);
    assert_eq!(gaps, vec![px(130), px(130)]);
    let uneven = calculate_gap_spacings(&participants, &[px(80), px(100), px(200)], &[], 14);
    assert_eq!(uneven, vec![px(140), px(200)]);
    for (i, gap) in uneven.iter().enumerate() {
        let widths = [px(80), px(100), px(200)];
        assert!(*gap >= widths[i] / 2 + MIN_PARTICIPANT_SPACING + widths[i + 1] / 2);
    }
}

#[test]
fn no_gaps_for_fewer_than_two_participants() {
    let none: Vec<Participant> = vec![];
    assert!(calculate_gap_spacings(&none, &[], &[arrow("A", "B", "x")], 14).is_empty());
    assert!(calculate_gap_spacings(&[actor("A")], &[px(80)], &[arrow("A", "A", "x")], 14).is_empty());
}

#[test]
fn a_label_that_fits_changes_nothing() {
    let participants = vec![actor("A"), actor("B")];
    // 88 pixels of label and 40 of margin: less than 130.
    let gaps = calculate_gap_spacings(&participants, &[px(80), px(80)], &[arrow("A", "B", &label(88))], 14);
    assert_eq!(gaps, vec![px(130)]);
    // 99 and 40: more than 130.
    let gaps = calculate_gap_spacings(&participants, &[px(80), px(80)], &[arrow("B", "A", &label(99))], 14);
    assert_eq!(gaps, vec![px(139)]);
}

#[test]
fn a_wide_label_widens_every_gap_that_it_spans() {
    let participants = vec![actor("A"), actor("B"), actor("C")];
    let widths = [px(80), px(80), px(80)];
    // 440 pixels of label and 40 of margin over a span of 260: 220 are
    // missing, 110 for each gap.
    let gaps = calculate_gap_spacings(&participants, &widths, &[arrow("A", "C", &label(440))], 14);
    assert_eq!(gaps, vec![px(240), px(240)]);
    // The same from right to left.
    let gaps = calculate_gap_spacings(&participants, &widths, &[arrow("C", "A", &label(440))], 14);
    assert_eq!(gaps, vec![px(240), px(240)]);
    // Only the gap that is spanned.
    let gaps = calculate_gap_spacings(&participants, &widths, &[arrow("B", "C", &label(440))], 14);
    assert_eq!(gaps, vec![px(130), px(480)]);
}

#[test]
fn a_share_that_does_not_divide_is_rounded_up() {
    let participants = vec![actor("A"), actor("B"), actor("C"), actor("D")];
    let widths = [px(80); 4];
    // 363 + 40 = 403 pixels over a span of 390: 13 pixels, which is 1820
    // units, are missing. A third of that is 606.67 units.
    let message = arrow("A", "D", &label(363));
    let gaps = calculate_gap_spacings(&participants, &widths, &[message.clone()], 14);
    assert_eq!(gaps, vec![px(130) + 607; 3]);
    let span: i64 = gaps.iter().sum();
    let required = text_width(&message.text, 14) + MESSAGE_TEXT_MARGIN as i128;
    assert!(span as i128 >= required);
    assert!((span as i128) < required + 3);
}

#[test]
fn growth_adds_up_and_is_never_taken_back() {
    let participants = vec![actor("A"), actor("B"), actor("C")];
    let widths = [px(80); 3];
    let wide_then_narrow = calculate_gap_spacings(
        &participants,
        &widths,
        &[arrow("A", "B", &label(220)), arrow("A", "B", "Hi")],
        14,
    );
    assert_eq!(wide_then_narrow, vec![px(260), px(130)]);
    // A second label across both gaps finds 390 and needs 480: 45 more for
    // each gap, on top of what the first one got.
    let overlapping = calculate_gap_spacings(
        &participants,
        &widths,
        &[arrow("A", "B", &label(220)), arrow("A", "C", &label(440))],
        14,
    );
    assert_eq!(overlapping, vec![px(305), px(175)]);
    // In the other order the first label makes room enough for the second.
    let other_order = calculate_gap_spacings(
        &participants,
        &widths,
        &[arrow("A", "C", &label(440)), arrow("A", "B", &label(220))],
        14,
    );
    assert_eq!(other_order, vec![px(260), px(240)]);
}

#[test]
fn a_wider_label_never_leaves_a_narrower_gap() {
    let participants = vec![actor("A"), actor("B"), actor("C"), actor("D")];
    let widths = [px(80); 4];
    let mut last = calculate_gap_spacings(&participants, &widths, &[arrow("A", "D", "")], 14);
    for glyphs in 1..60 {
        let text = "M".repeat(glyphs);
        let gaps = calculate_gap_spacings(&participants, &widths, &[arrow("A", "D", &text)], 14);
        for (now, before) in gaps.iter().zip(&last) {
            assert!(now >= before);
        }
        if text_width(&text, 14) + MESSAGE_TEXT_MARGIN as i128 > 3 * px(130) as i128 {
            for (now, before) in gaps.iter().zip(&last) {
                assert!(now > before, "a label of {} glyphs", glyphs);
            }
        }
        last = gaps;
    }
}

#[test]
fn self_messages_never_change_the_gaps() {
    let participants = vec![actor("A"), actor("B"), actor("C")];
    let widths = [px(80); 3];
    let plain = vec![arrow("A", "B", &label(220)), arrow("C", "B", "ok")];
    let with_selves = vec![
        arrow("A", "A", &label(990)),
        arrow("A", "B", &label(220)),
        arrow("B", "B", &label(990)),
        arrow("C", "B", "ok"),
        arrow("C", "C", &label(990)),
    ];
    assert_eq!(
        calculate_gap_spacings(&participants, &widths, &with_selves, 14),
        calculate_gap_spacings(&participants, &widths, &plain, 14)
    );
}

#[test]
fn messages_to_unknown_participants_never_change_the_gaps() {
    let participants = vec![actor("A"), actor("B")];
    let widths = [px(80); 2];
    let gaps = calculate_gap_spacings(
        &participants,
        &widths,
        &[arrow("A", "Nobody", &label(990)), arrow("Nobody", "B", &label(990))],
        14,
    );
    assert_eq!(gaps, vec![px(130)]);
}

#[test]
fn index_of_a_participant_is_that_of_the_first_with_the_name() {
    let participants = vec![actor("A"), actor("B"), actor("A")];
    assert_eq!(find_participant_index(&participants, "A"), Some(0));
    assert_eq!(find_participant_index(&participants, "B"), Some(1));
    assert_eq!(find_participant_index(&participants, "C"), None);
    assert_eq!(find_participant_index(&participants, "a"), None);
    assert_eq!(find_participant_index(&[], "A"), None);
}

// ---------------------------------------------------------------------
// Positions
// ---------------------------------------------------------------------

#[test]
fn participants_stand_one_gap_apart() {
    let participants = vec![actor("A"), actor("B"), actor("C")];
    let lines = vec![vec!["A".to_string()], vec!["B".to_string()], vec!["C".to_string()]];
    let layouts =
        calculate_participant_layouts(&participants, &[px(80); 3], &lines, &[px(130), px(200)]);
    let xs: Vec<i64> = layouts.iter().map(|l| l.center_x).collect();
    assert_eq!(xs, vec![px(60), px(190), px(390)]);
    assert_eq!(layouts[1].name, "B");
    assert_eq!(layouts[1].lines, vec!["B"]);
    assert_eq!(layouts[1].width, px(80));
    assert_eq!(layouts[0].left_edge(), px(20));
}

#[test]
fn missing_widths_lines_and_gaps_have_their_defaults() {
    let participants = vec![actor("A"), actor("B"), actor("C")];
    let layouts = calculate_participant_layouts(&participants, &[px(100)], &[], &[px(150)]);
    let xs: Vec<i64> = layouts.iter().map(|l| l.center_x).collect();
    assert_eq!(xs, vec![px(70), px(220), px(220)]);
    assert_eq!(layouts[0].width, px(100));
    assert_eq!(layouts[1].width, px(80));
    assert_eq!(layouts[2].lines, vec!["C"]);
}

#[test]
fn center_of_a_participant_is_that_of_the_first_with_the_name() {
    let diagram = sequence(&["A", "B", "A"], vec![]);
    let layout = calculate_layout(&diagram, 14);
    assert_eq!(find_participant_center(&layout.participants, "A"), Some(px(60)));
    assert_eq!(find_participant_center(&layout.participants, "B"), Some(px(190)));
    assert_eq!(find_participant_center(&layout.participants, "C"), None);
}

// ---------------------------------------------------------------------
// Whole layouts
// ---------------------------------------------------------------------

#[test]
fn layout_of_two_participants_and_two_messages() {
    let diagram = sequence(
        &["Alice", "Bob"],
        vec![arrow("Alice", "Bob", "Hello Bob!"), arrow("Bob", "Alice", "Hello Alice!")],
    );
    let layout = calculate_layout(&diagram, 14);
    assert_eq!(layout.participants.len(), 2);
    assert_eq!(layout.participants[0].center_x, px(60));
    assert_eq!(layout.participants[1].center_x, px(190));
    assert_eq!(layout.participants[0].width, px(80));
    assert_eq!(layout.participants[1].width, px(80));
    assert_eq!(layout.participant_height, px(40));
    // The cursor starts at 20 + 40 + 50 and moves down 50 per message.
    assert_eq!(layout.bottom_box_y, px(210));
    // The lower right box ends at 230 and at 250.
    assert_eq!(layout.bounds.svg_size(0), (230, 250));
    assert_eq!(layout.bounds.svg_size(PADDING), (250, 270));
}

#[test]
fn layout_of_nothing() {
    let layout = calculate_layout(&sequence(&[], vec![]), 14);
    assert!(layout.participants.is_empty());
    assert_eq!(layout.participant_height, px(40));
    assert_eq!(layout.bottom_box_y, px(110));
    assert_eq!(layout.bounds.svg_size(PADDING), (20, 20));
}

#[test]
fn layout_with_a_label_across_three_participants() {
    let plain = sequence(&["Alice", "Bob", "Charlie"], vec![]);
    assert_eq!(centers(&plain, 14), vec![px(60), px(190), px(320)]);

    let wide = sequence(&["Alice", "Bob", "Charlie"], vec![arrow("Alice", "Charlie", &label(440))]);
    // Both gaps grow from 130 to 240, and the one in the middle moves along.
    assert_eq!(centers(&wide, 14), vec![px(60), px(300), px(540)]);
    let layout = calculate_layout(&wide, 14);
    assert_eq!(layout.bounds.svg_size(PADDING), (600, 220));
}

#[test]
fn layout_with_self_messages() {
    let diagram = sequence(
        &["Alice", "Bob"],
        vec![arrow("Alice", "Alice", "Self call"), arrow("Bob", "Bob", "Internal process")],
    );
    let layout = calculate_layout(&diagram, 14);
    assert_eq!(layout.participants[1].center_x, px(190));
    // Each self-message takes 50 + 40.
    assert_eq!(layout.bottom_box_y, px(110 + 90 + 90));
    // The label of the second starts 50 right of Bob and is 99 wide.
    assert_eq!(text_width("Internal process", 14), px(99) as i128);
    assert_eq!(layout.bounds.svg_size(0), (190 + 50 + 99, 290 + 40));
}

#[test]
fn layout_passes_over_unknown_participants() {
    let with = sequence(
        &["Alice", "Bob"],
        vec![
            arrow("Alice", "Bob", "Hello"),
            arrow("Alice", "Zed", &label(990)),
            arrow("Zed", "Zed", &label(990)),
            arrow("Bob", "Alice", "Bye"),
        ],
    );
    let without = sequence(
        &["Alice", "Bob"],
        vec![arrow("Alice", "Bob", "Hello"), arrow("Bob", "Alice", "Bye")],
    );
    let a = calculate_layout(&with, 14);
    let b = calculate_layout(&without, 14);
    assert_eq!(centers(&with, 14), centers(&without, 14));
    assert_eq!(a.bottom_box_y, b.bottom_box_y);
    assert_eq!(a.bounds.svg_size(PADDING), b.bounds.svg_size(PADDING));
}

#[test]
fn layout_scales_text_with_the_font_size() {
    let diagram = sequence(&["Very Long Participant Name", "B"], vec![]);
    // 173 pixels of text at size 14 are 346 at size 28; the padding stays.
    assert_eq!(calculate_layout(&diagram, 14).participants[0].width, px(193));
    assert_eq!(calculate_layout(&diagram, 28).participants[0].width, px(366));
    assert_eq!(calculate_layout(&diagram, 0).participants[0].width, px(80));
    // At size 15 the text is 173 * 15 / 14 pixels wide: 1730 * 15 tenths
    // of a fourteenth.
    assert_eq!(calculate_layout(&diagram, 15).participants[0].width, 173 * 15 * 10 + px(20));
}

#[test]
fn text_width_is_held_at_a_limit_on_request() {
    assert_eq!(text_width_capped("Hello", 14, px(100)), px(31));
    assert_eq!(text_width_capped("Hello", 14, px(31)), px(31));
    assert_eq!(text_width_capped("Hello", 14, px(30)), px(30));
    assert_eq!(text_width_capped("Hello", 14, 0), 0);
    assert_eq!(text_width_capped("Hello", 0, px(30)), 0);
    assert_eq!(text_width_capped("Hello", u32::MAX, i64::MAX / 4), 310 * (u32::MAX as i64));
    // 200000 glyphs of 11 pixels at the largest font size are beyond any
    // width that is measured.
    let long = "M".repeat(200_000);
    assert_eq!(text_width_capped(&long, u32::MAX, MAX_TEXT_WIDTH), MAX_TEXT_WIDTH);
    assert_eq!(text_width_capped(&long, 14, MAX_TEXT_WIDTH), 200_000 * 1540);
}

#[test]
fn layout_of_many_participants() {
    let names: Vec<String> = (0..5000).map(|i| format!("P{}", i)).collect();
    let names: Vec<&str> = names.iter().map(|s| s.as_str()).collect();
    let layout = calculate_layout(&sequence(&names, vec![]), 14);
    assert_eq!(layout.participants.len(), 5000);
    assert_eq!(layout.participants[4999].center_x, px(60 + 4999 * 130));
    assert_eq!(layout.bounds.svg_size(PADDING), (60 + 4999 * 130 + 40 + 20, 170));
}

#[test]
fn layout_of_many_messages() {
    let messages: Vec<Message> = (0..70_000).map(|_| arrow("A", "B", "x")).collect();
    let layout = calculate_layout(&sequence(&["A", "B"], messages), 14);
    assert_eq!(layout.bottom_box_y, px(110 + 70_000 * 50));
}

#[test]
fn layout_holds_positions_at_its_limit() {
    // Labels of the largest measured width push the participants apart
    // until they stand at the limit.
    let long = "M".repeat(200_000);
    let names = ["A", "B", "C", "D", "E", "F"];
    let messages: Vec<Message> = (0..5).map(|i| arrow(names[i], names[i + 1], &long)).collect();
    let layout = calculate_layout(&sequence(&names, messages), u32::MAX);
    let xs: Vec<i64> = layout.participants.iter().map(|p| p.center_x).collect();
    let width = text_width_capped("A", u32::MAX, MAX_TEXT_WIDTH) + px(20);
    assert_eq!(layout.participants[0].width, width);
    assert_eq!(xs[0], px(20) + width / 2);
    assert_eq!(xs[1], xs[0] + MAX_TEXT_WIDTH + MESSAGE_TEXT_MARGIN);
    assert_eq!(xs[3], xs[0] + 3 * (MAX_TEXT_WIDTH + MESSAGE_TEXT_MARGIN));
    assert_eq!(xs[4], LAYOUT_LIMIT);
    assert_eq!(xs[5], LAYOUT_LIMIT);
    assert!(xs.windows(2).all(|pair| pair[0] <= pair[1]));
}

#[test]
fn names_keep_every_line() {
    let count = 1_048_581;
    let many = "a<br>".repeat(count);
    let lines = get_participant_lines(&shown_as("A", &many));
    assert_eq!(lines.len(), count);
    assert_eq!(calculate_participant_height(count), px(count as i64 * 18 + 16));
    let diagram = SequenceDiagram { participants: vec![shown_as("A", &many)], statements: vec![] };
    let layout = calculate_layout(&diagram, 14);
    assert_eq!(layout.participants[0].lines.len(), count);
    assert_eq!(layout.participant_height, px(count as i64 * 18 + 16));
}

#[test]
fn box_height_is_held_at_its_limit() {
    assert_eq!(calculate_participant_height(usize::MAX), MAX_BOX_HEIGHT);
    assert_eq!(calculate_participant_height(1 << 45), px((1i64 << 45) * 18 + 16));
}

// ---------------------------------------------------------------------
// The table of arrows
// ---------------------------------------------------------------------

#[test]
fn every_kind_of_arrow_has_its_styles() {
    let table = [
        (ArrowType::SolidOpen, LineStyle::Solid, EndStyle::Bare, EndStyle::Bare),
        (ArrowType::SolidClosed, LineStyle::Solid, EndStyle::Bare, EndStyle::Closed),
        (ArrowType::Cross, LineStyle::Solid, EndStyle::Bare, EndStyle::Cross),
        (ArrowType::Point, LineStyle::Solid, EndStyle::Bare, EndStyle::Open),
        (ArrowType::BiDirectionalSolid, LineStyle::Solid, EndStyle::Closed, EndStyle::Closed),
        (ArrowType::DottedOpen, LineStyle::Dotted, EndStyle::Bare, EndStyle::Bare),
        (ArrowType::DottedClosed, LineStyle::Dotted, EndStyle::Bare, EndStyle::Closed),
        (ArrowType::BiDirectionalDotted, LineStyle::Dotted, EndStyle::Closed, EndStyle::Closed),
    ];
    for (kind, line, start, end) in table {
        assert_eq!(arrow_type_to_styles(&kind), (line, start, end));
        assert_eq!(is_dotted_arrow(&kind), line == LineStyle::Dotted);
    }
}

// ---------------------------------------------------------------------
// Whole documents
// ---------------------------------------------------------------------

#[test]
fn document_of_one_participant_is_exact() {
    let svg = render_sequence(&sequence(&["A"], vec![]), &RenderOptions::default()).unwrap();
    let expected = [
        "<svg xmlns=\"http://www.w3.org/2000/svg\" width=\"120\" height=\"170\" viewBox=\"0 0 120 170\">",
        "  <rect width=\"100%\" height=\"100%\" fill=\"#ffffff\"/>",
        "  <rect x=\"20\" y=\"20\" width=\"80\" height=\"40\" fill=\"#ecf0f1\" stroke=\"#333333\" stroke-width=\"1\" rx=\"4\"/>",
        "  <text x=\"60\" y=\"45\" fill=\"#333333\" font-size=\"14\" font-family=\"Arial, sans-serif\" text-anchor=\"middle\">A</text>",
        "  <line x1=\"60\" y1=\"60\" x2=\"60\" y2=\"110\" stroke=\"#333333\" stroke-width=\"1\"/>",
        "  <rect x=\"20\" y=\"110\" width=\"80\" height=\"40\" fill=\"#ecf0f1\" stroke=\"#333333\" stroke-width=\"1\" rx=\"4\"/>",
        "  <text x=\"60\" y=\"135\" fill=\"#333333\" font-size=\"14\" font-family=\"Arial, sans-serif\" text-anchor=\"middle\">A</text>",
        "</svg>",
    ]
    .join("\n");
    assert_eq!(svg, expected);
}

#[test]
fn document_of_two_participants_and_a_message_is_exact() {
    let diagram = sequence(&["Alice", "Bob"], vec![arrow("Alice", "Bob", "Hello Bob!")]);
    let options = RenderOptions::with_theme(Theme::Dark).transparent();
    let svg = render_sequence(&diagram, &options).unwrap();
    let expected = [
        "<svg xmlns=\"http://www.w3.org/2000/svg\" width=\"250\" height=\"220\" viewBox=\"0 0 250 220\">",
        "  <rect x=\"20\" y=\"20\" width=\"80\" height=\"40\" fill=\"#16213e\" stroke=\"#eaeaea\" stroke-width=\"1\" rx=\"4\"/>",
        "  <text x=\"60\" y=\"45\" fill=\"#eaeaea\" font-size=\"14\" font-family=\"Arial, sans-serif\" text-anchor=\"middle\">Alice</text>",
        "  <line x1=\"60\" y1=\"60\" x2=\"60\" y2=\"160\" stroke=\"#eaeaea\" stroke-width=\"1\"/>",
        "  <rect x=\"20\" y=\"160\" width=\"80\" height=\"40\" fill=\"#16213e\" stroke=\"#eaeaea\" stroke-width=\"1\" rx=\"4\"/>",
        "  <text x=\"60\" y=\"185\" fill=\"#eaeaea\" font-size=\"14\" font-family=\"Arial, sans-serif\" text-anchor=\"middle\">Alice</text>",
        "  <rect x=\"150\" y=\"20\" width=\"80\" height=\"40\" fill=\"#16213e\" stroke=\"#eaeaea\" stroke-width=\"1\" rx=\"4\"/>",
        "  <text x=\"190\" y=\"45\" fill=\"#eaeaea\" font-size=\"14\" font-family=\"Arial, sans-serif\" text-anchor=\"middle\">Bob</text>",
        "  <line x1=\"190\" y1=\"60\" x2=\"190\" y2=\"160\" stroke=\"#eaeaea\" stroke-width=\"1\"/>",
        "  <rect x=\"150\" y=\"160\" width=\"80\" height=\"40\" fill=\"#16213e\" stroke=\"#eaeaea\" stroke-width=\"1\" rx=\"4\"/>",
        "  <text x=\"190\" y=\"185\" fill=\"#eaeaea\" font-size=\"14\" font-family=\"Arial, sans-serif\" text-anchor=\"middle\">Bob</text>",
        "  <line x1=\"60\" y1=\"110\" x2=\"190\" y2=\"110\" stroke=\"#eaeaea\" stroke-width=\"1\"/>",
        "<polygon points=\"190,110 181.221,114.793 181.221,105.207\" fill=\"#eaeaea\"/>",
        "  <text x=\"125\" y=\"100\" fill=\"#eaeaea\" font-size=\"14\" font-family=\"Arial, sans-serif\" text-anchor=\"middle\">Hello Bob!</text>",
        "</svg>",
    ]
    .join("\n");
    assert_eq!(svg, expected);
}

#[test]
fn document_of_a_self_message_is_exact_where_it_draws_it() {
    let diagram = sequence(
        &["Alice"],
        vec![Message {
            from: "Alice".to_string(),
            to: "Alice".to_string(),
            text: "think".to_string(),
            arrow_type: ArrowType::DottedClosed,
        }],
    );
    let svg = render_sequence(&diagram, &RenderOptions::default()).unwrap();
    assert!(svg.contains(
        "\n  <path d=\"M 60 110 Q 100 110 100 125 Q 100 140 60 140\" fill=\"none\" stroke=\"#333333\" stroke-width=\"1\" stroke-dasharray=\"5,5\"/>\n<polygon points=\"60,140 68,135 68,145\" fill=\"#333333\"/>\n  <text x=\"110\" y=\"130\" fill=\"#333333\" font-size=\"14\" font-family=\"Arial, sans-serif\" text-anchor=\"start\">think</text>\n</svg>"
    ));
    // The lower box stands where the cursor ends: 110 + 50 + 40.
    assert!(svg.contains("<rect x=\"20\" y=\"200\" width=\"80\" height=\"40\""));
}

#[test]
fn document_of_multiline_names() {
    let diagram = SequenceDiagram {
        participants: vec![shown_as("A", "Client<br>Browser"), actor("B")],
        statements: vec![],
    };
    let svg = render_sequence(&diagram, &RenderOptions::default()).unwrap();
    // Boxes of two lines are 52 tall; the block of lines is centred on 46
    // and on 136.9 - 4.9 + 9 in the lower box.
    assert!(svg.contains("<rect x=\"20\" y=\"20\" width=\"80\" height=\"52\""));
    assert!(svg.contains("<text x=\"60\" y=\"41.9\" fill=\"#333333\" font-size=\"14\" font-family=\"Arial, sans-serif\" text-anchor=\"middle\">Client</text>\n<text x=\"60\" y=\"59.9\""));
    // A name of one line in a box of two: centred on 46, baseline 5 lower.
    assert!(svg.contains("<text x=\"190\" y=\"51\" fill=\"#333333\" font-size=\"14\" font-family=\"Arial, sans-serif\" text-anchor=\"middle\">B</text>"));
}

#[test]
fn document_has_no_shape_for_an_unknown_participant() {
    let diagram = sequence(
        &["Alice", "Bob"],
        vec![arrow("Alice", "Bob", "Hello"), arrow("Alice", "Zed", "Where are you?")],
    );
    let only_known = sequence(&["Alice", "Bob"], vec![arrow("Alice", "Bob", "Hello")]);
    let options = RenderOptions::default();
    let svg = render_sequence(&diagram, &options).unwrap();
    assert!(!svg.contains("Zed"));
    assert!(!svg.contains("Where are you?"));
    assert_eq!(svg, render_sequence(&only_known, &options).unwrap());
}

#[test]
fn document_of_two_participants_is_larger_than_their_boxes() {
    let diagram = sequence(&["Alice", "Bob"], vec![arrow("Alice", "Bob", "Hello Bob!")]);
    let svg = render_sequence(&diagram, &RenderOptions::default()).unwrap();
    assert!(svg.contains("Alice"));
    assert!(svg.contains("Bob"));
    assert!(svg.contains("Hello Bob!"));
    assert!(svg.contains("<polygon points="));
    let number = |name: &str| -> u32 {
        let at = svg.find(&format!(" {}=\"", name)).unwrap() + name.len() + 3;
        svg[at..].split('"').next().unwrap().parse().unwrap()
    };
    // Two boxes of the minimum size side by side with the minimum spacing
    // are 210 wide, and two rows of them are 80 tall.
    assert!(number("width") > 80 + 50 + 80);
    assert!(number("height") > 40 + 40);
    assert_eq!((number("width"), number("height")), (250, 220));
}

#[test]
fn document_has_one_background_or_none() {
    let diagram = sequence(&["Alice", "Bob"], vec![arrow("Alice", "Bob", "Hello")]);
    for theme in [Theme::Light, Theme::Dark] {
        let solid = render_sequence(&diagram, &RenderOptions::with_theme(theme)).unwrap();
        let clear = render_sequence(&diagram, &RenderOptions::with_theme(theme).transparent()).unwrap();
        let color = RenderOptions::with_theme(theme).colors().background;
        let rect = format!("<rect width=\"100%\" height=\"100%\" fill=\"{}\"/>", color);
        assert_eq!(solid.matches("<rect width=\"100%\"").count(), 1);
        assert_eq!(solid.matches(&rect).count(), 1);
        assert_eq!(clear.matches("<rect width=\"100%\"").count(), 0);
        // Nothing else differs.
        assert_eq!(solid.replacen(&format!("{}\n  ", rect), "", 1), clear);
    }
}
