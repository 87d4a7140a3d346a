//! Whole diagrams, rendered.
//!
//! Each diagram is written out as a parser would hand it over: the
//! participants that the source declares, then every other sender and
//! receiver in the order in which the messages first name them.

use mermaid_svg_render::sequence::diagram::{ArrowType, Message, Participant, SequenceDiagram};
use mermaid_svg_render::{
    render_sequence_diagram, DiagramType, RenderError, RenderOptions, RenderResult, Theme,
};

/// A participant without an alias.
fn participant(actor: &str) -> Participant {
    Participant { actor: actor.to_string(), alias: None }
}

/// A participant that is shown as `alias`.
fn aliased(actor: &str, alias: &str) -> Participant {
    Participant { actor: actor.to_string(), alias: Some(alias.to_string()) }
}

/// A message.
fn message(from: &str, arrow_type: ArrowType, to: &str, text: &str) -> Message {
    Message { from: from.to_string(), to: to.to_string(), text: text.to_string(), arrow_type }
}

/// The diagram with the participants `declared` and those that `messages`
/// name besides them.
fn diagram(declared: Vec<Participant>, messages: Vec<Message>) -> SequenceDiagram {
    let mut participants = declared;
    for m in &messages {
        for name in [&m.from, &m.to] {
            if !participants.iter().any(|p| &p.actor == name) {
                participants.push(participant(name));
            }
        }
    }
    SequenceDiagram { participants, statements: messages }
}

/// Renders a sequence diagram.
fn render_diagram(diagram: SequenceDiagram, options: &RenderOptions) -> RenderResult<String> {
    render_sequence_diagram(Ok(DiagramType::Sequence(diagram)), options)
}

/// Alice->>Bob: Hello Bob! / Bob-->>Alice: Hello Alice!
fn hello_diagram() -> SequenceDiagram {
    diagram(
        vec![],
        vec![
            message("Alice", ArrowType::SolidClosed, "Bob", "Hello Bob!"),
            message("Bob", ArrowType::DottedClosed, "Alice", "Hello Alice!"),
        ],
    )
}

/// Alice->>Bob: Hello
fn short_diagram() -> SequenceDiagram {
    diagram(vec![], vec![message("Alice", ArrowType::SolidClosed, "Bob", "Hello")])
}

/// Alice->>Alice: Self call / Bob->>Bob: Internal process
fn self_message_diagram() -> SequenceDiagram {
    diagram(
        vec![],
        vec![
            message("Alice", ArrowType::SolidClosed, "Alice", "Self call"),
            message("Bob", ArrowType::SolidClosed, "Bob", "Internal process"),
        ],
    )
}

/// Two participants and one arrow of each kind that the notation has.
fn all_arrow_types_diagram() -> SequenceDiagram {
    diagram(
        vec![participant("A"), participant("B")],
        vec![
            message("A", ArrowType::SolidClosed, "B", "Solid with arrowhead"),
            message("B", ArrowType::DottedClosed, "A", "Dotted with arrowhead"),
            message("A", ArrowType::SolidOpen, "B", "Solid without arrowhead"),
            message("B", ArrowType::DottedOpen, "A", "Dotted without arrowhead"),
            message("A", ArrowType::Cross, "B", "Solid with cross"),
            message("A", ArrowType::Point, "B", "Solid async (open arrow)"),
        ],
    )
}

/// Five services and ten messages between them.
fn many_participants_diagram() -> SequenceDiagram {
    diagram(
        vec![
            participant("Client"),
            participant("Gateway"),
            participant("AuthService"),
            participant("UserService"),
            participant("Database"),
        ],
        vec![
            message("Client", ArrowType::SolidClosed, "Gateway", "Request"),
            message("Gateway", ArrowType::SolidClosed, "AuthService", "Validate Token"),
            message("AuthService", ArrowType::SolidClosed, "Database", "Check User"),
            message("Database", ArrowType::DottedClosed, "AuthService", "User Data"),
            message("AuthService", ArrowType::DottedClosed, "Gateway", "Valid"),
            message("Gateway", ArrowType::SolidClosed, "UserService", "Get Profile"),
            message("UserService", ArrowType::SolidClosed, "Database", "Query"),
            message("Database", ArrowType::DottedClosed, "UserService", "Profile Data"),
            message("UserService", ArrowType::DottedClosed, "Gateway", "Profile"),
            message("Gateway", ArrowType::DottedClosed, "Client", "Response"),
        ],
    )
}

/// Two participants whose aliases take two lines each.
fn multiline_names_diagram() -> SequenceDiagram {
    diagram(
        vec![aliased("A", "Client<br>Browser"), aliased("B", "Backend<br/>Server")],
        vec![
            message("A", ArrowType::SolidClosed, "B", "HTTP Request"),
            message("B", ArrowType::DottedClosed, "A", "JSON Response"),
        ],
    )
}

// ============================================
// Basic Functionality Tests
// ============================================

#[test]
fn test_render_simple_sequence() {
    let options = RenderOptions::default();
    let result = render_diagram(hello_diagram(), &options);
    assert!(result.is_ok());
    let svg = result.unwrap();
    assert!(svg.contains("<svg"));
    assert!(svg.contains("Alice"));
    assert!(svg.contains("Bob"));
}

#[test]
fn test_dark_theme() {
    let d = diagram(vec![], vec![message("A", ArrowType::SolidClosed, "B", "Test")]);
    let options = RenderOptions::with_theme(Theme::Dark);
    let result = render_diagram(d, &options);
    assert!(result.is_ok());
}

#[test]
fn test_two_participants_light() {
    let options = RenderOptions::with_theme(Theme::Light);
    let svg = render_diagram(hello_diagram(), &options).unwrap();

    assert!(svg.contains("<svg"));
    assert!(svg.contains("Alice"));
    assert!(svg.contains("Bob"));
    assert!(svg.contains("Hello Bob!"));
}

#[test]
fn test_two_participants_dark() {
    let options = RenderOptions::with_theme(Theme::Dark);
    let svg = render_diagram(hello_diagram(), &options).unwrap();

    assert!(svg.contains("<svg"));
    assert!(svg.contains("#1a1a2e")); // dark background
}

#[test]
fn test_single_participant() {
    let d = diagram(vec![participant("Alice")], vec![]);
    let options = RenderOptions::default();
    let svg = render_diagram(d, &options).unwrap();

    assert!(svg.contains("<svg"));
    assert!(svg.contains("Alice"));
}

#[test]
fn test_multiple_messages() {
    let d = diagram(
        vec![],
        vec![
            message("Alice", ArrowType::SolidClosed, "Bob", "Message 1"),
            message("Bob", ArrowType::SolidClosed, "Charlie", "Message 2"),
            message("Charlie", ArrowType::SolidClosed, "Alice", "Message 3"),
            message("Alice", ArrowType::SolidClosed, "Charlie", "Message 4"),
            message("Charlie", ArrowType::DottedClosed, "Bob", "Message 5"),
        ],
    );
    let options = RenderOptions::default();
    let svg = render_diagram(d, &options).unwrap();

    assert!(svg.contains("Alice"));
    assert!(svg.contains("Bob"));
    assert!(svg.contains("Charlie"));
    assert!(svg.contains("Message 1"));
    assert!(svg.contains("Message 5"));
}

#[test]
fn test_dotted_arrow() {
    let d = diagram(vec![], vec![message("Alice", ArrowType::DottedClosed, "Bob", "Dotted response")]);
    let options = RenderOptions::default();
    let svg = render_diagram(d, &options).unwrap();

    assert!(svg.contains("stroke-dasharray")); // dotted line
}

// ============================================
// SVG Output Validation Tests
// ============================================

#[test]
fn test_svg_structure() {
    let d = diagram(vec![], vec![message("Alice", ArrowType::SolidClosed, "Bob", "Test")]);
    let svg = render_diagram(d, &RenderOptions::default()).unwrap();

    // Validate SVG structure
    assert!(svg.starts_with("<svg"));
    assert!(svg.ends_with("</svg>"));
    assert!(svg.contains("xmlns=\"http://www.w3.org/2000/svg\""));
    assert!(svg.contains("<rect")); // participant boxes
    assert!(svg.contains("<line")); // lifelines
    assert!(svg.contains("<text")); // labels
}

// ============================================
// Arrow Type Tests
// ============================================

#[test]
fn test_all_arrow_types() {
    let options = RenderOptions::default();
    let svg = render_diagram(all_arrow_types_diagram(), &options).unwrap();

    assert!(svg.contains("<svg"));
    assert!(svg.contains("Solid with arrowhead"));
    assert!(svg.contains("Dotted with arrowhead"));
}

#[test]
fn test_solid_closed_arrow() {
    let d = diagram(vec![], vec![message("A", ArrowType::SolidClosed, "B", "Solid closed arrow")]);
    let svg = render_diagram(d, &RenderOptions::default()).unwrap();

    // Should have arrow polygon (filled arrowhead)
    assert!(svg.contains("<polygon"));
    assert!(svg.contains("Solid closed arrow"));
}

#[test]
fn test_dotted_closed_arrow() {
    let d = diagram(vec![], vec![message("A", ArrowType::DottedClosed, "B", "Dotted closed arrow")]);
    let svg = render_diagram(d, &RenderOptions::default()).unwrap();

    // Should have arrow polygon
    assert!(svg.contains("<polygon"));
    // Should be dashed
    assert!(svg.contains("stroke-dasharray"));
}

#[test]
fn test_solid_open_arrow() {
    let d = diagram(
        vec![],
        vec![message("A", ArrowType::SolidOpen, "B", "Solid open (no arrowhead)")],
    );
    let svg = render_diagram(d, &RenderOptions::default()).unwrap();

    assert!(svg.contains("Solid open"));
}

#[test]
fn test_dotted_open_arrow() {
    let d = diagram(
        vec![],
        vec![message("A", ArrowType::DottedOpen, "B", "Dotted open (no arrowhead)")],
    );
    let svg = render_diagram(d, &RenderOptions::default()).unwrap();

    assert!(svg.contains("Dotted open"));
}

#[test]
fn test_cross_arrow() {
    let d = diagram(vec![], vec![message("A", ArrowType::Cross, "B", "Solid with cross")]);
    let svg = render_diagram(d, &RenderOptions::default()).unwrap();

    assert!(svg.contains("Solid with cross"));
}

#[test]
fn test_async_arrow() {
    let d = diagram(vec![], vec![message("A", ArrowType::Point, "B", "Solid async")]);
    let svg = render_diagram(d, &RenderOptions::default()).unwrap();

    assert!(svg.contains("Solid async"));
}

#[test]
fn test_bidirectional_solid_arrow() {
    let d = diagram(
        vec![],
        vec![message("A", ArrowType::BiDirectionalSolid, "B", "Bidirectional solid")],
    );
    let svg = render_diagram(d, &RenderOptions::default()).unwrap();

    assert!(svg.contains("Bidirectional solid"));
    // Should have two arrowheads (polygons)
    let polygon_count = svg.matches("<polygon").count();
    assert!(
        polygon_count >= 2,
        "Bidirectional arrow should have 2 arrowheads, found {}",
        polygon_count
    );
}

#[test]
fn test_bidirectional_dotted_arrow() {
    let d = diagram(
        vec![],
        vec![message("A", ArrowType::BiDirectionalDotted, "B", "Bidirectional dotted")],
    );
    let svg = render_diagram(d, &RenderOptions::default()).unwrap();

    assert!(svg.contains("Bidirectional dotted"));
    assert!(svg.contains("stroke-dasharray")); // dotted line
}

// ============================================
// Self-Message Tests
// ============================================

#[test]
fn test_self_message() {
    let svg = render_diagram(self_message_diagram(), &RenderOptions::default()).unwrap();

    assert!(svg.contains("Self call"));
    assert!(svg.contains("Internal process"));
}

// ============================================
// Complex Diagram Tests
// ============================================

#[test]
fn test_many_participants() {
    let svg = render_diagram(many_participants_diagram(), &RenderOptions::default()).unwrap();

    assert!(svg.contains("Client"));
    assert!(svg.contains("Gateway"));
    assert!(svg.contains("AuthService"));
    assert!(svg.contains("UserService"));
    assert!(svg.contains("Database"));
}

#[test]
fn test_participant_aliases() {
    let d = diagram(
        vec![
            aliased("C", "Client Browser"),
            aliased("S", "Backend Server"),
            aliased("D", "PostgreSQL DB"),
        ],
        vec![
            message("C", ArrowType::SolidClosed, "S", "HTTP Request"),
            message("S", ArrowType::SolidClosed, "D", "SQL Query"),
            message("D", ArrowType::DottedClosed, "S", "Result Set"),
            message("S", ArrowType::DottedClosed, "C", "JSON Response"),
        ],
    );
    let svg = render_diagram(d, &RenderOptions::default()).unwrap();

    // Should show aliases, not actor names
    assert!(svg.contains("Client Browser"));
    assert!(svg.contains("Backend Server"));
    assert!(svg.contains("PostgreSQL DB"));
}

#[test]
fn test_special_characters() {
    let d = diagram(
        vec![],
        vec![
            message("A", ArrowType::SolidClosed, "B", "Hello <World> & \"Quotes\""),
            message("B", ArrowType::DottedClosed, "A", "Response with 'apostrophe'"),
        ],
    );
    let svg = render_diagram(d, &RenderOptions::default()).unwrap();

    // Special chars should be escaped
    assert!(svg.contains("&lt;World&gt;")); // < and > escaped
    assert!(svg.contains("&amp;")); // & escaped
}

// ============================================
// Dynamic Spacing Tests
// ============================================

#[test]
fn test_long_message_expands_gap() {
    let d = diagram(
        vec![],
        vec![message(
            "Alice",
            ArrowType::SolidClosed,
            "Bob",
            "This is a very long message that should expand the gap between participants",
        )],
    );
    let svg = render_diagram(d, &RenderOptions::default()).unwrap();

    assert!(svg.contains("Alice"));
    assert!(svg.contains("Bob"));
    assert!(svg.contains("This is a very long message"));

    // The SVG width should be larger than default (290 for 2 participants)
    // Extract width from SVG
    let width: u32 = svg
        .split("width=\"")
        .nth(1)
        .and_then(|s| s.split('"').next())
        .and_then(|s| s.parse().ok())
        .unwrap_or(0);

    assert!(
        width > 290,
        "Expected width > 290 for long message, got {}",
        width
    );
}

#[test]
fn test_non_adjacent_long_message() {
    let d = diagram(
        vec![participant("Alice"), participant("Bob"), participant("Charlie")],
        vec![message(
            "Alice",
            ArrowType::SolidClosed,
            "Charlie",
            "This message spans Bob and should expand both gaps",
        )],
    );
    let svg = render_diagram(d, &RenderOptions::default()).unwrap();

    assert!(svg.contains("Alice"));
    assert!(svg.contains("Bob"));
    assert!(svg.contains("Charlie"));
    assert!(svg.contains("This message spans Bob"));
}

#[test]
fn test_mixed_message_lengths() {
    let d = diagram(
        vec![participant("A"), participant("B"), participant("C")],
        vec![
            message("A", ArrowType::SolidClosed, "B", "Short"),
            message(
                "B",
                ArrowType::SolidClosed,
                "C",
                "This is a much longer message that needs more space",
            ),
            message("C", ArrowType::SolidClosed, "A", "Hi"),
        ],
    );
    let svg = render_diagram(d, &RenderOptions::default()).unwrap();

    assert!(svg.contains("Short"));
    assert!(svg.contains("This is a much longer message"));
    assert!(svg.contains("Hi"));
}

// ============================================
// Multi-line Participant Name Tests
// ============================================

#[test]
fn test_multiline_participant_names() {
    let svg = render_diagram(multiline_names_diagram(), &RenderOptions::default()).unwrap();

    // Should contain both lines of each participant name
    assert!(svg.contains("Client"));
    assert!(svg.contains("Browser"));
    assert!(svg.contains("Backend"));
    assert!(svg.contains("Server"));
    // Should NOT contain the raw <br> tags
    assert!(!svg.contains("<br>"));
    assert!(!svg.contains("<br/>"));
}

#[test]
fn test_mixed_single_and_multiline_participants() {
    let d = diagram(
        vec![
            aliased("A", "Alice"),
            aliased("B", "Backend<br>API<br>Server"),
            aliased("C", "Charlie"),
        ],
        vec![
            message("A", ArrowType::SolidClosed, "B", "Request"),
            message("B", ArrowType::SolidClosed, "C", "Forward"),
            message("C", ArrowType::DottedClosed, "B", "Response"),
            message("B", ArrowType::DottedClosed, "A", "Forward"),
        ],
    );
    let svg = render_diagram(d, &RenderOptions::default()).unwrap();

    // Single line participant
    assert!(svg.contains("Alice"));
    // Multi-line participant (3 lines)
    assert!(svg.contains("Backend"));
    assert!(svg.contains("API"));
    assert!(svg.contains("Server"));
    // Single line participant
    assert!(svg.contains("Charlie"));
}

#[test]
fn test_uniform_participant_box_width() {
    let d = diagram(
        vec![
            aliased("A", "Short"),
            aliased("B", "Very Long Participant Name"),
            aliased("C", "Med"),
        ],
        vec![
            message("A", ArrowType::SolidClosed, "B", "Request"),
            message("B", ArrowType::SolidClosed, "C", "Forward"),
        ],
    );
    let svg = render_diagram(d, &RenderOptions::default()).unwrap();

    // All participant boxes should have the same width (based on longest name)
    // Extract all rect widths
    let width_pattern = regex::Regex::new(r#"<rect[^>]+width="(\d+)"[^>]+height="(\d+)""#).unwrap();
    let widths: Vec<u32> = width_pattern
        .captures_iter(&svg)
        .filter_map(|cap| cap.get(1).and_then(|m| m.as_str().parse().ok()))
        .collect();

    // Should have 6 participant boxes (3 top + 3 bottom)
    assert_eq!(widths.len(), 6, "Expected 6 participant boxes");

    // All widths should be the same
    let first_width = widths[0];
    for w in &widths {
        assert_eq!(
            *w, first_width,
            "All participant boxes should have uniform width"
        );
    }

    // Width should be larger than minimum (80) because of "Very Long Participant Name"
    assert!(
        first_width > 80,
        "Width should be > 80 for long name, got {}",
        first_width
    );
}

// ============================================
// Transparent Background Tests
// ============================================

#[test]
fn test_transparent_background() {
    let options = RenderOptions::default().transparent();
    let svg = render_diagram(short_diagram(), &options).unwrap();

    // Should NOT contain background rect
    assert!(
        !svg.contains(r#"<rect width="100%" height="100%""#),
        "Transparent SVG should not contain background rect"
    );
    // Should still be valid SVG
    assert!(svg.contains("<svg"));
    assert!(svg.contains("</svg>"));
}

#[test]
fn test_solid_background_default() {
    let options = RenderOptions::default();
    let svg = render_diagram(short_diagram(), &options).unwrap();

    // Should contain background rect with light theme color
    assert!(
        svg.contains(r##"<rect width="100%" height="100%" fill="#ffffff""##),
        "Default SVG should contain white background rect"
    );
}

#[test]
fn test_solid_background_dark() {
    let options = RenderOptions::with_theme(Theme::Dark);
    let svg = render_diagram(short_diagram(), &options).unwrap();

    // Should contain background rect with dark theme color
    assert!(
        svg.contains(r##"<rect width="100%" height="100%" fill="#1a1a2e""##),
        "Dark SVG should contain dark background rect"
    );
}

#[test]
fn test_transparent_background_dark() {
    let options = RenderOptions::with_theme(Theme::Dark).transparent();
    let svg = render_diagram(short_diagram(), &options).unwrap();

    // Should NOT contain background rect
    assert!(
        !svg.contains(r#"<rect width="100%" height="100%""#),
        "Transparent dark SVG should not contain background rect"
    );
    // Should still have dark theme colors for elements
    assert!(svg.contains("#eaeaea")); // dark theme text/line color
}

// ============================================
// Dark Theme Feature Tests
// ============================================

#[test]
fn test_self_message_dark() {
    let options = RenderOptions::with_theme(Theme::Dark);
    let svg = render_diagram(self_message_diagram(), &options).unwrap();

    assert!(svg.contains("Self call"));
    assert!(svg.contains("Internal process"));
    assert!(svg.contains("#1a1a2e")); // dark background
}

#[test]
fn test_multiline_participant_names_dark() {
    let options = RenderOptions::with_theme(Theme::Dark);
    let svg = render_diagram(multiline_names_diagram(), &options).unwrap();

    // Should contain both lines of each participant name
    assert!(svg.contains("Client"));
    assert!(svg.contains("Browser"));
    assert!(svg.contains("Backend"));
    assert!(svg.contains("Server"));
    // Should have dark theme colors
    assert!(svg.contains("#1a1a2e")); // dark background
    assert!(svg.contains("#16213e")); // dark participant bg
}

#[test]
fn test_all_arrow_types_dark() {
    let options = RenderOptions::with_theme(Theme::Dark);
    let svg = render_diagram(all_arrow_types_diagram(), &options).unwrap();

    assert!(svg.contains("<svg"));
    assert!(svg.contains("Solid with arrowhead"));
    assert!(svg.contains("Dotted with arrowhead"));
    assert!(svg.contains("#1a1a2e")); // dark background
}

#[test]
fn test_many_participants_dark() {
    let options = RenderOptions::with_theme(Theme::Dark);
    let svg = render_diagram(many_participants_diagram(), &options).unwrap();

    assert!(svg.contains("Client"));
    assert!(svg.contains("Gateway"));
    assert!(svg.contains("Database"));
    assert!(svg.contains("#1a1a2e")); // dark background
}

// ============================================
// Unicode and International Character Tests
// ============================================

#[test]
fn test_unicode_participant_names() {
    let d = diagram(
        vec![aliased("ç”¨æˆ·", "ç”¨æˆ·"), aliased("ã‚µãƒ¼ãƒãƒ¼", "ã‚µãƒ¼ãƒãƒ¼")],
        vec![
            message("ç”¨æˆ·", ArrowType::SolidClosed, "ã‚µãƒ¼ãƒãƒ¼", "ã“ã‚“ã«ã¡ã¯"),
            message("ã‚µãƒ¼ãƒãƒ¼", ArrowType::DottedClosed, "ç”¨æˆ·", "ä½ å¥½"),
        ],
    );
    let svg = render_diagram(d, &RenderOptions::default()).unwrap();

    assert!(svg.contains("ç”¨æˆ·"));
    assert!(svg.contains("ã‚µãƒ¼ãƒãƒ¼"));
    assert!(svg.contains("ã“ã‚“ã«ã¡ã¯"));
    assert!(svg.contains("ä½ å¥½"));
}

#[test]
fn test_emoji_in_messages() {
    let d = diagram(
        vec![],
        vec![
            message("Alice", ArrowType::SolidClosed, "Bob", "Hello! ðŸ‘‹"),
            message("Bob", ArrowType::DottedClosed, "Alice", "Hi there! ðŸ˜Š"),
        ],
    );
    let svg = render_diagram(d, &RenderOptions::default()).unwrap();

    assert!(svg.contains("ðŸ‘‹"));
    assert!(svg.contains("ðŸ˜Š"));
}

// ============================================
// Error Handling Tests
// ============================================

#[test]
fn test_invalid_diagram_type() {
    // A flowchart: parsed, but no sequence diagram.
    let result = render_sequence_diagram(Ok(DiagramType::Other), &RenderOptions::default());

    assert!(result.is_err());
}

#[test]
fn test_empty_input() {
    // An empty source text: the parser finds no diagram in it.
    let result = render_sequence_diagram(
        Err("expected a diagram".to_string()),
        &RenderOptions::default(),
    );

    assert!(result.is_err());
}

#[test]
fn test_invalid_syntax() {
    // A lenient parser passes over lines that it does not know and hands
    // over an empty diagram.
    let result = render_diagram(diagram(vec![], vec![]), &RenderOptions::default());

    assert!(result.is_ok());
    let svg = result.unwrap();
    assert!(svg.contains("<svg"));
}

// ============================================
// The three kinds of error
// ============================================

#[test]
fn parse_error_is_passed_on_in_its_own_words() {
    let result = render_sequence_diagram(
        Err("line 3: unexpected token".to_string()),
        &RenderOptions::default(),
    );
    assert_eq!(result, Err(RenderError::ParseError("line 3: unexpected token".to_string())));
    assert_eq!(result.unwrap_err().to_string(), "Parse error: line 3: unexpected token");
}

#[test]
fn other_diagram_is_unsupported() {
    let result = render_sequence_diagram(Ok(DiagramType::Other), &RenderOptions::default());
    assert_eq!(
        result,
        Err(RenderError::UnsupportedDiagram("Expected a sequence diagram".to_string()))
    );
    assert_eq!(
        result.unwrap_err().to_string(),
        "Unsupported diagram: Expected a sequence diagram"
    );
}

#[test]
fn large_diagrams_are_rendered_too() {
    let crowd: Vec<Participant> = (0..5000).map(|i| participant(&format!("P{}", i))).collect();
    let svg = render_diagram(diagram(crowd, vec![]), &RenderOptions::default()).unwrap();
    assert!(svg.starts_with("<svg"));
    assert!(svg.ends_with("</svg>"));
    assert!(svg.contains(">P4999</text>"));
    // The last of 5000 centres, 130 apart, half a box and the padding.
    assert!(svg.contains(" width=\"649990\" "));

    let mut options = RenderOptions::default();
    options.font_size = u32::MAX;
    let svg = render_diagram(hello_diagram(), &options).unwrap();
    assert!(svg.contains("font-size=\"4294967295\""));
    assert!(svg.contains(">Hello Bob!</text>"));
}

#[test]
fn a_message_that_is_passed_over_decides_nothing() {
    // However long its label: it is never measured.
    let lost = message("Alice", ArrowType::SolidClosed, "Nobody", &"M".repeat(200_000));
    let mut with = hello_diagram();
    with.statements.insert(1, lost);
    let mut options = RenderOptions::default();
    options.font_size = u32::MAX;
    assert_eq!(
        render_diagram(with.clone(), &options).unwrap(),
        render_diagram(hello_diagram(), &options).unwrap()
    );
    assert_eq!(
        render_diagram(with, &RenderOptions::default()).unwrap(),
        render_diagram(hello_diagram(), &RenderOptions::default()).unwrap()
    );
}

#[test]
fn font_family_is_passed_through() {
    let mut options = RenderOptions::default();
    options.font_family = "Courier".to_string();
    let svg = render_diagram(hello_diagram(), &options).unwrap();
    let texts = svg.matches("<text ").count();
    assert!(texts >= 6);
    assert_eq!(svg.matches("font-family=\"Courier\"").count(), texts);
    assert!(!svg.contains("Arial"));

    let default = render_diagram(hello_diagram(), &RenderOptions::default()).unwrap();
    assert_eq!(default.matches("font-family=\"Arial, sans-serif\"").count(), texts);
    assert_eq!(svg.replace("Courier", "Arial, sans-serif"), default);
}

#[test]
fn error_texts_name_their_kind() {
    assert_eq!(RenderError::SvgError("x".to_string()).to_string(), "SVG error: x");
    assert_eq!(RenderError::InvalidOptions("y".to_string()).to_string(), "Invalid options: y");
}
