//! Sequence diagrams: their description, their layout and their drawing.

use vstd::prelude::*;

use crate::error::RenderResult;
use crate::options::{background_of, RenderOptions, Theme};
use crate::svg::builder::{document_markup, SvgBuilder};
use crate::units::px_ceil_spec;

use constants::PADDING;
use diagram::{actor_names, SequenceDiagram};
use layout::{
    calculate_layout, diagram_bottom_y, diagram_centers, diagram_extent,
};
use placement::first_message_y;
use sizing::{participant_lines, uniform_height, uniform_widths};
use render::{draw_messages, draw_participants, messages_fragments, participants_fragments};
use types::{layout_centers, layout_lines, layout_names, layout_widths};

pub mod constants;
pub mod diagram;
pub mod extent;
pub mod laws;
pub mod layout;
pub mod placement;
pub mod render;
pub mod sizing;
pub mod spacing;
pub mod types;

verus! {

/// The lines of the name of each participant of `diagram`.
pub open spec fn diagram_lines(diagram: SequenceDiagram) -> Seq<Seq<Seq<char>>> {
    Seq::new(
        diagram.participants@.len(),
        |i: int| participant_lines(diagram.participants@[i]),
    )
}

/// The shapes of `diagram` in the order in which they are painted: the
/// participants from left to right, then the messages from top to bottom.
pub open spec fn diagram_fragments(
    diagram: SequenceDiagram,
    theme: Theme,
    font_size: nat,
    font_family: Seq<char>,
) -> Seq<Seq<char>> {
    let participants = diagram.participants@;
    let centers = diagram_centers(diagram, font_size as int);
    let height = uniform_height(participants);
    let bottom = diagram_bottom_y(diagram, font_size as int);
    participants_fragments(
        centers,
        uniform_widths(participants, font_size as int),
        diagram_lines(diagram),
        theme,
        font_size,
        font_family,
        height,
        bottom,
        participants.len() as int,
    ) + messages_fragments(
        actor_names(participants),
        centers,
        diagram.statements@,
        first_message_y(height),
        theme,
        font_size,
        font_family,
        bottom,
    )
}

/// The width of the canvas of `diagram` in whole pixels: its extent plus the
/// padding, rounded up.
pub open spec fn canvas_width(diagram: SequenceDiagram, font_size: int) -> nat {
    px_ceil_spec(diagram_extent(diagram, font_size).x + PADDING) as nat
}

/// The height of the canvas of `diagram` in whole pixels: its extent plus
/// the padding, rounded up.
pub open spec fn canvas_height(diagram: SequenceDiagram, font_size: int) -> nat {
    px_ceil_spec(diagram_extent(diagram, font_size).y + PADDING) as nat
}

/// The document that is the image of `diagram` under `options`.
pub open spec fn diagram_document(diagram: SequenceDiagram, options: RenderOptions) -> Seq<char> {
    document_markup(
        canvas_width(diagram, options.font_size as int),
        canvas_height(diagram, options.font_size as int),
        background_of(options.theme),
        options.transparent_bg,
        diagram_fragments(
            diagram,
            options.theme,
            options.font_size as nat,
            options.font_family@,
        ),
    )
}

/// Renders `diagram` as an SVG document.
///
/// The diagram is laid out first and drawn second. A message that names a
/// participant that the diagram does not have is passed over in both
/// passes; that is no error. Every diagram has an image: this never fails.
pub fn render(diagram: &SequenceDiagram, options: &RenderOptions) -> (result: RenderResult<String>)
    ensures
        result matches Ok(svg) && svg@ == diagram_document(*diagram, *options),
{
    let colors = options.colors();

    // First pass: sizes, positions and the extent of the drawing.
    let layout = calculate_layout(diagram, options.font_size);
    let (width, height) = layout.bounds.svg_size(PADDING);

    // Second pass: the shapes, at the positions of the first.
    let mut builder = SvgBuilder::new(width, height, colors, options.transparent_bg);
    draw_participants(
        &mut builder,
        layout.participants.as_slice(),
        options,
        layout.participant_height,
        layout.bottom_box_y,
    );
    draw_messages(
        &mut builder,
        diagram,
        layout.participants.as_slice(),
        options,
        layout.participant_height,
        layout.bottom_box_y,
    );
    proof {
        let fs = options.font_size as int;
        let placed = layout.participants@;
        assert(layout_names(placed) =~= actor_names(diagram.participants@));
        assert(layout_centers(placed) =~= diagram_centers(*diagram, fs));
        assert(layout_widths(placed) =~= uniform_widths(diagram.participants@, fs));
        assert(layout_lines(placed) =~= diagram_lines(*diagram));
        assert(builder.fragments() =~= diagram_fragments(
            *diagram,
            options.theme,
            options.font_size as nat,
            options.font_family@,
        ));
    }
    Ok(builder.to_string())
}

} // verus!
