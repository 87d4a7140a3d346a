//! The layout pass: box sizes, the gaps between participants, their
//! positions, and the extent of the whole drawing.
//!
//! Nothing is drawn here. Box sizes and gaps depend on every participant and
//! on every message, so they are settled before the first shape is emitted.

use vstd::prelude::*;

use crate::layout::bounds::ContentBounds;
use crate::sequence::constants::{
    LAYOUT_LIMIT, MESSAGE_SPACING, MIN_PARTICIPANT_HEIGHT,
    MIN_PARTICIPANT_WIDTH, PADDING,
};
use crate::sequence::diagram::{actor_names, SequenceDiagram};
use crate::sequence::extent::{
    drawing_extent, include_boxes, include_messages, layout_line_widths, Extent,
};
use crate::sequence::placement::{
    calculate_participant_layouts, center_at, cursor_position, first_message_y,
    participant_in_range, participants_in_range, placed_center,
};
use crate::sequence::sizing::{
    box_heights, box_widths, calculate_participant_dimensions, largest, lemma_max_from,
    line_widths, max_box_height, max_box_width, participant_lines, uniform_height,
    uniform_width, uniform_widths,
};
use crate::sequence::spacing::{
    calculate_gap_spacings, gap_spacings_spec, lemma_capped_span, span,
};
use crate::sequence::types::{
    layout_centers, layout_names, layout_widths, Layout, ParticipantLayout,
};
use crate::strings::texts;
use crate::units::{all_capped, ints, min_int};

pub use crate::sequence::placement::find_participant_center;

verus! {

/// The gaps between the participants of `diagram`, as they are without the
/// limit of the layout.
pub open spec fn diagram_gaps(diagram: SequenceDiagram, font_size: int) -> Seq<int> {
    gap_spacings_spec(
        actor_names(diagram.participants@),
        uniform_widths(diagram.participants@, font_size),
        diagram.statements@,
        font_size,
    )
}

/// The centres of the participants of `diagram`, as they are placed.
pub open spec fn diagram_centers(diagram: SequenceDiagram, font_size: int) -> Seq<int> {
    Seq::new(
        diagram.participants@.len(),
        |i: int|
            placed_center(
                uniform_widths(diagram.participants@, font_size),
                diagram_gaps(diagram, font_size),
                i,
            ),
    )
}

/// The y coordinate of the top of the lower row of boxes: where the cursor
/// is placed after the last message.
pub open spec fn diagram_bottom_y(diagram: SequenceDiagram, font_size: int) -> int {
    cursor_position(
        actor_names(diagram.participants@),
        diagram_centers(diagram, font_size),
        diagram.statements@,
        first_message_y(uniform_height(diagram.participants@)),
    )
}

/// The extent of the drawing of `diagram`.
pub open spec fn diagram_extent(diagram: SequenceDiagram, font_size: int) -> Extent {
    drawing_extent(
        actor_names(diagram.participants@),
        diagram_centers(diagram, font_size),
        uniform_widths(diagram.participants@, font_size),
        line_widths(diagram.participants@, font_size),
        uniform_height(diagram.participants@),
        diagram.statements@,
        font_size,
    )
}

/// Whether `layout` is the layout of `diagram` at `font_size`.
pub open spec fn is_layout_of(layout: Layout, diagram: SequenceDiagram, font_size: int) -> bool {
    &&& layout.participants@.len() == diagram.participants@.len()
    &&& forall|i: int|
        0 <= i < layout.participants@.len() ==> {
            let l = #[trigger] layout.participants@[i];
            &&& l.name@ == diagram.participants@[i].actor@
            &&& texts(l.lines@) == participant_lines(diagram.participants@[i])
            &&& l.center_x == diagram_centers(diagram, font_size)[i]
            &&& l.width == uniform_width(diagram.participants@, font_size)
        }
    &&& layout.participant_height == uniform_height(diagram.participants@)
    &&& layout.bottom_box_y == diagram_bottom_y(diagram, font_size)
    &&& layout.bounds.max_x() == diagram_extent(diagram, font_size).x
    &&& layout.bounds.max_y() == diagram_extent(diagram, font_size).y
}

fn repeat_width(width: i64, count: usize) -> (widths: Vec<i64>)
    ensures
        widths@.len() == count,
        forall|i: int| 0 <= i < count ==> #[trigger] widths@[i] == width,
{
    let mut widths: Vec<i64> = Vec::new();
    let mut i: usize = 0;
    while i < count
        invariant
            i <= count,
            widths@.len() == i,
            forall|k: int| 0 <= k < i ==> #[trigger] widths@[k] == width,
        decreases count - i,
    {
        widths.push(width);
        i = i + 1;
    }
    widths
}

/// Whether `layout` holds coordinates that can be drawn.
pub open spec fn layout_in_range(layout: Layout) -> bool {
    &&& participants_in_range(layout.participants@)
    &&& 0 <= layout.participant_height <= LAYOUT_LIMIT
    &&& 0 <= layout.bottom_box_y <= LAYOUT_LIMIT
}

/// Lays out `diagram`: the first pass, which draws nothing.
///
/// Every participant gets a box of the same width and height, the largest
/// that any of them needs. The gaps between neighbours are made wide enough
/// for every label. The participants are then placed from left to right, the
/// messages from top to bottom, and the extent of all of it is taken.
///
/// Every diagram has a layout. Where a text is wider than `MAX_TEXT_WIDTH`
/// it is measured as that wide, a box is at most `MAX_BOX_HEIGHT` tall, and
/// a position beyond `LAYOUT_LIMIT` is held at it.
pub fn calculate_layout(diagram: &SequenceDiagram, font_size: u32) -> (layout: Layout)
    ensures
        is_layout_of(layout, *diagram, font_size as int),
        layout_in_range(layout),
{
    let ghost fs = font_size as int;
    let ghost ps = diagram.participants@;
    let ghost limit = LAYOUT_LIMIT as int;
    let mut bounds = ContentBounds::new();

    // What each participant needs for its own name.
    let (participant_widths, participant_heights, all_lines) =
        calculate_participant_dimensions(diagram.participants.as_slice(), font_size);

    // One size for every box: the largest that is needed.
    let participant_width: i64 = largest(&participant_widths, MIN_PARTICIPANT_WIDTH);
    let participant_height: i64 = largest(&participant_heights, MIN_PARTICIPANT_HEIGHT);
    proof {
        lemma_max_from(box_widths(ps, fs), MIN_PARTICIPANT_WIDTH as int);
        lemma_max_from(box_heights(ps), MIN_PARTICIPANT_HEIGHT as int);
        assert(MIN_PARTICIPANT_WIDTH <= participant_width <= max_box_width()) by {
            if participant_width != MIN_PARTICIPANT_WIDTH {
                let k = choose|k: int|
                    0 <= k < box_widths(ps, fs).len() && #[trigger] box_widths(ps, fs)[k]
                        == participant_width;
                assert(participant_widths@[k] == ints(participant_widths@)[k]);
            }
        }
        assert(MIN_PARTICIPANT_HEIGHT <= participant_height <= max_box_height()) by {
            if participant_height != MIN_PARTICIPANT_HEIGHT {
                let k = choose|k: int|
                    0 <= k < box_heights(ps).len() && #[trigger] box_heights(ps)[k]
                        == participant_height;
                assert(participant_heights@[k] == ints(participant_heights@)[k]);
            }
        }
    }
    let uniform: Vec<i64> = repeat_width(participant_width, diagram.participants.len());
    assert(ints(uniform@) =~= uniform_widths(ps, fs));

    // The gaps, wide enough for every label.
    let gap_spacings: Vec<i64> = calculate_gap_spacings(
        diagram.participants.as_slice(),
        uniform.as_slice(),
        diagram.statements.as_slice(),
        font_size,
    );

    // The participants, left to right.
    let participants: Vec<ParticipantLayout> = calculate_participant_layouts(
        diagram.participants.as_slice(),
        uniform.as_slice(),
        all_lines.as_slice(),
        gap_spacings.as_slice(),
    );
    proof {
        let widths = uniform_widths(ps, fs);
        let exact = diagram_gaps(*diagram, fs);
        let held = ints(gap_spacings@);
        assert(held == all_capped(exact, limit));
        assert(layout_names(participants@) =~= actor_names(ps));
        assert forall|i: int| 0 <= i < participants@.len() implies (
        #[trigger] participants@[i]).center_x == diagram_centers(*diagram, fs)[i] by {
            // Holding the gaps at the limit first loses nothing.
            let reached = min_int(i, exact.len() as int);
            lemma_capped_span(exact, 0, reached, limit);
            assert(held.len() == exact.len());
            assert(center_at(widths, held, i) == PADDING + participant_width / 2 + span(
                held,
                0,
                reached,
            ));
            assert(center_at(widths, exact, i) == PADDING + participant_width / 2 + span(
                exact,
                0,
                reached,
            ));
        }
        assert(layout_centers(participants@) =~= diagram_centers(*diagram, fs));
        assert(layout_widths(participants@) =~= uniform_widths(ps, fs));
        assert(layout_line_widths(participants@, fs) =~= line_widths(ps, fs));
        assert(participants_in_range(participants@)) by {
            assert forall|i: int| 0 <= i < participants@.len() implies participant_in_range(
                #[trigger] participants@[i],
            ) by {}
        }
    }

    // The upper row of boxes, the messages below it, and the lower row where
    // the messages end.
    include_boxes(&mut bounds, participants.as_slice(), PADDING, participant_height, font_size);
    let bottom_box_y: i64 = include_messages(
        &mut bounds,
        participants.as_slice(),
        diagram.statements.as_slice(),
        PADDING + participant_height + MESSAGE_SPACING,
        font_size,
    );
    include_boxes(&mut bounds, participants.as_slice(), bottom_box_y, participant_height, font_size);

    Layout { bounds, participants, participant_height, bottom_box_y }
}

} // verus!
