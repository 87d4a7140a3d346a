//! What the layout pass hands to the drawing pass.

use vstd::prelude::*;

use crate::layout::bounds::ContentBounds;
use crate::strings::texts;
use crate::units::half;

verus! {

/// Where one participant stands and what its box shows.
#[derive(Debug, Clone)]
pub struct ParticipantLayout {
    /// The name by which messages refer to the participant.
    pub name: String,
    /// The lines shown in its box.
    pub lines: Vec<String>,
    /// The x coordinate of its lifeline, which is the centre of its box.
    pub center_x: i64,
    /// The width of its box: the same for every participant of a diagram.
    pub width: i64,
}

impl ParticipantLayout {
    /// The x coordinate of the left edge of the box.
    pub open spec fn left_edge_spec(&self) -> int {
        self.center_x - self.width / 2
    }

    /// The x coordinate of the left edge of the box: half the width
    /// (rounded down) left of the centre.
    pub fn left_edge(&self) -> (x: i64)
        requires
            i64::MIN <= self.left_edge_spec() <= i64::MAX,
        ensures
            x == self.left_edge_spec(),
    {
        self.center_x - half(self.width)
    }
}

/// The names of `layouts`, in order.
pub open spec fn layout_names(layouts: Seq<ParticipantLayout>) -> Seq<Seq<char>> {
    layouts.map_values(|l: ParticipantLayout| l.name@)
}

/// The centres of `layouts`, in order.
pub open spec fn layout_centers(layouts: Seq<ParticipantLayout>) -> Seq<int> {
    layouts.map_values(|l: ParticipantLayout| l.center_x as int)
}

/// The box widths of `layouts`, in order.
pub open spec fn layout_widths(layouts: Seq<ParticipantLayout>) -> Seq<int> {
    layouts.map_values(|l: ParticipantLayout| l.width as int)
}

/// The lines of `layouts`, in order.
pub open spec fn layout_lines(layouts: Seq<ParticipantLayout>) -> Seq<Seq<Seq<char>>> {
    layouts.map_values(|l: ParticipantLayout| texts(l.lines@))
}

/// The result of the layout pass.
#[derive(Debug)]
pub struct Layout {
    /// The extent of everything that will be drawn.
    pub bounds: ContentBounds,
    /// The participants, leftmost first.
    pub participants: Vec<ParticipantLayout>,
    /// The height of every participant box.
    pub participant_height: i64,
    /// The y coordinate of the top of the lower row of boxes.
    pub bottom_box_y: i64,
}

} // verus!
