//! The fixed measures of a sequence diagram, in units.

use vstd::prelude::*;

use crate::units::UNITS_PER_PX;

verus! {

/// Least width of a participant box (80 pixels).
pub const MIN_PARTICIPANT_WIDTH: i64 = 80 * UNITS_PER_PX;

/// Least height of a participant box (40 pixels).
pub const MIN_PARTICIPANT_HEIGHT: i64 = 40 * UNITS_PER_PX;

/// Horizontal padding inside a participant box, both sides together
/// (20 pixels).
pub const PARTICIPANT_PADDING: i64 = 20 * UNITS_PER_PX;

/// Vertical padding inside a participant box, top and bottom together
/// (16 pixels).
pub const PARTICIPANT_VERTICAL_PADDING: i64 = 16 * UNITS_PER_PX;

/// Distance between the baselines of two lines of a name (18 pixels).
pub const LINE_HEIGHT: i64 = 18 * UNITS_PER_PX;

/// Least free space between two neighbouring participant boxes (50 pixels).
pub const MIN_PARTICIPANT_SPACING: i64 = 50 * UNITS_PER_PX;

/// Free space that a message label needs beside it, both sides together
/// (40 pixels).
pub const MESSAGE_TEXT_MARGIN: i64 = 40 * UNITS_PER_PX;

/// Vertical distance from one message to the next (50 pixels).
pub const MESSAGE_SPACING: i64 = 50 * UNITS_PER_PX;

/// Height that the loop of a self-message takes (40 pixels).
pub const SELF_MESSAGE_HEIGHT: i64 = 40 * UNITS_PER_PX;

/// Width of the loop of a self-message (40 pixels).
pub const SELF_LOOP_WIDTH: i64 = 40 * UNITS_PER_PX;

/// Distance from a lifeline to the label of its self-message (50 pixels).
pub const SELF_LOOP_TEXT_OFFSET: i64 = 50 * UNITS_PER_PX;

/// How far the label of an arrow stands above its line (10 pixels).
pub const LABEL_RISE: i64 = 10 * UNITS_PER_PX;

/// How far the baseline of a one-line name lies below the middle of its box
/// (5 pixels).
pub const NAME_BASELINE_DROP: i64 = 5 * UNITS_PER_PX;

/// Free space around the whole diagram (20 pixels).
pub const PADDING: i64 = 20 * UNITS_PER_PX;

/// Largest height, in units, of a participant box: a name that needs a
/// taller box gets one of this height.
pub const MAX_BOX_HEIGHT: i64 = 0x0200_0000_0000_0000;

/// Largest width, in units, at which a line of a name or a message label is
/// measured: a wider text counts as this wide.
pub const MAX_TEXT_WIDTH: i64 = 0x0100_0000_0000_0000;

/// Largest gap and largest coordinate of a layout: a gap, a centre or a
/// cursor position that would be larger is held at this.
pub const LAYOUT_LIMIT: i64 = 0x0400_0000_0000_0000;

} // verus!
