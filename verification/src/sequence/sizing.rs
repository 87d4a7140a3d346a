//! The size of the participant boxes.
//!
//! Each participant needs a box that holds the lines of its name. Every box
//! of a diagram then gets the same size: the largest that any of them needs.

use vstd::prelude::*;

use crate::layout::text::{
    max_line_width, split_by_line_breaks, split_lines_spec, text_box_height_spec,
    widest_line_capped,
};
use crate::sequence::constants::{
    LINE_HEIGHT, MAX_BOX_HEIGHT, MAX_TEXT_WIDTH, MIN_PARTICIPANT_HEIGHT, MIN_PARTICIPANT_WIDTH,
    PARTICIPANT_PADDING, PARTICIPANT_VERTICAL_PADDING,
};
use crate::sequence::diagram::{display_text, Participant};
use crate::strings::texts;
use crate::units::{capped, ints, max_int, max_units};

verus! {

/// The lines shown in the box of `p`: those of its alias, or of its name if
/// it has no alias.
pub open spec fn participant_lines(p: Participant) -> Seq<Seq<char>> {
    split_lines_spec(display_text(p))
}

/// Width at which the name with the lines `lines` is measured: that of its
/// widest line, held at `MAX_TEXT_WIDTH`.
pub open spec fn name_width(lines: Seq<Seq<char>>, font_size: int) -> int {
    capped(max_line_width(lines, font_size), MAX_TEXT_WIDTH as int)
}

/// Width that a box needs for `lines`: the widest line plus the horizontal
/// padding, and at least the minimum width.
pub open spec fn participant_width_spec(lines: Seq<Seq<char>>, font_size: int) -> int {
    max_int(name_width(lines, font_size) + PARTICIPANT_PADDING, MIN_PARTICIPANT_WIDTH as int)
}

/// Height that a box needs for `num_lines` lines: the lines plus the vertical
/// padding, at least the minimum height, and held at `MAX_BOX_HEIGHT`.
pub open spec fn participant_height_spec(num_lines: int) -> int {
    capped(
        max_int(
            text_box_height_spec(
                num_lines,
                LINE_HEIGHT as int,
                PARTICIPANT_VERTICAL_PADDING as int,
            ),
            MIN_PARTICIPANT_HEIGHT as int,
        ),
        MAX_BOX_HEIGHT as int,
    )
}

/// Largest width that a participant box can have.
pub open spec fn max_box_width() -> int {
    MAX_TEXT_WIDTH + PARTICIPANT_PADDING
}

/// Largest height that a participant box can have.
pub open spec fn max_box_height() -> int {
    MAX_BOX_HEIGHT as int
}

/// Largest of `values`, and at least `floor`.
pub open spec fn max_from(values: Seq<int>, floor: int) -> int
    decreases values.len(),
{
    if values.len() == 0 {
        floor
    } else {
        max_int(max_from(values.drop_last(), floor), values.last())
    }
}

/// `max_from` is at least the floor and each value, and is one of them.
pub proof fn lemma_max_from(values: Seq<int>, floor: int)
    ensures
        max_from(values, floor) >= floor,
        forall|k: int| 0 <= k < values.len() ==> #[trigger] values[k] <= max_from(values, floor),
        max_from(values, floor) == floor || exists|k: int|
            0 <= k < values.len() && #[trigger] values[k] == max_from(values, floor),
    decreases values.len(),
{
    if values.len() > 0 {
        let init = values.drop_last();
        lemma_max_from(init, floor);
        assert forall|k: int| 0 <= k < values.len() implies #[trigger] values[k] <= max_from(
            values,
            floor,
        ) by {
            if k < init.len() {
                assert(init[k] == values[k]);
            }
        }
        if max_from(values, floor) == values.last() {
            assert(values[values.len() - 1] == values.last());
        } else if max_from(init, floor) != floor {
            let k = choose|k: int| 0 <= k < init.len() && #[trigger] init[k] == max_from(init, floor);
            assert(init[k] == values[k]);
        }
    }
}

/// Largest of `values`, and at least `floor`.
pub fn largest(values: &Vec<i64>, floor: i64) -> (m: i64)
    ensures
        m == max_from(ints(values@), floor as int),
{
    let mut m: i64 = floor;
    let mut i: usize = 0;
    while i < values.len()
        invariant
            i <= values.len(),
            m == max_from(ints(values@).take(i as int), floor as int),
        decreases values.len() - i,
    {
        proof {
            let all = ints(values@);
            assert(all.take(i + 1).drop_last() =~= all.take(i as int));
            assert(all.take(i + 1).last() == values@[i as int]);
        }
        m = max_units(m, values[i]);
        i = i + 1;
    }
    assert(ints(values@).take(values.len() as int) =~= ints(values@));
    m
}

/// The lines shown in the box of `participant`: those of its alias, or of
/// its name if it has no alias.
pub fn get_participant_lines(participant: &Participant) -> (lines: Vec<String>)
    ensures
        texts(lines@) == participant_lines(*participant),
{
    match &participant.alias {
        Some(alias) => split_by_line_breaks(alias.as_str()),
        None => split_by_line_breaks(participant.actor.as_str()),
    }
}

/// Width that a box needs for `lines`.
pub fn calculate_participant_width(lines: &[String], font_size: u32) -> (w: i64)
    ensures
        w == participant_width_spec(texts(lines@), font_size as int),
        MIN_PARTICIPANT_WIDTH <= w <= max_box_width(),
{
    max_units(
        widest_line_capped(lines, font_size, MAX_TEXT_WIDTH) + PARTICIPANT_PADDING,
        MIN_PARTICIPANT_WIDTH,
    )
}

/// Height that a box needs for `num_lines` lines.
pub fn calculate_participant_height(num_lines: usize) -> (h: i64)
    ensures
        h == participant_height_spec(num_lines as int),
        MIN_PARTICIPANT_HEIGHT <= h <= max_box_height(),
{
    let effective_lines: usize = if num_lines == 0 {
        1
    } else {
        num_lines
    };
    assert(0 <= effective_lines * LINE_HEIGHT <= 0x1_0000_0000_0000_0000 * 2520)
        by (nonlinear_arith)
        requires
            0 <= effective_lines <= 0xffff_ffff_ffff_ffff,
            LINE_HEIGHT == 2520,
    ;
    let needed: i128 = (effective_lines as i128) * (LINE_HEIGHT as i128) + (
    PARTICIPANT_VERTICAL_PADDING as i128);
    if needed >= MAX_BOX_HEIGHT as i128 {
        MAX_BOX_HEIGHT
    } else {
        max_units(needed as i64, MIN_PARTICIPANT_HEIGHT)
    }
}

/// The width that each participant needs for its own name.
pub open spec fn box_widths(participants: Seq<Participant>, font_size: int) -> Seq<int> {
    Seq::new(
        participants.len(),
        |i: int| participant_width_spec(participant_lines(participants[i]), font_size),
    )
}

/// The height that each participant needs for its own name.
pub open spec fn box_heights(participants: Seq<Participant>) -> Seq<int> {
    Seq::new(
        participants.len(),
        |i: int| participant_height_spec(participant_lines(participants[i]).len() as int),
    )
}

/// The width of the widest line of each name.
pub open spec fn line_widths(participants: Seq<Participant>, font_size: int) -> Seq<int> {
    Seq::new(
        participants.len(),
        |i: int| name_width(participant_lines(participants[i]), font_size),
    )
}

/// The one width that every box of the diagram gets: the largest that any
/// participant needs, and at least the minimum width.
pub open spec fn uniform_width(participants: Seq<Participant>, font_size: int) -> int {
    max_from(box_widths(participants, font_size), MIN_PARTICIPANT_WIDTH as int)
}

/// The one height that every box of the diagram gets: the largest that any
/// participant needs, and at least the minimum height.
pub open spec fn uniform_height(participants: Seq<Participant>) -> int {
    max_from(box_heights(participants), MIN_PARTICIPANT_HEIGHT as int)
}

/// The uniform width, once for each participant.
pub open spec fn uniform_widths(participants: Seq<Participant>, font_size: int) -> Seq<int> {
    Seq::new(participants.len(), |i: int| uniform_width(participants, font_size))
}

/// The width and the height that each participant needs, and its lines.
pub fn calculate_participant_dimensions(participants: &[Participant], font_size: u32) -> (dims: (
    Vec<i64>,
    Vec<i64>,
    Vec<Vec<String>>,
))
    ensures
        ints(dims.0@) == box_widths(participants@, font_size as int),
        ints(dims.1@) == box_heights(participants@),
        dims.2@.len() == participants@.len(),
        forall|i: int|
            0 <= i < participants@.len() ==> texts((#[trigger] dims.2@[i])@) == participant_lines(
                participants@[i],
            ),
        forall|i: int|
            0 <= i < dims.0@.len() ==> MIN_PARTICIPANT_WIDTH <= #[trigger] dims.0@[i]
                <= max_box_width(),
        forall|i: int|
            0 <= i < dims.1@.len() ==> MIN_PARTICIPANT_HEIGHT <= #[trigger] dims.1@[i]
                <= max_box_height(),
{
    let mut widths: Vec<i64> = Vec::new();
    let mut heights: Vec<i64> = Vec::new();
    let mut all_lines: Vec<Vec<String>> = Vec::new();
    let mut i: usize = 0;
    while i < participants.len()
        invariant
            i <= participants@.len(),
            widths@.len() == i,
            heights@.len() == i,
            all_lines@.len() == i,
            forall|k: int|
                0 <= k < i ==> {
                    &&& texts((#[trigger] all_lines@[k])@) == participant_lines(participants@[k])
                },
            forall|k: int|
                0 <= k < i ==> {
                    &&& #[trigger] widths@[k] == participant_width_spec(
                        participant_lines(participants@[k]),
                        font_size as int,
                    )
                    &&& MIN_PARTICIPANT_WIDTH <= widths@[k] <= max_box_width()
                },
            forall|k: int|
                0 <= k < i ==> {
                    &&& #[trigger] heights@[k] == participant_height_spec(
                        participant_lines(participants@[k]).len() as int,
                    )
                    &&& MIN_PARTICIPANT_HEIGHT <= heights@[k] <= max_box_height()
                },
        decreases participants@.len() - i,
    {
        let lines: Vec<String> = get_participant_lines(&participants[i]);
        assert(texts(lines@).len() == lines@.len());
        widths.push(calculate_participant_width(lines.as_slice(), font_size));
        heights.push(calculate_participant_height(lines.len()));
        all_lines.push(lines);
        i = i + 1;
    }
    proof {
        assert(ints(widths@) =~= box_widths(participants@, font_size as int));
        assert(ints(heights@) =~= box_heights(participants@));
    }
    (widths, heights, all_lines)
}


/// The uniform width is at least the minimum width and at most the largest
/// width of a box.
pub proof fn lemma_uniform_width_bounds(participants: Seq<Participant>, font_size: int)
    ensures
        MIN_PARTICIPANT_WIDTH <= uniform_width(participants, font_size) <= max_box_width(),
{
    let widths = box_widths(participants, font_size);
    lemma_max_from(widths, MIN_PARTICIPANT_WIDTH as int);
    if uniform_width(participants, font_size) != MIN_PARTICIPANT_WIDTH {
        let k = choose|k: int|
            0 <= k < widths.len() && #[trigger] widths[k] == uniform_width(participants, font_size);
        assert(widths[k] == participant_width_spec(participant_lines(participants[k]), font_size));
    }
}

} // verus!
