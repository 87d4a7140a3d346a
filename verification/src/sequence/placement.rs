//! Where participants and messages stand.
//!
//! Participants stand from left to right, one gap apart. Messages follow
//! each other from top to bottom, at the positions of a cursor that both
//! passes move in the same way.

use vstd::prelude::*;

use crate::sequence::constants::{
    LAYOUT_LIMIT, MESSAGE_SPACING, MIN_PARTICIPANT_WIDTH, PADDING, SELF_MESSAGE_HEIGHT,
};
use crate::sequence::diagram::{Message, Participant};
use crate::sequence::spacing::{
    first_index, first_index_from, lemma_capped_span, no_gap_negative, span,
};
use crate::sequence::types::{layout_centers, layout_names, ParticipantLayout};
use crate::strings::{clone_lines, same_text, texts};
use crate::units::{add_capped, capped, half, ints, min_int};

verus! {

/// The width at position `i`, or the minimum width where `widths` is too
/// short.
pub open spec fn width_at(widths: Seq<int>, i: int) -> int {
    if 0 <= i < widths.len() {
        widths[i]
    } else {
        MIN_PARTICIPANT_WIDTH as int
    }
}

/// The x coordinate of the centre of participant `i`: the first stands half
/// its box right of the padding, and each gap leads to the next.
pub open spec fn center_at(widths: Seq<int>, gaps: Seq<int>, i: int) -> int {
    PADDING + width_at(widths, 0) / 2 + span(gaps, 0, min_int(i, gaps.len() as int))
}

/// The lines at position `i`, or the name of the participant where `lines`
/// is too short.
pub open spec fn lines_at(participants: Seq<Participant>, lines: Seq<Vec<String>>, i: int) -> Seq<
    Seq<char>,
> {
    if 0 <= i < lines.len() {
        texts(lines[i]@)
    } else {
        seq![participants[i].actor@]
    }
}

/// Where the centre of participant `i` is placed: at its x coordinate, or
/// at the limit of the layout where that lies beyond it.
pub open spec fn placed_center(widths: Seq<int>, gaps: Seq<int>, i: int) -> int {
    capped(center_at(widths, gaps, i), LAYOUT_LIMIT as int)
}

/// Where the participants stand: each with its name, its lines, its centre
/// and the width of its box.
pub fn calculate_participant_layouts(
    participants: &[Participant],
    participant_widths: &[i64],
    participant_lines: &[Vec<String>],
    gap_spacings: &[i64],
) -> (layouts: Vec<ParticipantLayout>)
    requires
        forall|i: int|
            0 <= i < participant_widths@.len() ==> 0 <= #[trigger] participant_widths@[i]
                <= LAYOUT_LIMIT,
        forall|i: int| 0 <= i < gap_spacings@.len() ==> 0 <= #[trigger] gap_spacings@[i],
    ensures
        layouts@.len() == participants@.len(),
        forall|i: int|
            0 <= i < layouts@.len() ==> {
                let l = #[trigger] layouts@[i];
                &&& l.name@ == participants@[i].actor@
                &&& texts(l.lines@) == lines_at(participants@, participant_lines@, i)
                &&& l.center_x == placed_center(ints(participant_widths@), ints(gap_spacings@), i)
                &&& l.width == width_at(ints(participant_widths@), i)
                &&& 0 <= l.center_x <= LAYOUT_LIMIT
            },
{
    let ghost widths = ints(participant_widths@);
    let ghost gaps = ints(gap_spacings@);
    let ghost limit = LAYOUT_LIMIT as int;
    let mut layouts: Vec<ParticipantLayout> = Vec::new();
    let first_width: i64 = if participant_widths.len() > 0 {
        participant_widths[0]
    } else {
        MIN_PARTICIPANT_WIDTH
    };
    assert(first_width == width_at(widths, 0));
    assert(no_gap_negative(gaps)) by {
        assert forall|k: int| 0 <= k < gaps.len() implies 0 <= #[trigger] gaps[k] by {
            assert(gaps[k] == gap_spacings@[k]);
        }
    }
    let mut center_x: i64 = PADDING + half(first_width);
    let mut i: usize = 0;
    while i < participants.len()
        invariant
            i <= participants@.len(),
            widths == ints(participant_widths@),
            gaps == ints(gap_spacings@),
            limit == LAYOUT_LIMIT,
            no_gap_negative(gaps),
            layouts@.len() == i,
            0 <= first_width <= LAYOUT_LIMIT,
            first_width == width_at(widths, 0),
            center_x == placed_center(widths, gaps, i as int),
            0 <= center_x <= LAYOUT_LIMIT,
            forall|k: int|
                0 <= k < i ==> {
                    let l = #[trigger] layouts@[k];
                    &&& l.name@ == participants@[k].actor@
                    &&& texts(l.lines@) == lines_at(participants@, participant_lines@, k)
                    &&& l.center_x == placed_center(widths, gaps, k)
                    &&& l.width == width_at(widths, k)
                    &&& 0 <= l.center_x <= LAYOUT_LIMIT
                },
        decreases participants@.len() - i,
    {
        let participant: &Participant = &participants[i];
        let width: i64 = if i < participant_widths.len() {
            participant_widths[i]
        } else {
            MIN_PARTICIPANT_WIDTH
        };
        let lines: Vec<String> = if i < participant_lines.len() {
            clone_lines(&participant_lines[i])
        } else {
            let mut own: Vec<String> = Vec::new();
            own.push(participant.actor.clone());
            assert(texts(own@) =~= seq![participant.actor@]);
            own
        };
        layouts.push(ParticipantLayout { name: participant.actor.clone(), lines, center_x, width });
        if i < gap_spacings.len() {
            proof {
                assert(gaps[i as int] == gap_spacings@[i as int]);
                lemma_capped_span(gaps, 0, i as int, limit);
                assert(span(gaps, 0, i + 1) == span(gaps, 0, i as int) + gaps[i as int]);
            }
            center_x = add_capped(center_x, gap_spacings[i], LAYOUT_LIMIT);
        }
        i = i + 1;
    }
    layouts
}

/// The centre of the first of `participants` that is named `name`.
pub fn find_participant_center(participants: &[ParticipantLayout], name: &str) -> (found: Option<
    i64,
>)
    ensures
        match found {
            Some(x) => center_of(layout_names(participants@), layout_centers(participants@), name@)
                == Some(x as int),
            None => center_of(layout_names(participants@), layout_centers(participants@), name@)
                .is_none(),
        },
        found matches Some(x) ==> exists|i: int|
            0 <= i < participants@.len() && (#[trigger] participants@[i]).center_x == x,
{
    let ghost names = layout_names(participants@);
    let mut i: usize = 0;
    while i < participants.len()
        invariant
            i <= participants@.len(),
            names == layout_names(participants@),
            first_index(names, name@) == first_index_from(names, name@, i as int),
        decreases participants@.len() - i,
    {
        assert(names[i as int] == participants@[i as int].name@);
        if same_text(participants[i].name.as_str(), name) {
            assert(layout_centers(participants@)[i as int] == participants@[i as int].center_x);
            return Some(participants[i].center_x);
        }
        i = i + 1;
    }
    None
}

/// The centre of the first participant that is named `name`, among
/// participants named `names` that stand at `centers`.
pub open spec fn center_of(names: Seq<Seq<char>>, centers: Seq<int>, name: Seq<char>) -> Option<
    int,
> {
    match first_index(names, name) {
        Some(i) => Some(centers[i]),
        None => None,
    }
}

/// How a message is placed.
pub enum Placement {
    /// It names a participant that the diagram does not have: it is not
    /// drawn and takes no room.
    Skipped,
    /// It goes from a participant to itself: a loop beside the lifeline at
    /// `x`.
    SelfLoop { x: int },
    /// It goes from the lifeline at `from_x` to the lifeline at `to_x`.
    Arrow { from_x: int, to_x: int },
}

/// How `message` is placed among participants named `names` that stand at
/// `centers`.
pub open spec fn placement(names: Seq<Seq<char>>, centers: Seq<int>, message: Message) -> Placement {
    match (center_of(names, centers, message.from@), center_of(names, centers, message.to@)) {
        (Some(from_x), Some(to_x)) => if message.from@ == message.to@ {
            Placement::SelfLoop { x: from_x }
        } else {
            Placement::Arrow { from_x, to_x }
        },
        _ => Placement::Skipped,
    }
}

/// How far a message moves the cursor down.
pub open spec fn advance(p: Placement) -> int {
    match p {
        Placement::Skipped => 0,
        Placement::SelfLoop { .. } => MESSAGE_SPACING + SELF_MESSAGE_HEIGHT,
        Placement::Arrow { .. } => MESSAGE_SPACING as int,
    }
}

/// The y coordinate of the cursor after `messages`, when it began at
/// `start`. Message `k` is drawn where the cursor stands after the `k`
/// messages before it; the layout pass and the drawing pass both go by this
/// one function.
pub open spec fn cursor_after(
    names: Seq<Seq<char>>,
    centers: Seq<int>,
    messages: Seq<Message>,
    start: int,
) -> int
    decreases messages.len(),
{
    if messages.len() == 0 {
        start
    } else {
        cursor_after(names, centers, messages.drop_last(), start) + advance(
            placement(names, centers, messages.last()),
        )
    }
}

/// Where the cursor is placed after `messages`: at its y coordinate, or at
/// the limit of the layout where that lies beyond it. A message is drawn
/// where the cursor is placed after the messages before it; the layout pass
/// and the drawing pass both go by this one function.
pub open spec fn cursor_position(
    names: Seq<Seq<char>>,
    centers: Seq<int>,
    messages: Seq<Message>,
    start: int,
) -> int {
    capped(cursor_after(names, centers, messages, start), LAYOUT_LIMIT as int)
}

/// The y coordinate at which the first message is drawn, below boxes that
/// are `box_height` tall.
pub open spec fn first_message_y(box_height: int) -> int {
    PADDING + box_height + MESSAGE_SPACING
}

/// The cursor moves down by at most a self-message per message, and never
/// up.
pub proof fn lemma_cursor_bounds(
    names: Seq<Seq<char>>,
    centers: Seq<int>,
    messages: Seq<Message>,
    start: int,
)
    ensures
        start <= cursor_after(names, centers, messages, start) <= start + messages.len() * (
        MESSAGE_SPACING + SELF_MESSAGE_HEIGHT),
    decreases messages.len(),
{
    if messages.len() > 0 {
        lemma_cursor_bounds(names, centers, messages.drop_last(), start);
    }
}

/// Whether `l` holds coordinates that can be worked with.
pub open spec fn participant_in_range(l: ParticipantLayout) -> bool {
    &&& 0 <= l.center_x <= LAYOUT_LIMIT
    &&& 0 <= l.width <= LAYOUT_LIMIT
}

/// Whether each of `layouts` holds coordinates that can be worked with.
pub open spec fn participants_in_range(layouts: Seq<ParticipantLayout>) -> bool {
    forall|i: int| 0 <= i < layouts.len() ==> participant_in_range(#[trigger] layouts[i])
}

} // verus!
