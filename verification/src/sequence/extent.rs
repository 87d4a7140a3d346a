//! The extent of a drawing: how far right and how far down it reaches.

use vstd::prelude::*;

use crate::layout::bounds::ContentBounds;
use crate::layout::text::{text_width_capped, widest_line_capped};
use crate::sequence::constants::{
    LAYOUT_LIMIT, MAX_TEXT_WIDTH, MESSAGE_SPACING, PADDING, SELF_LOOP_TEXT_OFFSET,
    SELF_LOOP_WIDTH, SELF_MESSAGE_HEIGHT,
};
use crate::sequence::diagram::Message;
use crate::sequence::placement::{
    cursor_position, find_participant_center, first_message_y, lemma_cursor_bounds,
    participant_in_range, participants_in_range, placement, Placement,
};
use crate::sequence::sizing::name_width;
use crate::sequence::spacing::label_width;
use crate::sequence::types::{layout_centers, layout_names, layout_widths, ParticipantLayout};
use crate::strings::{same_text, texts};
use crate::units::{add_capped, half, max_int, max_units};

verus! {

/// The farthest x and y reached so far.
pub struct Extent {
    pub x: int,
    pub y: int,
}

/// `e` grown to hold the point `(x, y)`.
pub open spec fn grow(e: Extent, x: int, y: int) -> Extent {
    Extent { x: max_int(e.x, x), y: max_int(e.y, y) }
}

/// `e` grown to hold one participant box with its name below it: the box is
/// `width` wide around `center`, `height` tall from `top`, and the widest
/// line of the name is `line_width` wide, centred.
pub open spec fn box_extent(
    e: Extent,
    center: int,
    width: int,
    line_width: int,
    top: int,
    height: int,
) -> Extent {
    grow(
        grow(e, center - width / 2 + width, top + height),
        center + line_width / 2,
        top + height,
    )
}

/// `e` grown to hold the first `count` boxes of one row.
pub open spec fn boxes_extent(
    e: Extent,
    centers: Seq<int>,
    widths: Seq<int>,
    line_widths: Seq<int>,
    top: int,
    height: int,
    count: int,
) -> Extent
    decreases count,
{
    if count <= 0 {
        e
    } else {
        box_extent(
            boxes_extent(e, centers, widths, line_widths, top, height, count - 1),
            centers[count - 1],
            widths[count - 1],
            line_widths[count - 1],
            top,
            height,
        )
    }
}

/// `e` grown to hold one message at the cursor position `y`, with a label
/// that is `label_width` wide: a loop with its label to the right of it, or
/// an arrow with its label centred between its ends.
pub open spec fn message_extent(e: Extent, p: Placement, y: int, label_width: int) -> Extent {
    match p {
        Placement::Skipped => e,
        Placement::SelfLoop { x } => grow(
            grow(e, x + SELF_LOOP_WIDTH, y + SELF_MESSAGE_HEIGHT),
            x + SELF_LOOP_TEXT_OFFSET + label_width,
            y + SELF_MESSAGE_HEIGHT,
        ),
        Placement::Arrow { from_x, to_x } => grow(
            grow(e, max_int(from_x, to_x), y),
            (from_x + to_x) / 2 + label_width / 2,
            y,
        ),
    }
}

/// `e` grown to hold `messages`, the first of them at `start`.
pub open spec fn messages_extent(
    e: Extent,
    names: Seq<Seq<char>>,
    centers: Seq<int>,
    messages: Seq<Message>,
    start: int,
    font_size: int,
) -> Extent
    decreases messages.len(),
{
    if messages.len() == 0 {
        e
    } else {
        message_extent(
            messages_extent(e, names, centers, messages.drop_last(), start, font_size),
            placement(names, centers, messages.last()),
            cursor_position(names, centers, messages.drop_last(), start),
            label_width(messages.last().text@, font_size),
        )
    }
}

/// The extent of a whole drawing: the upper row of boxes, the messages, and
/// the lower row of boxes at `bottom`.
pub open spec fn drawing_extent(
    names: Seq<Seq<char>>,
    centers: Seq<int>,
    widths: Seq<int>,
    line_widths: Seq<int>,
    height: int,
    messages: Seq<Message>,
    font_size: int,
) -> Extent {
    let count = names.len() as int;
    let start = first_message_y(height);
    let bottom = cursor_position(names, centers, messages, start);
    let upper = boxes_extent(
        Extent { x: 0, y: 0 },
        centers,
        widths,
        line_widths,
        PADDING as int,
        height,
        count,
    );
    let middle = messages_extent(upper, names, centers, messages, start, font_size);
    boxes_extent(middle, centers, widths, line_widths, bottom, height, count)
}

/// The width of the widest line of each of `layouts`.
pub open spec fn layout_line_widths(layouts: Seq<ParticipantLayout>, font_size: int) -> Seq<int> {
    layouts.map_values(|l: ParticipantLayout| name_width(texts(l.lines@), font_size))
}

/// The extent that `bounds` has reached.
pub open spec fn extent_of(bounds: ContentBounds) -> Extent {
    Extent { x: bounds.max_x(), y: bounds.max_y() }
}

pub(crate) fn include_boxes(
    bounds: &mut ContentBounds,
    participants: &[ParticipantLayout],
    top: i64,
    height: i64,
    font_size: u32,
)
    requires
        participants_in_range(participants@),
        0 <= top <= LAYOUT_LIMIT,
        0 <= height <= LAYOUT_LIMIT,
    ensures
        extent_of(*final(bounds)) == boxes_extent(
            extent_of(*old(bounds)),
            layout_centers(participants@),
            layout_widths(participants@),
            layout_line_widths(participants@, font_size as int),
            top as int,
            height as int,
            participants@.len() as int,
        ),
{
    let ghost centers = layout_centers(participants@);
    let ghost widths = layout_widths(participants@);
    let ghost lws = layout_line_widths(participants@, font_size as int);
    let ghost e0 = extent_of(*bounds);
    let mut i: usize = 0;
    while i < participants.len()
        invariant
            i <= participants@.len(),
            participants_in_range(participants@),
            0 <= top <= LAYOUT_LIMIT,
            0 <= height <= LAYOUT_LIMIT,
            centers == layout_centers(participants@),
            widths == layout_widths(participants@),
            lws == layout_line_widths(participants@, font_size as int),
            extent_of(*bounds) == boxes_extent(
                e0,
                centers,
                widths,
                lws,
                top as int,
                height as int,
                i as int,
            ),
        decreases participants@.len() - i,
    {
        let p: &ParticipantLayout = &participants[i];
        proof {
            assert(participant_in_range(participants@[i as int]));
            assert(centers[i as int] == p.center_x);
            assert(widths[i as int] == p.width);
            assert(lws[i as int] == name_width(texts(p.lines@), font_size as int));
        }
        // The box.
        bounds.include_rect(p.left_edge(), top, p.width, height);
        // The name, centred; the widest line decides.
        let max_line_width: i64 = widest_line_capped(
            p.lines.as_slice(),
            font_size,
            MAX_TEXT_WIDTH,
        );
        bounds.include_text(p.center_x, top + height, max_line_width, "middle");
        i = i + 1;
    }
}

pub(crate) fn include_messages(
    bounds: &mut ContentBounds,
    participants: &[ParticipantLayout],
    statements: &[Message],
    start: i64,
    font_size: u32,
) -> (bottom: i64)
    requires
        participants_in_range(participants@),
        0 <= start <= LAYOUT_LIMIT,
    ensures
        0 <= bottom <= LAYOUT_LIMIT,
        bottom == cursor_position(
            layout_names(participants@),
            layout_centers(participants@),
            statements@,
            start as int,
        ),
        extent_of(*final(bounds)) == messages_extent(
            extent_of(*old(bounds)),
            layout_names(participants@),
            layout_centers(participants@),
            statements@,
            start as int,
            font_size as int,
        ),
{
    let ghost names = layout_names(participants@);
    let ghost centers = layout_centers(participants@);
    let ghost e0 = extent_of(*bounds);
    let mut message_y: i64 = start;
    let mut k: usize = 0;
    assert(statements@.take(0) =~= Seq::<Message>::empty());
    while k < statements.len()
        invariant
            k <= statements@.len(),
            participants_in_range(participants@),
            0 <= start <= LAYOUT_LIMIT,
            names == layout_names(participants@),
            centers == layout_centers(participants@),
            0 <= message_y <= LAYOUT_LIMIT,
            message_y == cursor_position(
                names,
                centers,
                statements@.take(k as int),
                start as int,
            ),
            extent_of(*bounds) == messages_extent(
                e0,
                names,
                centers,
                statements@.take(k as int),
                start as int,
                font_size as int,
            ),
        decreases statements@.len() - k,
    {
        let msg: &Message = &statements[k];
        proof {
            assert(statements@.take(k + 1).drop_last() =~= statements@.take(k as int));
            assert(statements@.take(k + 1).last() == *msg);
            lemma_cursor_bounds(names, centers, statements@.take(k as int), start as int);
            reveal_strlit("start");
            reveal_strlit("middle");
            reveal_strlit("end");
            assert("start"@.len() == 5 && "middle"@.len() == 6 && "end"@.len() == 3);
        }
        let from_x = find_participant_center(participants, msg.from.as_str());
        let to_x = find_participant_center(participants, msg.to.as_str());
        match (from_x, to_x) {
            (Some(fx), Some(tx)) => {
                let msg_width: i64 = text_width_capped(
                    msg.text.as_str(),
                    font_size,
                    MAX_TEXT_WIDTH,
                );
                if same_text(msg.from.as_str(), msg.to.as_str()) {
                    // The loop, then its label to the right of it.
                    bounds.include_point(fx + SELF_LOOP_WIDTH, message_y + SELF_MESSAGE_HEIGHT);
                    bounds.include_text(
                        fx + SELF_LOOP_TEXT_OFFSET,
                        message_y + SELF_MESSAGE_HEIGHT,
                        msg_width,
                        "start",
                    );
                    message_y = add_capped(
                        message_y,
                        MESSAGE_SPACING + SELF_MESSAGE_HEIGHT,
                        LAYOUT_LIMIT,
                    );
                } else {
                    // The arrow, then its label centred between its ends.
                    bounds.include_point(max_units(fx, tx), message_y);
                    let text_x: i64 = half(fx + tx);
                    bounds.include_text(text_x, message_y, msg_width, "middle");
                    message_y = add_capped(message_y, MESSAGE_SPACING, LAYOUT_LIMIT);
                }
            },
            _ => {},
        }
        k = k + 1;
    }
    assert(statements@.take(statements@.len() as int) =~= statements@);
    message_y
}

} // verus!
