//! What holds of every layout and of every image.
//!
//! The proofs here speak of the same functions as the contracts of the
//! layout pass and of the drawing pass, so each statement is true of what
//! those passes return.

use vstd::prelude::*;

use crate::layout::text::{base_width, max_line_width, text_width_spec, GLYPH_SCALE};
use crate::options::{background_of, box_fill_of, ink_of, RenderOptions, Theme};
use crate::sequence::constants::{
    LABEL_RISE, LAYOUT_LIMIT, LINE_HEIGHT, MIN_PARTICIPANT_HEIGHT, MIN_PARTICIPANT_SPACING,
    MIN_PARTICIPANT_WIDTH, NAME_BASELINE_DROP, PADDING, SELF_LOOP_TEXT_OFFSET,
    SELF_MESSAGE_HEIGHT,
};
use crate::sequence::diagram::{actor_names, Message, SequenceDiagram};
use crate::sequence::extent::{boxes_extent, message_extent, messages_extent, Extent};
use crate::sequence::layout::{
    diagram_bottom_y, diagram_centers, diagram_extent, diagram_gaps, is_layout_of,
};
use crate::sequence::placement::{
    advance, center_at, cursor_after, cursor_position, first_message_y, placed_center,
    placement, Placement,
};
use crate::sequence::render::{
    arrow_styles, loop_style, message_fragments, messages_fragments, name_markup,
    participant_fragments, participants_fragments,
};
use crate::sequence::sizing::{
    box_heights, box_widths, lemma_max_from, lemma_uniform_width_bounds, line_widths, max_from,
    participant_height_spec,
    participant_lines, participant_width_spec, uniform_height, uniform_width, uniform_widths,
};
use crate::sequence::spacing::{
    first_index, gap_spacings_spec, gaps_after, gaps_after_message, initial_gaps, label_width,
    lemma_first_index, message_span, required_span, span, widen,
};
use crate::sequence::types::Layout;
use crate::sequence::{
    canvas_height, canvas_width, diagram_document, diagram_fragments, diagram_lines,
};
use crate::svg::background::{
    canvas_rect_at, document_has_one_background_or_none, fragments_without_canvas_rect, holds_no_canvas_rect, holds_no_tag, lemma_arrow_markup,
    lemma_holds_none, lemma_line_markup, lemma_rect_markup, lemma_self_loop_markup,
    lemma_text_lines_markup, lemma_text_markup, no_canvas_rect,
};
use crate::svg::builder::{background_markup, opening_markup};
use crate::svg::shapes::LineStyle;
use crate::units::{ceil_div_spec, lemma_ceil_div, max_int};

verus! {

/// Whether `message` goes from a participant to itself.
pub open spec fn is_self_message(message: Message) -> bool {
    message.from@ == message.to@
}

/// Every box of a layout has the same width and the same height, however
/// much the names differ in length, and that size is large enough for each
/// name and no smaller than the minimum.
pub proof fn boxes_are_uniform(
    layout: Layout,
    diagram: SequenceDiagram,
    font_size: int,
    i: int,
    j: int,
)
    requires
        is_layout_of(layout, diagram, font_size),
        0 <= i < diagram.participants@.len(),
        0 <= j < diagram.participants@.len(),
    ensures
        layout.participants@[i].width == layout.participants@[j].width,
        layout.participants@[i].width >= participant_width_spec(
            participant_lines(diagram.participants@[j]),
            font_size,
        ),
        layout.participants@[i].width >= MIN_PARTICIPANT_WIDTH,
        layout.participant_height >= participant_height_spec(
            participant_lines(diagram.participants@[j]).len() as int,
        ),
        layout.participant_height >= MIN_PARTICIPANT_HEIGHT,
{
    let ps = diagram.participants@;
    lemma_max_from(box_widths(ps, font_size), MIN_PARTICIPANT_WIDTH as int);
    lemma_max_from(box_heights(ps), MIN_PARTICIPANT_HEIGHT as int);
    assert(box_widths(ps, font_size)[j] == participant_width_spec(
        participant_lines(ps[j]),
        font_size,
    ));
    assert(box_heights(ps)[j] == participant_height_spec(participant_lines(ps[j]).len() as int));
}

/// Widening keeps the number of gaps, shrinks none, and leaves the gaps
/// outside the span as they were. Where the label needs more than the span
/// has, every gap of the span grows.
pub proof fn lemma_widen(gaps: Seq<int>, lo: int, hi: int, required: int)
    ensures
        widen(gaps, lo, hi, required).len() == gaps.len(),
        forall|i: int|
            0 <= i < gaps.len() ==> #[trigger] widen(gaps, lo, hi, required)[i] >= gaps[i],
        forall|i: int|
            0 <= i < gaps.len() && !(lo <= i < hi) ==> #[trigger] widen(gaps, lo, hi, required)[i]
                == gaps[i],
        required > span(gaps, lo, hi) ==> forall|i: int|
            0 <= i < gaps.len() && lo <= i < hi ==> #[trigger] widen(gaps, lo, hi, required)[i]
                > gaps[i],
{
    let missing = required - span(gaps, lo, hi);
    if missing > 0 && lo < hi {
        lemma_ceil_div(missing, hi - lo);
        let share = ceil_div_spec(missing, hi - lo);
        assert(share >= 1) by (nonlinear_arith)
            requires
                share * (hi - lo) >= missing,
                missing >= 1,
                hi - lo >= 1,
        ;
    }
}

/// A span in which every gap grew by `share` grew by `share` times its
/// number of gaps.
proof fn lemma_span_shifted(gaps: Seq<int>, wider: Seq<int>, lo: int, hi: int, share: int)
    requires
        0 <= lo <= hi <= gaps.len(),
        wider.len() == gaps.len(),
        forall|i: int| lo <= i < hi ==> #[trigger] wider[i] == gaps[i] + share,
    ensures
        span(wider, lo, hi) == span(gaps, lo, hi) + (hi - lo) * share,
    decreases hi - lo,
{
    if lo < hi {
        lemma_span_shifted(gaps, wider, lo, hi - 1, share);
        assert((hi - 1 - lo) * share + share == (hi - lo) * share) by (nonlinear_arith);
    } else {
        assert((hi - lo) * share == 0) by (nonlinear_arith)
            requires
                hi - lo == 0,
        ;
    }
}

/// Where no gap shrank, no span shrank.
pub proof fn lemma_span_monotone(gaps: Seq<int>, wider: Seq<int>, lo: int, hi: int)
    requires
        0 <= lo <= hi <= gaps.len(),
        wider.len() == gaps.len(),
        forall|i: int| 0 <= i < gaps.len() ==> #[trigger] wider[i] >= gaps[i],
    ensures
        span(wider, lo, hi) >= span(gaps, lo, hi),
    decreases hi - lo,
{
    if lo < hi {
        lemma_span_monotone(gaps, wider, lo, hi - 1);
    }
}

/// After widening for a label, the label fits: the span is at least what
/// was required.
pub proof fn widened_span_holds_label(gaps: Seq<int>, lo: int, hi: int, required: int)
    requires
        0 <= lo < hi <= gaps.len(),
    ensures
        span(widen(gaps, lo, hi, required), lo, hi) >= required,
{
    let missing = required - span(gaps, lo, hi);
    if missing > 0 {
        lemma_ceil_div(missing, hi - lo);
        let share = ceil_div_spec(missing, hi - lo);
        lemma_span_shifted(gaps, widen(gaps, lo, hi, required), lo, hi, share);
        assert((hi - lo) * share == share * (hi - lo)) by (nonlinear_arith);
    }
}

/// A wider label never leaves a narrower gap: widening is monotone in what
/// the label requires.
pub proof fn widen_grows_with_label(gaps: Seq<int>, lo: int, hi: int, narrow: int, wide: int)
    requires
        narrow <= wide,
    ensures
        forall|i: int|
            0 <= i < gaps.len() ==> #[trigger] widen(gaps, lo, hi, narrow)[i] <= widen(
                gaps,
                lo,
                hi,
                wide,
            )[i],
{
    lemma_widen(gaps, lo, hi, wide);
    let s = span(gaps, lo, hi);
    if narrow - s > 0 && lo < hi {
        let d = hi - lo;
        lemma_ceil_div(narrow - s, d);
        lemma_ceil_div(wide - s, d);
        let a = ceil_div_spec(narrow - s, d);
        let b = ceil_div_spec(wide - s, d);
        assert(a <= b) by (nonlinear_arith)
            requires
                d >= 1,
                a * d < (narrow - s) + d,
                b * d >= wide - s,
                narrow <= wide,
        ;
    }
}

/// One message keeps the number of gaps and shrinks none.
pub proof fn lemma_message_grows_gaps(
    names: Seq<Seq<char>>,
    gaps: Seq<int>,
    message: Message,
    font_size: int,
)
    ensures
        gaps_after_message(names, gaps, message, font_size).len() == gaps.len(),
        forall|i: int|
            0 <= i < gaps.len() ==> #[trigger] gaps_after_message(names, gaps, message, font_size)[i]
                >= gaps[i],
{
    match message_span(names, message) {
        Some((lo, hi)) => {
            lemma_widen(gaps, lo, hi, required_span(message, font_size));
        },
        None => {},
    }
}

/// Messages keep the number of gaps and shrink none: growth adds up.
pub proof fn lemma_messages_grow_gaps(
    names: Seq<Seq<char>>,
    gaps: Seq<int>,
    messages: Seq<Message>,
    font_size: int,
)
    ensures
        gaps_after(names, gaps, messages, font_size).len() == gaps.len(),
        forall|i: int|
            0 <= i < gaps.len() ==> #[trigger] gaps_after(names, gaps, messages, font_size)[i]
                >= gaps[i],
    decreases messages.len(),
{
    if messages.len() > 0 {
        let before = gaps_after(names, gaps, messages.drop_last(), font_size);
        lemma_messages_grow_gaps(names, gaps, messages.drop_last(), font_size);
        lemma_message_grows_gaps(names, before, messages.last(), font_size);
        let after = gaps_after(names, gaps, messages, font_size);
        assert forall|i: int| 0 <= i < gaps.len() implies #[trigger] after[i] >= gaps[i] by {
            assert(gaps_after_message(names, before, messages.last(), font_size)[i] >= before[i]);
            assert(before[i] >= gaps[i]);
        }
    }
}

/// No gap is ever narrower than half of each box beside it plus the minimum
/// spacing, whatever the messages are.
pub proof fn gaps_hold_minimum(
    names: Seq<Seq<char>>,
    widths: Seq<int>,
    messages: Seq<Message>,
    font_size: int,
    i: int,
)
    requires
        widths.len() == names.len(),
        0 <= i < names.len() - 1,
    ensures
        gap_spacings_spec(names, widths, messages, font_size).len() == names.len() - 1,
        gap_spacings_spec(names, widths, messages, font_size)[i] >= widths[i] / 2
            + MIN_PARTICIPANT_SPACING + widths[i + 1] / 2,
{
    let start = initial_gaps(widths, names.len() as int);
    lemma_messages_grow_gaps(names, start, messages, font_size);
    assert(gaps_after(names, start, messages, font_size)[i] >= start[i]);
}

/// Every label fits between the two ends of its arrow: for each message a
/// layout finds room for, the distance between its two participants is at
/// least the width of its label plus the margin. This holds of the final
/// gaps, after all later messages too.
pub proof fn every_label_fits(
    names: Seq<Seq<char>>,
    gaps: Seq<int>,
    messages: Seq<Message>,
    font_size: int,
    j: int,
)
    requires
        gaps.len() == names.len() - 1,
        0 <= j < messages.len(),
        message_span(names, messages[j]).is_some(),
    ensures
        ({
            let (lo, hi) = message_span(names, messages[j]).unwrap();
            &&& 0 <= lo < hi <= gaps.len()
            &&& span(gaps_after(names, gaps, messages, font_size), lo, hi) >= required_span(
                messages[j],
                font_size,
            )
        }),
    decreases messages.len(),
{
    let (lo, hi) = message_span(names, messages[j]).unwrap();
    lemma_first_index(names, messages[j].from@, 0);
    lemma_first_index(names, messages[j].to@, 0);
    let before = gaps_after(names, gaps, messages.drop_last(), font_size);
    lemma_messages_grow_gaps(names, gaps, messages.drop_last(), font_size);
    if j == messages.len() - 1 {
        assert(messages[j] == messages.last());
        widened_span_holds_label(before, lo, hi, required_span(messages[j], font_size));
    } else {
        assert(messages.drop_last()[j] == messages[j]);
        every_label_fits(names, gaps, messages.drop_last(), font_size, j);
        lemma_message_grows_gaps(names, before, messages.last(), font_size);
        lemma_span_monotone(
            before,
            gaps_after_message(names, before, messages.last(), font_size),
            lo,
            hi,
        );
    }
}

/// A self-message changes no gap.
pub proof fn self_message_keeps_gaps(
    names: Seq<Seq<char>>,
    gaps: Seq<int>,
    message: Message,
    font_size: int,
)
    requires
        is_self_message(message),
    ensures
        gaps_after_message(names, gaps, message, font_size) == gaps,
{
}

/// A message that names a participant that the diagram does not have
/// changes no gap.
pub proof fn unknown_participant_keeps_gaps(
    names: Seq<Seq<char>>,
    gaps: Seq<int>,
    message: Message,
    font_size: int,
)
    requires
        first_index(names, message.from@).is_none() || first_index(names, message.to@).is_none(),
    ensures
        gaps_after_message(names, gaps, message, font_size) == gaps,
{
}

/// Self-messages never alter the horizontal spacing: the gaps of a list of
/// messages are the gaps of the same list with its self-messages left out.
pub proof fn self_messages_keep_spacing(
    names: Seq<Seq<char>>,
    gaps: Seq<int>,
    messages: Seq<Message>,
    font_size: int,
)
    ensures
        gaps_after(
            names,
            gaps,
            messages.filter(|m: Message| !is_self_message(m)),
            font_size,
        ) == gaps_after(names, gaps, messages, font_size),
    decreases messages.len(),
{
    reveal(Seq::filter);
    let others = |m: Message| !is_self_message(m);
    if messages.len() > 0 {
        let init = messages.drop_last();
        self_messages_keep_spacing(names, gaps, init, font_size);
        if others(messages.last()) {
            assert(messages.filter(others) == init.filter(others).push(messages.last()));
            assert(init.filter(others).push(messages.last()).drop_last() =~= init.filter(others));
        }
    }
}

/// Neighbouring participants of a layout stand exactly one gap apart, and
/// that gap is at least half of each of their boxes plus the minimum
/// spacing: no two boxes are closer than the minimum spacing. This holds of
/// every pair that stands below the limit of the layout.
pub proof fn neighbours_keep_their_distance(
    layout: Layout,
    diagram: SequenceDiagram,
    font_size: int,
    i: int,
)
    requires
        is_layout_of(layout, diagram, font_size),
        0 <= i < diagram.participants@.len() - 1,
        layout.participants@[i + 1].center_x < LAYOUT_LIMIT,
    ensures
        layout.participants@[i + 1].center_x - layout.participants@[i].center_x == diagram_gaps(
            diagram,
            font_size,
        )[i],
        layout.participants@[i + 1].center_x - layout.participants@[i].center_x
            >= layout.participants@[i].width / 2 + MIN_PARTICIPANT_SPACING + layout.participants@[i
            + 1].width / 2,
{
    let ps = diagram.participants@;
    let names = actor_names(ps);
    let widths = uniform_widths(ps, font_size);
    gaps_hold_minimum(names, widths, diagram.statements@, font_size, i);
    let gaps = diagram_gaps(diagram, font_size);
    let centers = diagram_centers(diagram, font_size);
    lemma_max_from(box_widths(ps, font_size), MIN_PARTICIPANT_WIDTH as int);
    assert(widths[i] == uniform_width(ps, font_size));
    assert(widths[i + 1] == uniform_width(ps, font_size));
    assert(gaps[i] >= 0);
    assert(span(gaps, 0, i + 1) == span(gaps, 0, i) + gaps[i]);
    assert(layout.participants@[i].center_x == centers[i]);
    assert(layout.participants@[i + 1].center_x == centers[i + 1]);
    assert(centers[i] == placed_center(widths, gaps, i));
    assert(centers[i + 1] == placed_center(widths, gaps, i + 1));
    assert(center_at(widths, gaps, i + 1) == center_at(widths, gaps, i) + gaps[i]);
}

/// A message that names a participant that the diagram does not have is
/// passed over: it takes no room between participants, it does not move the
/// cursor, it adds nothing to the extent, and it has no shapes.
pub proof fn unknown_participant_is_passed_over(
    names: Seq<Seq<char>>,
    centers: Seq<int>,
    gaps: Seq<int>,
    message: Message,
    e: Extent,
    y: int,
    theme: Theme,
    font_size: nat,
    font_family: Seq<char>,
    bottom: int,
)
    requires
        first_index(names, message.from@).is_none() || first_index(names, message.to@).is_none(),
    ensures
        placement(names, centers, message) == Placement::Skipped,
        gaps_after_message(names, gaps, message, font_size as int) == gaps,
        advance(placement(names, centers, message)) == 0,
        message_extent(
            e,
            placement(names, centers, message),
            y,
            text_width_spec(message.text@, font_size as int),
        ) == e,
        message_fragments(placement(names, centers, message), y, message, theme, font_size, font_family, bottom)
            == Seq::<Seq<char>>::empty(),
{
    reveal(message_fragments);
}

/// The cursor never moves up: after more messages it stands at least as low
/// as after fewer.
pub proof fn cursor_only_moves_down(
    names: Seq<Seq<char>>,
    centers: Seq<int>,
    messages: Seq<Message>,
    start: int,
    k: int,
)
    requires
        0 <= k <= messages.len(),
    ensures
        start <= cursor_after(names, centers, messages.take(k), start) <= cursor_after(
            names,
            centers,
            messages,
            start,
        ),
        k < messages.len() ==> cursor_after(names, centers, messages.take(k), start) + advance(
            placement(names, centers, messages[k]),
        ) <= cursor_after(names, centers, messages, start),
    decreases messages.len() - k,
{
    if k == messages.len() {
        assert(messages.take(k) =~= messages);
        cursor_starts_at_start(names, centers, messages, start);
    } else {
        cursor_only_moves_down(names, centers, messages, start, k + 1);
        assert(messages.take(k + 1).drop_last() =~= messages.take(k));
        assert(messages.take(k + 1).last() == messages[k]);
        cursor_starts_at_start(names, centers, messages.take(k), start);
    }
}

proof fn cursor_starts_at_start(
    names: Seq<Seq<char>>,
    centers: Seq<int>,
    messages: Seq<Message>,
    start: int,
)
    ensures
        start <= cursor_after(names, centers, messages, start),
    decreases messages.len(),
{
    if messages.len() > 0 {
        cursor_starts_at_start(names, centers, messages.drop_last(), start);
    }
}

/// In a layout whose lower row of boxes stands below the limit of the
/// layout, the loop of every self-message ends above that row, so none is
/// left out of the drawing.
pub proof fn loops_end_above_the_lower_boxes(diagram: SequenceDiagram, font_size: int, k: int)
    requires
        0 <= k < diagram.statements@.len(),
        placement(
            actor_names(diagram.participants@),
            diagram_centers(diagram, font_size),
            diagram.statements@[k],
        ) is SelfLoop,
        diagram_bottom_y(diagram, font_size) < LAYOUT_LIMIT,
    ensures
        cursor_position(
            actor_names(diagram.participants@),
            diagram_centers(diagram, font_size),
            diagram.statements@.take(k),
            first_message_y(uniform_height(diagram.participants@)),
        ) + SELF_MESSAGE_HEIGHT <= diagram_bottom_y(diagram, font_size),
{
    cursor_only_moves_down(
        actor_names(diagram.participants@),
        diagram_centers(diagram, font_size),
        diagram.statements@,
        first_message_y(uniform_height(diagram.participants@)),
        k,
    );
}

/// The widest line of a name is a whole number of tenths of a pixel, and so
/// an even number of units.
proof fn lemma_line_width_is_even(lines: Seq<Seq<char>>, font_size: int)
    ensures
        max_line_width(lines, font_size) % 2 == 0,
    decreases lines.len(),
{
    if lines.len() > 0 {
        lemma_line_width_is_even(lines.drop_last(), font_size);
        let b = base_width(lines.last());
        assert((b * font_size * GLYPH_SCALE) % 2 == 0) by (nonlinear_arith)
            requires
                GLYPH_SCALE == 10,
        ;
    }
}

proof fn lemma_max_from_is_even(values: Seq<int>, floor: int)
    requires
        floor % 2 == 0,
        forall|k: int| 0 <= k < values.len() ==> #[trigger] values[k] % 2 == 0,
    ensures
        max_from(values, floor) % 2 == 0,
    decreases values.len(),
{
    if values.len() > 0 {
        let init = values.drop_last();
        assert forall|k: int| 0 <= k < init.len() implies #[trigger] init[k] % 2 == 0 by {
            assert(init[k] == values[k]);
        }
        lemma_max_from_is_even(init, floor);
        assert(values[values.len() - 1] % 2 == 0);
    }
}

/// The uniform width is an even number of units, so half of it is exact.
pub proof fn uniform_width_is_even(diagram: SequenceDiagram, font_size: int)
    ensures
        uniform_width(diagram.participants@, font_size) % 2 == 0,
{
    let ps = diagram.participants@;
    let widths = box_widths(ps, font_size);
    assert forall|k: int| 0 <= k < widths.len() implies #[trigger] widths[k] % 2 == 0 by {
        lemma_line_width_is_even(participant_lines(ps[k]), font_size);
    }
    lemma_max_from_is_even(widths, MIN_PARTICIPANT_WIDTH as int);
}

/// No two boxes of a layout overlap: between the right edge of each box and
/// the left edge of the next lies at least the minimum spacing. This holds
/// of every pair that stands below the limit of the layout.
pub proof fn boxes_do_not_overlap(layout: Layout, diagram: SequenceDiagram, font_size: int, i: int)
    requires
        is_layout_of(layout, diagram, font_size),
        0 <= i < diagram.participants@.len() - 1,
        layout.participants@[i + 1].center_x < LAYOUT_LIMIT,
    ensures
        layout.participants@[i].left_edge_spec() + layout.participants@[i].width
            + MIN_PARTICIPANT_SPACING <= layout.participants@[i + 1].left_edge_spec(),
{
    neighbours_keep_their_distance(layout, diagram, font_size, i);
    uniform_width_is_even(diagram, font_size);
}

/// A row of boxes never shrinks the extent, and the extent holds the far
/// corner of each box of the row.
proof fn lemma_boxes_extent(
    e: Extent,
    centers: Seq<int>,
    widths: Seq<int>,
    lws: Seq<int>,
    top: int,
    height: int,
    count: int,
    i: int,
)
    requires
        0 <= i < count,
    ensures
        boxes_extent(e, centers, widths, lws, top, height, count).x >= e.x,
        boxes_extent(e, centers, widths, lws, top, height, count).y >= e.y,
        boxes_extent(e, centers, widths, lws, top, height, count).x >= centers[i] - widths[i] / 2
            + widths[i],
        boxes_extent(e, centers, widths, lws, top, height, count).x >= centers[i] + lws[i] / 2,
        boxes_extent(e, centers, widths, lws, top, height, count).y >= top + height,
    decreases count,
{
    if count - 1 > i {
        lemma_boxes_extent(e, centers, widths, lws, top, height, count - 1, i);
    } else {
        lemma_boxes_extent_grows(e, centers, widths, lws, top, height, count - 1);
    }
}

proof fn lemma_boxes_extent_grows(
    e: Extent,
    centers: Seq<int>,
    widths: Seq<int>,
    lws: Seq<int>,
    top: int,
    height: int,
    count: int,
)
    ensures
        boxes_extent(e, centers, widths, lws, top, height, count).x >= e.x,
        boxes_extent(e, centers, widths, lws, top, height, count).y >= e.y,
    decreases count,
{
    if count > 0 {
        lemma_boxes_extent_grows(e, centers, widths, lws, top, height, count - 1);
    }
}

/// Messages never shrink the extent.
proof fn lemma_messages_extent_grows(
    e: Extent,
    names: Seq<Seq<char>>,
    centers: Seq<int>,
    messages: Seq<Message>,
    start: int,
    font_size: int,
)
    ensures
        messages_extent(e, names, centers, messages, start, font_size).x >= e.x,
        messages_extent(e, names, centers, messages, start, font_size).y >= e.y,
    decreases messages.len(),
{
    if messages.len() > 0 {
        lemma_messages_extent_grows(e, names, centers, messages.drop_last(), start, font_size);
    }
}

/// The extent holds every message that is drawn: the arrow from end to end
/// and the whole width of its label, or the loop and its label.
proof fn lemma_messages_extent_holds(
    e: Extent,
    names: Seq<Seq<char>>,
    centers: Seq<int>,
    messages: Seq<Message>,
    start: int,
    font_size: int,
    k: int,
)
    requires
        0 <= k < messages.len(),
        e.x >= 0,
        e.y >= 0,
    ensures
        ({
            let reach = message_extent(
                Extent { x: 0, y: 0 },
                placement(names, centers, messages[k]),
                cursor_position(names, centers, messages.take(k), start),
                label_width(messages[k].text@, font_size),
            );
            let all = messages_extent(e, names, centers, messages, start, font_size);
            placement(names, centers, messages[k]) != Placement::Skipped ==> all.x >= reach.x
                && all.y >= reach.y
        }),
    decreases messages.len(),
{
    let init = messages.drop_last();
    lemma_messages_extent_grows(e, names, centers, init, start, font_size);
    if k == messages.len() - 1 {
        assert(messages.take(k) =~= init);
        assert(messages[k] == messages.last());
    } else {
        lemma_messages_extent_holds(e, names, centers, init, start, font_size, k);
        assert(init[k] == messages[k]);
        assert(init.take(k) =~= messages.take(k));
    }
}

/// Nothing is clipped: the canvas of a layout, which is its extent plus the
/// padding, holds both rows of boxes with the names below them and every
/// message with its label.
pub proof fn extent_holds_the_drawing(diagram: SequenceDiagram, font_size: int)
    ensures
        forall|i: int|
            0 <= i < diagram.participants@.len() ==> {
                let center = #[trigger] diagram_centers(diagram, font_size)[i];
                let width = uniform_width(diagram.participants@, font_size);
                &&& diagram_extent(diagram, font_size).x >= center - width / 2 + width
                &&& diagram_extent(diagram, font_size).x >= center + line_widths(
                    diagram.participants@,
                    font_size,
                )[i] / 2
                &&& diagram_extent(diagram, font_size).y >= diagram_bottom_y(diagram, font_size)
                    + uniform_height(diagram.participants@)
            },
        forall|k: int|
            0 <= k < diagram.statements@.len() ==> {
                let names = actor_names(diagram.participants@);
                let centers = diagram_centers(diagram, font_size);
                let p = placement(names, centers, #[trigger] diagram.statements@[k]);
                let reach = message_extent(
                    Extent { x: 0, y: 0 },
                    p,
                    cursor_position(
                        names,
                        centers,
                        diagram.statements@.take(k),
                        first_message_y(uniform_height(diagram.participants@)),
                    ),
                    label_width(diagram.statements@[k].text@, font_size),
                );
                p != Placement::Skipped ==> diagram_extent(diagram, font_size).x >= reach.x
                    && diagram_extent(diagram, font_size).y >= reach.y
            },
{
    let ps = diagram.participants@;
    let names = actor_names(ps);
    let centers = diagram_centers(diagram, font_size);
    let widths = uniform_widths(ps, font_size);
    let lws = line_widths(ps, font_size);
    let height = uniform_height(ps);
    let count = names.len() as int;
    let start = first_message_y(height);
    let bottom = cursor_position(names, centers, diagram.statements@, start);
    let origin = Extent { x: 0, y: 0 };
    let upper = boxes_extent(origin, centers, widths, lws, PADDING as int, height, count);
    let middle = messages_extent(upper, names, centers, diagram.statements@, start, font_size);
    let all = boxes_extent(middle, centers, widths, lws, bottom, height, count);
    assert(all == diagram_extent(diagram, font_size));
    assert forall|i: int| 0 <= i < ps.len() implies {
        let center = #[trigger] diagram_centers(diagram, font_size)[i];
        let width = uniform_width(ps, font_size);
        &&& all.x >= center - width / 2 + width
        &&& all.x >= center + lws[i] / 2
        &&& all.y >= bottom + height
    } by {
        lemma_boxes_extent(middle, centers, widths, lws, bottom, height, count, i);
        assert(widths[i] == uniform_width(ps, font_size));
    }
    assert forall|k: int| 0 <= k < diagram.statements@.len() implies {
        let p = placement(names, centers, #[trigger] diagram.statements@[k]);
        let reach = message_extent(
            origin,
            p,
            cursor_position(names, centers, diagram.statements@.take(k), start),
            label_width(diagram.statements@[k].text@, font_size),
        );
        p != Placement::Skipped ==> all.x >= reach.x && all.y >= reach.y
    } by {
        lemma_boxes_extent_grows(origin, centers, widths, lws, PADDING as int, height, count);
        lemma_messages_extent_holds(upper, names, centers, diagram.statements@, start, font_size, k);
        lemma_boxes_extent_grows(middle, centers, widths, lws, bottom, height, count);
    }
}

/// The colours of a theme hold no `<`.
proof fn lemma_theme_colors(theme: Theme)
    ensures
        holds_no_tag(background_of(theme)),
        holds_no_tag(ink_of(theme)),
        holds_no_tag(box_fill_of(theme)),
        no_canvas_rect(ink_of(theme)),
        no_canvas_rect(box_fill_of(theme)),
        no_canvas_rect("middle"@),
        no_canvas_rect("start"@),
{
    reveal_strlit("#ffffff");
    reveal_strlit("#1a1a2e");
    reveal_strlit("#333333");
    reveal_strlit("#eaeaea");
    reveal_strlit("#ecf0f1");
    reveal_strlit("#16213e");
    reveal_strlit("middle");
    reveal_strlit("start");
}

proof fn lemma_name_markup(x: int, center_y: int, lines: Seq<Seq<char>>, theme: Theme, font_size: nat, font_family: Seq<char>)
    requires
        no_canvas_rect(font_family),
    ensures
        no_canvas_rect(name_markup(x, center_y, lines, ink_of(theme), font_size, font_family)),
{
    lemma_theme_colors(theme);
    if lines.len() == 1 {
        lemma_text_markup(
            x,
            center_y + NAME_BASELINE_DROP,
            lines[0],
            ink_of(theme),
            font_size,
            font_family,
            "middle"@,
        );
    } else {
        lemma_text_lines_markup(
            x,
            center_y,
            lines,
            ink_of(theme),
            font_size,
            font_family,
            LINE_HEIGHT as int,
            "middle"@,
        );
    }
}

proof fn lemma_participant_fragments(
    center: int,
    width: int,
    lines: Seq<Seq<char>>,
    theme: Theme,
    font_size: nat,
    font_family: Seq<char>,
    height: int,
    bottom: int,
)
    requires
        no_canvas_rect(font_family),
    ensures
        fragments_without_canvas_rect(
            participant_fragments(center, width, lines, theme, font_size, font_family, height, bottom),
        ),
{
    lemma_theme_colors(theme);
    lemma_rect_markup(
        center - width / 2,
        PADDING as int,
        width,
        height,
        box_fill_of(theme),
        ink_of(theme),
    );
    lemma_name_markup(center, PADDING + height / 2, lines, theme, font_size, font_family);
    lemma_line_markup(center, PADDING + height, center, bottom, ink_of(theme), LineStyle::Solid);
    lemma_rect_markup(center - width / 2, bottom, width, height, box_fill_of(theme), ink_of(theme));
    lemma_name_markup(center, bottom + height / 2, lines, theme, font_size, font_family);
}

/// Two lists of fragments that hold no rectangle over the canvas hold none
/// when one follows the other.
proof fn lemma_fragments_joined(a: Seq<Seq<char>>, b: Seq<Seq<char>>)
    requires
        fragments_without_canvas_rect(a),
        fragments_without_canvas_rect(b),
    ensures
        fragments_without_canvas_rect(a + b),
{
    assert forall|k: int| 0 <= k < (a + b).len() implies no_canvas_rect(#[trigger] (a + b)[k]) by {
        if k < a.len() {
            assert((a + b)[k] == a[k]);
        } else {
            assert((a + b)[k] == b[k - a.len()]);
        }
    }
}

proof fn lemma_participants_fragments(
    centers: Seq<int>,
    widths: Seq<int>,
    lines: Seq<Seq<Seq<char>>>,
    theme: Theme,
    font_size: nat,
    font_family: Seq<char>,
    height: int,
    bottom: int,
    count: int,
)
    requires
        no_canvas_rect(font_family),
    ensures
        fragments_without_canvas_rect(
            participants_fragments(centers, widths, lines, theme, font_size, font_family, height, bottom, count),
        ),
    decreases count,
{
    if count > 0 {
        lemma_participants_fragments(
            centers,
            widths,
            lines,
            theme,
            font_size,
            font_family,
            height,
            bottom,
            count - 1,
        );
        lemma_participant_fragments(
            centers[count - 1],
            widths[count - 1],
            lines[count - 1],
            theme,
            font_size,
            font_family,
            height,
            bottom,
        );
        lemma_fragments_joined(
            participants_fragments(
                centers,
                widths,
                lines,
                theme,
                font_size,
                font_family,
                height,
                bottom,
                count - 1,
            ),
            participant_fragments(
                centers[count - 1],
                widths[count - 1],
                lines[count - 1],
                theme,
                font_size,
                font_family,
                height,
                bottom,
            ),
        );
    }
}

proof fn lemma_message_fragments(
    p: Placement,
    y: int,
    message: Message,
    theme: Theme,
    font_size: nat,
    font_family: Seq<char>,
    bottom: int,
)
    requires
        no_canvas_rect(font_family),
    ensures
        fragments_without_canvas_rect(message_fragments(p, y, message, theme, font_size, font_family, bottom)),
{
    reveal(message_fragments);
    lemma_theme_colors(theme);
    match p {
        Placement::Skipped => {},
        Placement::SelfLoop { x } => {
            lemma_self_loop_markup(x, y, ink_of(theme), loop_style(message.arrow_type));
            lemma_text_markup(
                x + SELF_LOOP_TEXT_OFFSET,
                y + SELF_MESSAGE_HEIGHT / 2,
                message.text@,
                ink_of(theme),
                font_size,
                font_family,
                "start"@,
            );
        },
        Placement::Arrow { from_x, to_x } => {
            lemma_arrow_markup(
                from_x,
                y,
                to_x,
                y,
                ink_of(theme),
                arrow_styles(message.arrow_type).0,
                arrow_styles(message.arrow_type).1,
                arrow_styles(message.arrow_type).2,
            );
            lemma_text_markup(
                (from_x + to_x) / 2,
                y - LABEL_RISE,
                message.text@,
                ink_of(theme),
                font_size,
                font_family,
                "middle"@,
            );
        },
    }
}

proof fn lemma_messages_fragments(
    names: Seq<Seq<char>>,
    centers: Seq<int>,
    messages: Seq<Message>,
    start: int,
    theme: Theme,
    font_size: nat,
    font_family: Seq<char>,
    bottom: int,
)
    requires
        no_canvas_rect(font_family),
    ensures
        fragments_without_canvas_rect(
            messages_fragments(names, centers, messages, start, theme, font_size, font_family, bottom),
        ),
    decreases messages.len(),
{
    if messages.len() > 0 {
        let init = messages.drop_last();
        lemma_messages_fragments(names, centers, init, start, theme, font_size, font_family, bottom);
        let p = placement(names, centers, messages.last());
        let y = cursor_position(names, centers, init, start);
        lemma_message_fragments(p, y, messages.last(), theme, font_size, font_family, bottom);
        lemma_fragments_joined(
            messages_fragments(names, centers, init, start, theme, font_size, font_family, bottom),
            message_fragments(p, y, messages.last(), theme, font_size, font_family, bottom),
        );
    }
}

/// No shape of a diagram is a rectangle that fills the canvas, whatever the
/// names and the labels say.
pub proof fn shapes_are_no_background(
    diagram: SequenceDiagram,
    theme: Theme,
    font_size: nat,
    font_family: Seq<char>,
)
    requires
        no_canvas_rect(font_family),
    ensures
        fragments_without_canvas_rect(
            diagram_fragments(diagram, theme, font_size, font_family),
        ),
{
    let participants = diagram.participants@;
    let centers = diagram_centers(diagram, font_size as int);
    let height = uniform_height(participants);
    let bottom = diagram_bottom_y(diagram, font_size as int);
    lemma_participants_fragments(
        centers,
        uniform_widths(participants, font_size as int),
        diagram_lines(diagram),
        theme,
        font_size,
        font_family,
        height,
        bottom,
        participants.len() as int,
    );
    lemma_messages_fragments(
        actor_names(participants),
        centers,
        diagram.statements@,
        first_message_y(height),
        theme,
        font_size,
        font_family,
        bottom,
    );
    lemma_fragments_joined(
        participants_fragments(
            centers,
            uniform_widths(participants, font_size as int),
            diagram_lines(diagram),
            theme,
            font_size,
            font_family,
            height,
            bottom,
            participants.len() as int,
        ),
        messages_fragments(
            actor_names(participants),
            centers,
            diagram.statements@,
            first_message_y(height),
            theme,
            font_size,
            font_family,
            bottom,
        ),
    );
}

/// The image of a diagram has its background once or not at all, provided
/// that the font family, which is written as it is given, holds no such
/// rectangle itself.
///
/// With a transparent background, no rectangle that fills the canvas
/// stands anywhere in the document. With a solid background exactly one
/// does: it stands right behind the opening tag, before every shape, and is
/// filled with the background colour of the theme.
pub proof fn image_has_one_background_or_none(diagram: SequenceDiagram, options: RenderOptions)
    requires
        no_canvas_rect(options.font_family@),
    ensures
        ({
            let document = diagram_document(diagram, options);
            let at = opening_markup(
                canvas_width(diagram, options.font_size as int),
                canvas_height(diagram, options.font_size as int),
            ).len() as int;
            let rect = background_markup(background_of(options.theme));
            &&& options.transparent_bg ==> holds_no_canvas_rect(document)
            &&& !options.transparent_bg ==> forall|i: int|
                canvas_rect_at(document, i) <==> i == at
            &&& !options.transparent_bg ==> at + rect.len() <= document.len()
                && document.subrange(at, at + rect.len()) == rect
        }),
{
    shapes_are_no_background(
        diagram,
        options.theme,
        options.font_size as nat,
        options.font_family@,
    );
    let fragments = diagram_fragments(
        diagram,
        options.theme,
        options.font_size as nat,
        options.font_family@,
    );
    assert forall|k: int| 0 <= k < fragments.len() implies holds_no_canvas_rect(
        #[trigger] fragments[k],
    ) by {
        lemma_holds_none(fragments[k]);
    }
    lemma_theme_colors(options.theme);
    document_has_one_background_or_none(
        canvas_width(diagram, options.font_size as int),
        canvas_height(diagram, options.font_size as int),
        background_of(options.theme),
        options.transparent_bg,
        diagram_fragments(
            diagram,
            options.theme,
            options.font_size as nat,
            options.font_family@,
        ),
    );
}

/// Whether both ends of `message` are participants named in `names`.
pub open spec fn names_known_participants(names: Seq<Seq<char>>, message: Message) -> bool {
    first_index(names, message.from@).is_some() && first_index(names, message.to@).is_some()
}

/// Messages to or from an unknown participant never alter the horizontal
/// spacing: the gaps of a list of messages are the gaps of the same list
/// with those messages left out.
pub proof fn unknown_participants_keep_spacing(
    names: Seq<Seq<char>>,
    gaps: Seq<int>,
    messages: Seq<Message>,
    font_size: int,
)
    ensures
        gaps_after(
            names,
            gaps,
            messages.filter(|m: Message| names_known_participants(names, m)),
            font_size,
        ) == gaps_after(names, gaps, messages, font_size),
    decreases messages.len(),
{
    reveal(Seq::filter);
    let known = |m: Message| names_known_participants(names, m);
    if messages.len() > 0 {
        let init = messages.drop_last();
        unknown_participants_keep_spacing(names, gaps, init, font_size);
        if known(messages.last()) {
            assert(messages.filter(known) == init.filter(known).push(messages.last()));
            assert(init.filter(known).push(messages.last()).drop_last() =~= init.filter(known));
        }
    }
}

/// Messages to or from an unknown participant never move the cursor, add
/// nothing to the extent and have no shapes: cursor, extent and shapes of a
/// list of messages are those of the same list with such messages left out.
pub proof fn unknown_participants_draw_nothing(
    e: Extent,
    names: Seq<Seq<char>>,
    centers: Seq<int>,
    messages: Seq<Message>,
    start: int,
    theme: Theme,
    font_size: nat,
    font_family: Seq<char>,
    bottom: int,
)
    ensures
        ({
            let kept = messages.filter(|m: Message| names_known_participants(names, m));
            &&& cursor_after(names, centers, kept, start) == cursor_after(
                names,
                centers,
                messages,
                start,
            )
            &&& messages_extent(e, names, centers, kept, start, font_size as int)
                == messages_extent(e, names, centers, messages, start, font_size as int)
            &&& messages_fragments(names, centers, kept, start, theme, font_size, font_family, bottom)
                == messages_fragments(
                names,
                centers,
                messages,
                start,
                theme,
                font_size,
                font_family,
                bottom,
            )
        }),
    decreases messages.len(),
{
    reveal(Seq::filter);
    reveal(message_fragments);
    let known = |m: Message| names_known_participants(names, m);
    if messages.len() > 0 {
        let init = messages.drop_last();
        let last = messages.last();
        unknown_participants_draw_nothing(
            e,
            names,
            centers,
            init,
            start,
            theme,
            font_size,
            font_family,
            bottom,
        );
        if known(last) {
            assert(messages.filter(known) == init.filter(known).push(last));
            assert(init.filter(known).push(last).drop_last() =~= init.filter(known));
            assert(init.filter(known).push(last).last() == last);
        } else {
            assert(placement(names, centers, last) == Placement::Skipped);
            let all = messages_fragments(
                names,
                centers,
                init,
                start,
                theme,
                font_size,
                font_family,
                bottom,
            );
            assert(all + Seq::<Seq<char>>::empty() =~= all);
        }
    }
}

/// A diagram with messages to or from unknown participants has the image
/// of the same diagram without them: the same participants at the same
/// places, the same canvas, and the same shapes. Such messages decide
/// nothing.
pub proof fn unknown_participants_change_nothing(
    with: SequenceDiagram,
    without: SequenceDiagram,
    options: RenderOptions,
)
    requires
        without.participants@ == with.participants@,
        without.statements@ == with.statements@.filter(
            |m: Message| names_known_participants(actor_names(with.participants@), m),
        ),
    ensures
        diagram_centers(without, options.font_size as int) == diagram_centers(
            with,
            options.font_size as int,
        ),
        diagram_bottom_y(without, options.font_size as int) == diagram_bottom_y(
            with,
            options.font_size as int,
        ),
        diagram_extent(without, options.font_size as int) == diagram_extent(
            with,
            options.font_size as int,
        ),
        diagram_document(without, options) == diagram_document(with, options),
{
    let fs = options.font_size as int;
    let ps = with.participants@;
    let names = actor_names(ps);
    let widths = uniform_widths(ps, fs);
    let height = uniform_height(ps);
    let start = first_message_y(height);
    unknown_participants_keep_spacing(
        names,
        initial_gaps(widths, names.len() as int),
        with.statements@,
        fs,
    );
    assert(diagram_gaps(without, fs) == diagram_gaps(with, fs));
    assert(diagram_centers(without, fs) =~= diagram_centers(with, fs));
    let centers = diagram_centers(with, fs);
    let upper = boxes_extent(
        Extent { x: 0, y: 0 },
        centers,
        widths,
        line_widths(ps, fs),
        PADDING as int,
        height,
        names.len() as int,
    );
    unknown_participants_draw_nothing(
        upper,
        names,
        centers,
        with.statements@,
        start,
        options.theme,
        options.font_size as nat,
        options.font_family@,
        diagram_bottom_y(with, fs),
    );
    assert(diagram_lines(without) =~= diagram_lines(with));
}

/// A diagram with self-messages has its participants where the same
/// diagram without them has them, in boxes of the same size: self-messages
/// only take room downwards.
pub proof fn self_messages_move_no_participant(
    with: SequenceDiagram,
    without: SequenceDiagram,
    font_size: int,
)
    requires
        without.participants@ == with.participants@,
        without.statements@ == with.statements@.filter(|m: Message| !is_self_message(m)),
    ensures
        diagram_centers(without, font_size) == diagram_centers(with, font_size),
        uniform_width(without.participants@, font_size) == uniform_width(
            with.participants@,
            font_size,
        ),
        uniform_height(without.participants@) == uniform_height(with.participants@),
{
    let ps = with.participants@;
    let names = actor_names(ps);
    self_messages_keep_spacing(
        names,
        initial_gaps(uniform_widths(ps, font_size), names.len() as int),
        with.statements@,
        font_size,
    );
    assert(diagram_gaps(without, font_size) == diagram_gaps(with, font_size));
    assert(diagram_centers(without, font_size) =~= diagram_centers(with, font_size));
}

/// The first participant stands half a box right of the padding.
pub proof fn first_participant_stands_at_the_padding(diagram: SequenceDiagram, font_size: int)
    requires
        diagram.participants@.len() >= 1,
    ensures
        diagram_centers(diagram, font_size)[0] == PADDING + uniform_width(
            diagram.participants@,
            font_size,
        ) / 2,
{
    let ps = diagram.participants@;
    let widths = uniform_widths(ps, font_size);
    lemma_max_from(box_widths(ps, font_size), MIN_PARTICIPANT_WIDTH as int);
    lemma_uniform_width_bounds(ps, font_size);
    assert(widths[0] == uniform_width(ps, font_size));
    assert(span(diagram_gaps(diagram, font_size), 0, 0) == 0);
}

/// Between two participants with one message between them, the gap is the
/// larger of what the two boxes need and what the label needs: it does not
/// change while the label fits, and grows exactly with the label once it
/// does not.
pub proof fn lone_message_sets_the_gap(
    names: Seq<Seq<char>>,
    widths: Seq<int>,
    message: Message,
    font_size: int,
)
    requires
        names.len() == 2,
        widths.len() == 2,
        message_span(names, message) == Some((0int, 1int)),
    ensures
        gap_spacings_spec(names, widths, seq![message], font_size) =~= seq![
            max_int(
                widths[0] / 2 + MIN_PARTICIPANT_SPACING + widths[1] / 2,
                required_span(message, font_size),
            ),
        ],
{
    let start = initial_gaps(widths, 2);
    let messages = seq![message];
    assert(messages.drop_last() =~= Seq::<Message>::empty());
    assert(messages.last() == message);
    assert(gaps_after(names, start, messages, font_size) == gaps_after_message(
        names,
        gaps_after(names, start, messages.drop_last(), font_size),
        message,
        font_size,
    ));
    assert(span(start, 0, 1) == span(start, 0, 0) + start[0]);
    let missing = required_span(message, font_size) - start[0];
    if missing > 0 {
        lemma_ceil_div(missing, 1);
        assert(ceil_div_spec(missing, 1) == missing);
    }
}

/// Among three participants, one message between the first and the third
/// whose label needs more than both gaps have makes both gaps grow, and by
/// the same amount: half of what is missing, rounded up. The two gaps
/// together then hold the label, with less than two units to spare, and
/// where the boxes are equally wide the one in the middle stands halfway.
pub proof fn label_across_two_gaps(
    names: Seq<Seq<char>>,
    widths: Seq<int>,
    message: Message,
    font_size: int,
)
    requires
        names.len() == 3,
        widths.len() == 3,
        message_span(names, message) == Some((0int, 2int)),
        required_span(message, font_size) > initial_gaps(widths, 3)[0] + initial_gaps(
            widths,
            3,
        )[1],
    ensures
        ({
            let before = initial_gaps(widths, 3);
            let after = gap_spacings_spec(names, widths, seq![message], font_size);
            let required = required_span(message, font_size);
            &&& after.len() == 2
            &&& after[0] - before[0] == after[1] - before[1]
            &&& after[0] > before[0]
            &&& required <= after[0] + after[1] < required + 2
        }),
{
    let start = initial_gaps(widths, 3);
    let messages = seq![message];
    let required = required_span(message, font_size);
    assert(messages.drop_last() =~= Seq::<Message>::empty());
    assert(messages.last() == message);
    assert(gaps_after(names, start, messages, font_size) == gaps_after_message(
        names,
        gaps_after(names, start, messages.drop_last(), font_size),
        message,
        font_size,
    ));
    assert(span(start, 0, 1) == span(start, 0, 0) + start[0]);
    assert(span(start, 0, 2) == span(start, 0, 1) + start[1]);
    lemma_ceil_div(required - start[0] - start[1], 2);
}

} // verus!
