//! The drawing pass: the shapes of a diagram, in the order in which they
//! are painted.
//!
//! Nothing is measured here. Every position comes from the layout pass, and
//! the messages are walked with the same cursor as there.

use vstd::prelude::*;

use crate::options::{box_fill_of, ink_of, RenderOptions, Theme};
use crate::sequence::constants::{
    LABEL_RISE, LAYOUT_LIMIT, LINE_HEIGHT, MESSAGE_SPACING,
    NAME_BASELINE_DROP, PADDING, SELF_LOOP_TEXT_OFFSET, SELF_MESSAGE_HEIGHT,
};
use crate::sequence::diagram::{ArrowType, Message, SequenceDiagram};
use crate::sequence::placement::{
    advance, cursor_position, find_participant_center, first_message_y, lemma_cursor_bounds,
    participant_in_range, participants_in_range, placement, Placement,
};
use crate::sequence::types::{
    layout_centers, layout_lines, layout_names, layout_widths, ParticipantLayout,
};
use crate::strings::{same_text, texts};
use crate::svg::builder::SvgBuilder;
use crate::svg::shapes::{
    arrow_markup, create_arrow, create_line, create_self_loop, draw_multiline_text, draw_rect,
    draw_text, line_markup, multiline_text_markup, rect_markup, self_loop_markup, text_markup,
    EndStyle, LineStyle,
};
use crate::units::{add_capped, half};

verus! {

/// How each kind of arrow is drawn: the style of its line, the marker at
/// its start and the marker at its end.
pub open spec fn arrow_styles(arrow_type: ArrowType) -> (LineStyle, EndStyle, EndStyle) {
    match arrow_type {
        ArrowType::SolidOpen => (LineStyle::Solid, EndStyle::Bare, EndStyle::Bare),
        ArrowType::SolidClosed => (LineStyle::Solid, EndStyle::Bare, EndStyle::Closed),
        ArrowType::Cross => (LineStyle::Solid, EndStyle::Bare, EndStyle::Cross),
        ArrowType::Point => (LineStyle::Solid, EndStyle::Bare, EndStyle::Open),
        ArrowType::BiDirectionalSolid => (LineStyle::Solid, EndStyle::Closed, EndStyle::Closed),
        ArrowType::DottedOpen => (LineStyle::Dotted, EndStyle::Bare, EndStyle::Bare),
        ArrowType::DottedClosed => (LineStyle::Dotted, EndStyle::Bare, EndStyle::Closed),
        ArrowType::BiDirectionalDotted => (LineStyle::Dotted, EndStyle::Closed, EndStyle::Closed),
    }
}

/// The style of the loop of a self-message: dotted for the dotted kinds of
/// arrow, solid for the others.
pub open spec fn loop_style(arrow_type: ArrowType) -> LineStyle {
    if arrow_styles(arrow_type).0 == LineStyle::Dotted {
        LineStyle::Dotted
    } else {
        LineStyle::Solid
    }
}

/// How an arrow of kind `arrow_type` is drawn: the style of its line, the
/// marker at its start and the marker at its end.
pub fn arrow_type_to_styles(arrow_type: &ArrowType) -> (styles: (LineStyle, EndStyle, EndStyle))
    ensures
        styles == arrow_styles(*arrow_type),
{
    match arrow_type {
        ArrowType::SolidOpen => (LineStyle::Solid, EndStyle::Bare, EndStyle::Bare),
        ArrowType::SolidClosed => (LineStyle::Solid, EndStyle::Bare, EndStyle::Closed),
        ArrowType::Cross => (LineStyle::Solid, EndStyle::Bare, EndStyle::Cross),
        ArrowType::Point => (LineStyle::Solid, EndStyle::Bare, EndStyle::Open),
        ArrowType::BiDirectionalSolid => (LineStyle::Solid, EndStyle::Closed, EndStyle::Closed),
        ArrowType::DottedOpen => (LineStyle::Dotted, EndStyle::Bare, EndStyle::Bare),
        ArrowType::DottedClosed => (LineStyle::Dotted, EndStyle::Bare, EndStyle::Closed),
        ArrowType::BiDirectionalDotted => (LineStyle::Dotted, EndStyle::Closed, EndStyle::Closed),
    }
}

/// Whether an arrow of kind `arrow_type` has a dotted line.
pub fn is_dotted_arrow(arrow_type: &ArrowType) -> (dotted: bool)
    ensures
        dotted == (arrow_styles(*arrow_type).0 == LineStyle::Dotted),
{
    match arrow_type {
        ArrowType::DottedOpen | ArrowType::DottedClosed | ArrowType::BiDirectionalDotted => true,
        _ => false,
    }
}

/// The name in a box whose middle is `(x, center_y)`: a single line sits
/// with its baseline a little below the middle; any other number of lines
/// is centred as a block.
pub open spec fn name_markup(
    x: int,
    center_y: int,
    lines: Seq<Seq<char>>,
    fill: Seq<char>,
    font_size: nat,
    font_family: Seq<char>,
) -> Seq<char> {
    if lines.len() == 1 {
        text_markup(
            x,
            center_y + NAME_BASELINE_DROP,
            lines[0],
            fill,
            font_size,
            font_family,
            "middle"@,
        )
    } else {
        multiline_text_markup(
            x,
            center_y,
            lines,
            fill,
            font_size,
            font_family,
            LINE_HEIGHT as int,
            "middle"@,
        )
    }
}

/// The five shapes of one participant, in the order in which they are
/// painted: the upper box, the name in it, the lifeline from the upper box
/// down to the lower one, the lower box, and the name in it.
pub open spec fn participant_fragments(
    center: int,
    width: int,
    lines: Seq<Seq<char>>,
    theme: Theme,
    font_size: nat,
    font_family: Seq<char>,
    height: int,
    bottom: int,
) -> Seq<Seq<char>> {
    seq![
        rect_markup(
            center - width / 2,
            PADDING as int,
            width,
            height,
            box_fill_of(theme),
            ink_of(theme),
        ),
        name_markup(center, PADDING + height / 2, lines, ink_of(theme), font_size, font_family),
        line_markup(center, PADDING + height, center, bottom, ink_of(theme), LineStyle::Solid),
        rect_markup(center - width / 2, bottom, width, height, box_fill_of(theme), ink_of(theme)),
        name_markup(center, bottom + height / 2, lines, ink_of(theme), font_size, font_family),
    ]
}

/// The shapes of the first `count` participants, leftmost first.
pub open spec fn participants_fragments(
    centers: Seq<int>,
    widths: Seq<int>,
    lines: Seq<Seq<Seq<char>>>,
    theme: Theme,
    font_size: nat,
    font_family: Seq<char>,
    height: int,
    bottom: int,
    count: int,
) -> Seq<Seq<char>>
    decreases count,
{
    if count <= 0 {
        Seq::empty()
    } else {
        participants_fragments(
            centers,
            widths,
            lines,
            theme,
            font_size,
            font_family,
            height,
            bottom,
            count - 1,
        )
            + participant_fragments(
            centers[count - 1],
            widths[count - 1],
            lines[count - 1],
            theme,
            font_size,
            font_family,
            height,
            bottom,
        )
    }
}

/// The shapes of one message that is placed as `p` at the cursor position
/// `y`.
///
/// A message between two participants is an arrow along `y` and its label,
/// centred between the two ends and a little above the line. A self-message
/// is a loop and its label to the right of it; a loop that would reach below
/// `bottom` is left out altogether. A skipped message has no shapes.
#[verifier::opaque]
pub open spec fn message_fragments(
    p: Placement,
    y: int,
    message: Message,
    theme: Theme,
    font_size: nat,
    font_family: Seq<char>,
    bottom: int,
) -> Seq<Seq<char>> {
    match p {
        Placement::Skipped => Seq::empty(),
        Placement::SelfLoop { x } => if y + SELF_MESSAGE_HEIGHT <= bottom {
            seq![
                self_loop_markup(x, y, ink_of(theme), loop_style(message.arrow_type)),
                text_markup(
                    x + SELF_LOOP_TEXT_OFFSET,
                    y + SELF_MESSAGE_HEIGHT / 2,
                    message.text@,
                    ink_of(theme),
                    font_size,
                    font_family,
                    "start"@,
                ),
            ]
        } else {
            Seq::empty()
        },
        Placement::Arrow { from_x, to_x } => seq![
            arrow_markup(
                from_x,
                y,
                to_x,
                y,
                ink_of(theme),
                arrow_styles(message.arrow_type).0,
                arrow_styles(message.arrow_type).1,
                arrow_styles(message.arrow_type).2,
            ),
            text_markup(
                (from_x + to_x) / 2,
                y - LABEL_RISE,
                message.text@,
                ink_of(theme),
                font_size,
                font_family,
                "middle"@,
            ),
        ],
    }
}

/// The shapes of `messages`, topmost first, the first of them at `start`.
pub open spec fn messages_fragments(
    names: Seq<Seq<char>>,
    centers: Seq<int>,
    messages: Seq<Message>,
    start: int,
    theme: Theme,
    font_size: nat,
    font_family: Seq<char>,
    bottom: int,
) -> Seq<Seq<char>>
    decreases messages.len(),
{
    if messages.len() == 0 {
        Seq::empty()
    } else {
        messages_fragments(
            names,
            centers,
            messages.drop_last(),
            start,
            theme,
            font_size,
            font_family,
            bottom,
        )
            + message_fragments(
            placement(names, centers, messages.last()),
            cursor_position(names, centers, messages.drop_last(), start),
            messages.last(),
            theme,
            font_size,
            font_family,
            bottom,
        )
    }
}

fn draw_name(
    builder: &mut SvgBuilder,
    x: i64,
    center_y: i64,
    lines: &Vec<String>,
    fill: &str,
    font_size: u32,
    font_family: &str,
)
    requires
        0 <= center_y <= 2 * LAYOUT_LIMIT,
    ensures
        final(builder).fragments() == old(builder).fragments().push(
            name_markup(
                x as int,
                center_y as int,
                texts(lines@),
                fill@,
                font_size as nat,
                font_family@,
            ),
        ),
        final(builder).width() == old(builder).width(),
        final(builder).height() == old(builder).height(),
        final(builder).palette() == old(builder).palette(),
        final(builder).is_transparent() == old(builder).is_transparent(),
{
    if lines.len() == 1 {
        assert(texts(lines@)[0] == lines@[0]@);
        builder.add_element(
            draw_text(
                x,
                center_y + NAME_BASELINE_DROP,
                lines[0].as_str(),
                fill,
                font_size,
                font_family,
                "middle",
            ),
        );
    } else {
        proof {
            let last = (lines@.len() - 1) * LINE_HEIGHT;
            if lines@.len() > 0 {
                assert(0 <= last <= 0x1_0000_0000_0000_0000 * 2520) by (nonlinear_arith)
                    requires
                        1 <= lines@.len() <= 0xffff_ffff_ffff_ffff,
                        last == (lines@.len() - 1) * LINE_HEIGHT,
                        LINE_HEIGHT == 2520,
                ;
            }
        }
        builder.add_element(
            draw_multiline_text(
                x,
                center_y,
                lines.as_slice(),
                fill,
                font_size,
                font_family,
                LINE_HEIGHT,
                "middle",
            ),
        );
    }
}

/// Draws every participant: per participant the upper box, its name, the
/// lifeline, the lower box and its name.
pub fn draw_participants(
    builder: &mut SvgBuilder,
    participants: &[ParticipantLayout],
    options: &RenderOptions,
    participant_height: i64,
    bottom_box_y: i64,
)
    requires
        participants_in_range(participants@),
        0 <= participant_height <= LAYOUT_LIMIT,
        0 <= bottom_box_y <= LAYOUT_LIMIT,
    ensures
        final(builder).fragments() == old(builder).fragments() + participants_fragments(
            layout_centers(participants@),
            layout_widths(participants@),
            layout_lines(participants@),
            options.theme,
            options.font_size as nat,
            options.font_family@,
            participant_height as int,
            bottom_box_y as int,
            participants@.len() as int,
        ),
        final(builder).width() == old(builder).width(),
        final(builder).height() == old(builder).height(),
        final(builder).palette() == old(builder).palette(),
        final(builder).is_transparent() == old(builder).is_transparent(),
{
    let colors = options.colors();
    let ghost centers = layout_centers(participants@);
    let ghost widths = layout_widths(participants@);
    let ghost lines = layout_lines(participants@);
    let ghost fs = options.font_size as nat;
    let ghost start = builder.fragments();
    let mut i: usize = 0;
    assert(start + Seq::<Seq<char>>::empty() =~= start);
    while i < participants.len()
        invariant
            i <= participants@.len(),
            participants_in_range(participants@),
            0 <= participant_height <= LAYOUT_LIMIT,
            0 <= bottom_box_y <= LAYOUT_LIMIT,
            colors.is_palette_of(options.theme),
            centers == layout_centers(participants@),
            widths == layout_widths(participants@),
            lines == layout_lines(participants@),
            fs == options.font_size as nat,
            builder.fragments() == start + participants_fragments(
                centers,
                widths,
                lines,
                options.theme,
                fs,
                options.font_family@,
                participant_height as int,
                bottom_box_y as int,
                i as int,
            ),
            builder.width() == old(builder).width(),
            builder.height() == old(builder).height(),
            builder.palette() == old(builder).palette(),
            builder.is_transparent() == old(builder).is_transparent(),
        decreases participants@.len() - i,
    {
        let p: &ParticipantLayout = &participants[i];
        let ghost before = builder.fragments();
        proof {
            assert(participant_in_range(participants@[i as int]));
            assert(centers[i as int] == p.center_x);
            assert(widths[i as int] == p.width);
            assert(lines[i as int] == texts(p.lines@));
            assert(texts(p.lines@).len() == p.lines@.len());
        }
        // The upper box and the name in it.
        builder.add_element(
            draw_rect(
                p.left_edge(),
                PADDING,
                p.width,
                participant_height,
                colors.participant_bg.as_str(),
                colors.participant_border.as_str(),
            ),
        );
        let center_y: i64 = PADDING + half(participant_height);
        draw_name(
            builder,
            p.center_x,
            center_y,
            &p.lines,
            colors.text.as_str(),
            options.font_size,
            options.font_family.as_str(),
        );

        // The lifeline, from the upper box down to the lower one.
        let lifeline_start: i64 = PADDING + participant_height;
        let lifeline_end: i64 = bottom_box_y;
        builder.add_element(
            create_line(
                p.center_x,
                lifeline_start,
                p.center_x,
                lifeline_end,
                colors.line.as_str(),
                LineStyle::Solid,
            ),
        );

        // The lower box and the name in it.
        builder.add_element(
            draw_rect(
                p.left_edge(),
                bottom_box_y,
                p.width,
                participant_height,
                colors.participant_bg.as_str(),
                colors.participant_border.as_str(),
            ),
        );
        let bottom_center_y: i64 = bottom_box_y + half(participant_height);
        draw_name(
            builder,
            p.center_x,
            bottom_center_y,
            &p.lines,
            colors.text.as_str(),
            options.font_size,
            options.font_family.as_str(),
        );
        proof {
            let own = participant_fragments(
                p.center_x as int,
                p.width as int,
                texts(p.lines@),
                options.theme,
                fs,
                options.font_family@,
                participant_height as int,
                bottom_box_y as int,
            );
            assert(builder.fragments() =~= before + own);
            let sofar = participants_fragments(
                centers,
                widths,
                lines,
                options.theme,
                fs,
                options.font_family@,
                participant_height as int,
                bottom_box_y as int,
                i as int,
            );
            assert((start + sofar) + own =~= start + (sofar + own));
        }
        i = i + 1;
    }
}

fn draw_message(
    builder: &mut SvgBuilder,
    participants: &[ParticipantLayout],
    msg: &Message,
    options: &RenderOptions,
    message_y: i64,
    bottom_box_y: i64,
) -> (step: i64)
    requires
        participants_in_range(participants@),
        0 <= message_y <= 2 * LAYOUT_LIMIT,
        0 <= bottom_box_y <= LAYOUT_LIMIT,
    ensures
        final(builder).fragments() == old(builder).fragments() + message_fragments(
            placement(layout_names(participants@), layout_centers(participants@), *msg),
            message_y as int,
            *msg,
            options.theme,
            options.font_size as nat,
            options.font_family@,
            bottom_box_y as int,
        ),
        step == advance(
            placement(layout_names(participants@), layout_centers(participants@), *msg),
        ),
        final(builder).width() == old(builder).width(),
        final(builder).height() == old(builder).height(),
        final(builder).palette() == old(builder).palette(),
        final(builder).is_transparent() == old(builder).is_transparent(),
{
    proof {
        reveal(message_fragments);
    }
    let colors = options.colors();
    let ghost before = builder.fragments();
    let ghost own = message_fragments(
        placement(layout_names(participants@), layout_centers(participants@), *msg),
        message_y as int,
        *msg,
        options.theme,
        options.font_size as nat,
        options.font_family@,
        bottom_box_y as int,
    );
    let from_x = find_participant_center(participants, msg.from.as_str());
    let to_x = find_participant_center(participants, msg.to.as_str());
    match (from_x, to_x) {
        (Some(fx), Some(tx)) => {
            if same_text(msg.from.as_str(), msg.to.as_str()) {
                // A self-message: drawn only if its loop ends above the
                // lower boxes.
                if message_y + SELF_MESSAGE_HEIGHT <= bottom_box_y {
                    let line_style = if is_dotted_arrow(&msg.arrow_type) {
                        LineStyle::Dotted
                    } else {
                        LineStyle::Solid
                    };
                    builder.add_element(
                        create_self_loop(fx, message_y, colors.line.as_str(), line_style),
                    );
                    builder.add_element(
                        draw_text(
                            fx + SELF_LOOP_TEXT_OFFSET,
                            message_y + SELF_MESSAGE_HEIGHT / 2,
                            msg.text.as_str(),
                            colors.text.as_str(),
                            options.font_size,
                            options.font_family.as_str(),
                            "start",
                        ),
                    );
                }
                assert(builder.fragments() =~= before + own);
                MESSAGE_SPACING + SELF_MESSAGE_HEIGHT
            } else {
                // A message between two participants.
                let (line_style, start_end, end_end) = arrow_type_to_styles(&msg.arrow_type);
                builder.add_element(
                    create_arrow(
                        fx,
                        message_y,
                        tx,
                        message_y,
                        colors.line.as_str(),
                        line_style,
                        start_end,
                        end_end,
                    ),
                );
                let text_x: i64 = half(fx + tx);
                builder.add_element(
                    draw_text(
                        text_x,
                        message_y - LABEL_RISE,
                        msg.text.as_str(),
                        colors.text.as_str(),
                        options.font_size,
                        options.font_family.as_str(),
                        "middle",
                    ),
                );
                assert(builder.fragments() =~= before + own);
                MESSAGE_SPACING
            }
        },
        _ => {
            assert(before + own =~= before);
            0
        },
    }
}

/// Draws every message, topmost first: an arrow and its label, or for a
/// self-message a loop and its label. The cursor moves exactly as it did in
/// the layout pass, so each message lands where room was made for it. A
/// message that names a participant that the diagram does not have is
/// passed over.
pub fn draw_messages(
    builder: &mut SvgBuilder,
    diagram: &SequenceDiagram,
    participants: &[ParticipantLayout],
    options: &RenderOptions,
    participant_height: i64,
    bottom_box_y: i64,
)
    requires
        participants_in_range(participants@),
        0 <= participant_height <= LAYOUT_LIMIT,
        0 <= bottom_box_y <= LAYOUT_LIMIT,
    ensures
        final(builder).fragments() == old(builder).fragments() + messages_fragments(
            layout_names(participants@),
            layout_centers(participants@),
            diagram.statements@,
            first_message_y(participant_height as int),
            options.theme,
            options.font_size as nat,
            options.font_family@,
            bottom_box_y as int,
        ),
        final(builder).width() == old(builder).width(),
        final(builder).height() == old(builder).height(),
        final(builder).palette() == old(builder).palette(),
        final(builder).is_transparent() == old(builder).is_transparent(),
{
    let ghost names = layout_names(participants@);
    let ghost centers = layout_centers(participants@);
    let ghost fs = options.font_size as nat;
    let ghost begin = first_message_y(participant_height as int);
    let ghost start = builder.fragments();
    let mut message_y: i64 = if participant_height >= LAYOUT_LIMIT - PADDING - MESSAGE_SPACING {
        LAYOUT_LIMIT
    } else {
        PADDING + participant_height + MESSAGE_SPACING
    };
    let mut k: usize = 0;
    assert(start + Seq::<Seq<char>>::empty() =~= start);
    assert(diagram.statements@.take(0) =~= Seq::<Message>::empty());
    while k < diagram.statements.len()
        invariant
            k <= diagram.statements@.len(),
            0 <= message_y <= LAYOUT_LIMIT,
            participants_in_range(participants@),
            0 <= participant_height <= LAYOUT_LIMIT,
            0 <= bottom_box_y <= LAYOUT_LIMIT,
            names == layout_names(participants@),
            centers == layout_centers(participants@),
            fs == options.font_size as nat,
            begin == first_message_y(participant_height as int),
            message_y == cursor_position(
                names,
                centers,
                diagram.statements@.take(k as int),
                begin,
            ),
            builder.fragments() == start + messages_fragments(
                names,
                centers,
                diagram.statements@.take(k as int),
                begin,
                options.theme,
                fs,
                options.font_family@,
                bottom_box_y as int,
            ),
            builder.width() == old(builder).width(),
            builder.height() == old(builder).height(),
            builder.palette() == old(builder).palette(),
            builder.is_transparent() == old(builder).is_transparent(),
        decreases diagram.statements@.len() - k,
    {
        let msg: &Message = &diagram.statements[k];
        let ghost sofar = messages_fragments(
            names,
            centers,
            diagram.statements@.take(k as int),
            begin,
            options.theme,
            fs,
            options.font_family@,
            bottom_box_y as int,
        );
        proof {
            assert(diagram.statements@.take(k + 1).drop_last() =~= diagram.statements@.take(
                k as int,
            ));
            assert(diagram.statements@.take(k + 1).last() == *msg);
            lemma_cursor_bounds(names, centers, diagram.statements@.take(k as int), begin);
        }
        let step: i64 = draw_message(builder, participants, msg, options, message_y, bottom_box_y);
        proof {
            let own = message_fragments(
                placement(names, centers, *msg),
                message_y as int,
                *msg,
                options.theme,
                fs,
                options.font_family@,
                bottom_box_y as int,
            );
            assert((start + sofar) + own =~= start + (sofar + own));
        }
        message_y = add_capped(message_y, step, LAYOUT_LIMIT);
        k = k + 1;
    }
    assert(diagram.statements@.take(diagram.statements@.len() as int) =~= diagram.statements@);
}

} // verus!
