//! The shapes of a diagram, each as one self-contained piece of markup.
//!
//! Every function here is a pure function of its arguments. Text content is
//! always escaped; colours and anchors are attribute values that the caller
//! chooses and are written as they are.

use vstd::prelude::*;
use vstd::string::StringExecFns;

use crate::strings::texts;
use crate::svg::escape::{escape_spec, escape_xml};
use crate::svg::format::{
    coord_text, nat_text, push_coord, push_coord_wide, push_nat, WIDE_LIMIT,
};
use crate::svg::heading::{arrow_wings, heading_in_range, wings};
use crate::units::{in_coord_range, UNITS_PER_PX};

verus! {

/// How a line is stroked.
#[derive(Debug, Clone, Copy, PartialEq, Eq, Structural)]
pub enum LineStyle {
    /// An unbroken line.
    Solid,
    /// Dashes of 5 pixels with gaps of 5 pixels.
    Dotted,
}

/// What marks the end of an arrow.
#[derive(Debug, Clone, Copy, PartialEq, Eq, Structural)]
pub enum EndStyle {
    /// Nothing: the line just ends.
    Bare,
    /// A filled triangle.
    Closed,
    /// Two strokes that form a V.
    Open,
    /// Two strokes that form an X.
    Cross,
}

/// Width of the loop of a self-message (40 pixels).
pub const LOOP_WIDTH: i64 = 40 * UNITS_PER_PX;

/// Height of the loop of a self-message (30 pixels).
pub const LOOP_HEIGHT: i64 = 30 * UNITS_PER_PX;

/// Length of the arrowhead that ends the loop (8 pixels).
pub const LOOP_HEAD_LENGTH: i64 = 8 * UNITS_PER_PX;

/// Half the width of the arrowhead that ends the loop (5 pixels).
pub const LOOP_HEAD_HALF_WIDTH: i64 = 5 * UNITS_PER_PX;

/// How far each end of a stroke of a cross lies from the centre, along
/// each axis: 6 / sqrt(2) pixels, in units. A stroke that reaches this far
/// to both sides on both axes is 12 pixels long.
pub const CROSS_REACH: i64 = 594;

/// How far the baseline of a text lies below its visual centre, for each
/// pixel of font size: 0.35 pixels, in units.
pub const BASELINE_SHIFT: i64 = 49;

/// The attribute that makes a stroke dashed, or nothing for a solid one.
pub open spec fn dash_attr(style: LineStyle) -> Seq<char> {
    match style {
        LineStyle::Dotted => " stroke-dasharray=\"5,5\""@,
        LineStyle::Solid => Seq::empty(),
    }
}

/// A `line` element from `(x1, y1)` to `(x2, y2)`.
#[verifier::opaque]
pub open spec fn line_markup(
    x1: int,
    y1: int,
    x2: int,
    y2: int,
    stroke: Seq<char>,
    style: LineStyle,
) -> Seq<char> {
    "<line x1=\""@ + coord_text(x1) + "\" y1=\""@ + coord_text(y1) + "\" x2=\""@ + coord_text(x2)
        + "\" y2=\""@ + coord_text(y2) + "\" stroke=\""@ + stroke + "\" stroke-width=\"1\""@
        + dash_attr(style) + "/>"@
}

/// A `rect` element with rounded corners.
#[verifier::opaque]
pub open spec fn rect_markup(
    x: int,
    y: int,
    width: int,
    height: int,
    fill: Seq<char>,
    stroke: Seq<char>,
) -> Seq<char> {
    "<rect x=\""@ + coord_text(x) + "\" y=\""@ + coord_text(y) + "\" width=\""@ + coord_text(width)
        + "\" height=\""@ + coord_text(height) + "\" fill=\""@ + fill + "\" stroke=\""@ + stroke
        + "\" stroke-width=\"1\" rx=\"4\"/>"@
}

/// A `text` element whose content is `text`, escaped.
#[verifier::opaque]
pub open spec fn text_markup(
    x: int,
    y: int,
    text: Seq<char>,
    fill: Seq<char>,
    font_size: nat,
    font_family: Seq<char>,
    anchor: Seq<char>,
) -> Seq<char> {
    "<text x=\""@ + coord_text(x) + "\" y=\""@ + coord_text(y) + "\" fill=\""@ + fill
        + "\" font-size=\""@ + nat_text(font_size) + "\" font-family=\""@ + font_family
        + "\" text-anchor=\""@ + anchor + "\">"@ + escape_spec(text) + "</text>"@
}

/// The baseline of the first of `count` lines that are centred on
/// `center_y` as a block: half the distance from the first baseline to the
/// last (rounded down) above the centre, and shifted down by 0.35 of the
/// font size.
pub open spec fn first_baseline(center_y: int, count: int, font_size: int, line_height: int) -> int {
    center_y - ((count - 1) * line_height) / 2 + font_size * BASELINE_SHIFT
}

/// One `text` element for each of `lines`, each on its own line of markup;
/// line `k` has its baseline at `start_y + k * line_height`.
pub open spec fn text_lines_markup(
    x: int,
    start_y: int,
    lines: Seq<Seq<char>>,
    fill: Seq<char>,
    font_size: nat,
    font_family: Seq<char>,
    line_height: int,
    anchor: Seq<char>,
) -> Seq<char>
    decreases lines.len(),
{
    if lines.len() == 0 {
        Seq::empty()
    } else if lines.len() == 1 {
        text_markup(x, start_y, lines[0], fill, font_size, font_family, anchor)
    } else {
        text_lines_markup(
            x,
            start_y,
            lines.drop_last(),
            fill,
            font_size,
            font_family,
            line_height,
            anchor,
        )
            + "\n"@ + text_markup(
            x,
            start_y + (lines.len() - 1) * line_height,
            lines.last(),
            fill,
            font_size,
            font_family,
            anchor,
        )
    }
}

/// A block of lines of text, centred on `center_y`.
pub open spec fn multiline_text_markup(
    x: int,
    center_y: int,
    lines: Seq<Seq<char>>,
    fill: Seq<char>,
    font_size: nat,
    font_family: Seq<char>,
    line_height: int,
    anchor: Seq<char>,
) -> Seq<char> {
    text_lines_markup(
        x,
        first_baseline(center_y, lines.len() as int, font_size as int, line_height),
        lines,
        fill,
        font_size,
        font_family,
        line_height,
        anchor,
    )
}

/// The loop of a self-message: a path of two quadratic curves that leaves
/// `(x, y)` to the right and comes back 30 pixels lower, and a small filled
/// arrowhead that points back at the lifeline.
#[verifier::opaque]
pub open spec fn self_loop_markup(x: int, y: int, stroke: Seq<char>, style: LineStyle) -> Seq<char> {
    "<path d=\"M "@ + coord_text(x) + " "@ + coord_text(y) + " Q "@ + coord_text(x + LOOP_WIDTH)
        + " "@ + coord_text(y) + " "@ + coord_text(x + LOOP_WIDTH) + " "@ + coord_text(
        y + LOOP_HEIGHT / 2,
    ) + " Q "@ + coord_text(x + LOOP_WIDTH) + " "@ + coord_text(y + LOOP_HEIGHT) + " "@
        + coord_text(x) + " "@ + coord_text(y + LOOP_HEIGHT) + "\" fill=\"none\" stroke=\""@
        + stroke + "\" stroke-width=\"1\""@ + dash_attr(style) + "/>\n<polygon points=\""@
        + coord_text(x) + ","@ + coord_text(y + LOOP_HEIGHT) + " "@ + coord_text(
        x + LOOP_HEAD_LENGTH,
    ) + ","@ + coord_text(y + LOOP_HEIGHT - LOOP_HEAD_HALF_WIDTH) + " "@ + coord_text(
        x + LOOP_HEAD_LENGTH,
    ) + ","@ + coord_text(y + LOOP_HEIGHT + LOOP_HEAD_HALF_WIDTH) + "\" fill=\""@ + stroke
        + "\"/>"@
}

fn push_dash(out: &mut String, style: LineStyle)
    ensures
        final(out)@ == old(out)@ + dash_attr(style),
{
    match style {
        LineStyle::Dotted => out.append(" stroke-dasharray=\"5,5\""),
        LineStyle::Solid => {
            assert(out@ + Seq::<char>::empty() =~= out@);
        },
    }
}

/// A line from `(x1, y1)` to `(x2, y2)`, one pixel wide, in the colour
/// `stroke`.
pub fn create_line(x1: i64, y1: i64, x2: i64, y2: i64, stroke: &str, style: LineStyle) -> (markup:
    String)
    ensures
        markup@ == line_markup(x1 as int, y1 as int, x2 as int, y2 as int, stroke@, style),
{
    proof {
        reveal(line_markup);
    }
    let mut out = String::from_str("<line x1=\"");
    push_coord(&mut out, x1);
    out.append("\" y1=\"");
    push_coord(&mut out, y1);
    out.append("\" x2=\"");
    push_coord(&mut out, x2);
    out.append("\" y2=\"");
    push_coord(&mut out, y2);
    out.append("\" stroke=\"");
    out.append(stroke);
    out.append("\" stroke-width=\"1\"");
    push_dash(&mut out, style);
    out.append("/>");
    out
}

/// A line from `(x1, y1)` to `(x2, y2)`, dashed if `dashed` is set.
pub fn draw_line(x1: i64, y1: i64, x2: i64, y2: i64, stroke: &str, dashed: bool) -> (markup: String)
    ensures
        markup@ == line_markup(
            x1 as int,
            y1 as int,
            x2 as int,
            y2 as int,
            stroke@,
            if dashed {
                LineStyle::Dotted
            } else {
                LineStyle::Solid
            },
        ),
{
    let style = if dashed {
        LineStyle::Dotted
    } else {
        LineStyle::Solid
    };
    create_line(x1, y1, x2, y2, stroke, style)
}

/// A rectangle with its top left corner at `(x, y)`, filled with `fill` and
/// bordered in `stroke`.
pub fn draw_rect(x: i64, y: i64, width: i64, height: i64, fill: &str, stroke: &str) -> (markup:
    String)
    ensures
        markup@ == rect_markup(x as int, y as int, width as int, height as int, fill@, stroke@),
{
    proof {
        reveal(rect_markup);
    }
    let mut out = String::from_str("<rect x=\"");
    push_coord(&mut out, x);
    out.append("\" y=\"");
    push_coord(&mut out, y);
    out.append("\" width=\"");
    push_coord(&mut out, width);
    out.append("\" height=\"");
    push_coord(&mut out, height);
    out.append("\" fill=\"");
    out.append(fill);
    out.append("\" stroke=\"");
    out.append(stroke);
    out.append("\" stroke-width=\"1\" rx=\"4\"/>");
    out
}

fn text_element(
    x: i64,
    y: i128,
    text: &str,
    fill: &str,
    font_size: u32,
    font_family: &str,
    anchor: &str,
) -> (markup: String)
    requires
        -WIDE_LIMIT <= y <= WIDE_LIMIT,
    ensures
        markup@ == text_markup(
            x as int,
            y as int,
            text@,
            fill@,
            font_size as nat,
            font_family@,
            anchor@,
        ),
{
    proof {
        reveal(text_markup);
    }
    let mut out = String::from_str("<text x=\"");
    push_coord(&mut out, x);
    out.append("\" y=\"");
    push_coord_wide(&mut out, y);
    out.append("\" fill=\"");
    out.append(fill);
    out.append("\" font-size=\"");
    push_nat(&mut out, font_size as u64);
    out.append("\" font-family=\"");
    out.append(font_family);
    out.append("\" text-anchor=\"");
    out.append(anchor);
    out.append("\">");
    let escaped = escape_xml(text);
    out.append(escaped.as_str());
    out.append("</text>");
    out
}

/// One line of text with its baseline at `y`, set in the font family
/// `font_family`, which is written as it is given. `anchor` says which point
/// of the text stands at `x`: `start`, `middle` or `end`.
pub fn draw_text(
    x: i64,
    y: i64,
    text: &str,
    fill: &str,
    font_size: u32,
    font_family: &str,
    anchor: &str,
) -> (markup: String)
    ensures
        markup@ == text_markup(
            x as int,
            y as int,
            text@,
            fill@,
            font_size as nat,
            font_family@,
            anchor@,
        ),
{
    text_element(x, y as i128, text, fill, font_size, font_family, anchor)
}

/// Largest distance from the first baseline of a block of lines to its
/// last that `draw_multiline_text` takes.
pub const BLOCK_LIMIT: i128 = 0x4000_0000_0000_0000_0000_0000;

/// Whether the baselines of `count` lines that are `line_height` apart can
/// all be computed: whether the first and the last are no more than
/// `BLOCK_LIMIT` apart.
pub open spec fn baselines_in_range(count: int, line_height: int) -> bool {
    -BLOCK_LIMIT <= (count - 1) * line_height <= BLOCK_LIMIT
}

/// Half of `v`, rounded down.
fn half_wide(v: i128) -> (r: i128)
    requires
        -WIDE_LIMIT <= v <= WIDE_LIMIT,
    ensures
        r == (v as int) / 2,
{
    if v >= 0 {
        v / 2
    } else {
        -((-v - 1) / 2) - 1
    }
}

/// Several lines of text, centred as a block on `center_y`, with
/// `line_height` from one baseline to the next. No lines give no markup.
pub fn draw_multiline_text(
    x: i64,
    center_y: i64,
    lines: &[String],
    fill: &str,
    font_size: u32,
    font_family: &str,
    line_height: i64,
    anchor: &str,
) -> (markup: String)
    requires
        lines@.len() > 0 ==> baselines_in_range(lines@.len() as int, line_height as int),
    ensures
        markup@ == multiline_text_markup(
            x as int,
            center_y as int,
            texts(lines@),
            fill@,
            font_size as nat,
            font_family@,
            line_height as int,
            anchor@,
        ),
{
    let mut out = String::new();
    if lines.len() == 0 {
        return out;
    }
    let count: usize = lines.len();
    let ghost all = texts(lines@);
    // Text is drawn above its baseline: shift down to centre it visually.
    let baseline_adjustment: i128 = (font_size as i128) * (BASELINE_SHIFT as i128);
    // From the first baseline to the last.
    let total_height: i128 = ((count - 1) as i128) * (line_height as i128);
    let start_y: i128 = (center_y as i128) - half_wide(total_height) + baseline_adjustment;
    assert(start_y == first_baseline(
        center_y as int,
        count as int,
        font_size as int,
        line_height as int,
    ));
    let mut i: usize = 0;
    while i < count
        invariant
            i <= count,
            count == lines@.len(),
            count > 0,
            all == texts(lines@),
            -BLOCK_LIMIT <= (count - 1) * line_height <= BLOCK_LIMIT,
            -BLOCK_LIMIT - 0x1_0000_0000_0000_0000 <= start_y <= BLOCK_LIMIT
                + 0x1_0000_0000_0000_0000,
            out@ == text_lines_markup(
                x as int,
                start_y as int,
                all.take(i as int),
                fill@,
                font_size as nat,
                font_family@,
                line_height as int,
                anchor@,
            ),
        decreases count - i,
    {
        proof {
            assert(all.take(i + 1).drop_last() =~= all.take(i as int));
            assert(all.take(i + 1).last() == lines@[i as int]@);
            assert(all.take(i + 1).len() == i + 1);
            lemma_between(i as int, (count - 1) as int, line_height as int);
        }
        let y: i128 = start_y + (i as i128) * (line_height as i128);
        let element = text_element(x, y, lines[i].as_str(), fill, font_size, font_family, anchor);
        if i == 0 {
            assert(all.take(1)[0] == lines@[0]@);
            assert(out@ + element@ =~= element@);
        } else {
            out.append("\n");
        }
        out.append(element.as_str());
        i = i + 1;
    }
    assert(all.take(count as int) =~= all);
    out
}

/// A multiple of `step` by a count between 0 and `last` lies between 0 and
/// `last * step`.
proof fn lemma_between(i: int, last: int, step: int)
    requires
        0 <= i <= last,
    ensures
        step >= 0 ==> 0 <= i * step <= last * step,
        step <= 0 ==> last * step <= i * step <= 0,
{
    assert(step >= 0 ==> 0 <= i * step <= last * step) by (nonlinear_arith)
        requires
            0 <= i <= last,
    ;
    assert(step <= 0 ==> last * step <= i * step <= 0) by (nonlinear_arith)
        requires
            0 <= i <= last,
    ;
}

/// The loop of a self-message that leaves the lifeline at `(x, y)`.
pub fn create_self_loop(x: i64, y: i64, stroke: &str, line_style: LineStyle) -> (markup: String)
    requires
        in_coord_range(x as int),
        in_coord_range(y as int),
    ensures
        markup@ == self_loop_markup(x as int, y as int, stroke@, line_style),
{
    proof {
        reveal(self_loop_markup);
    }
    let mut out = String::from_str("<path d=\"M ");
    // Start at the lifeline.
    push_coord(&mut out, x);
    out.append(" ");
    push_coord(&mut out, y);
    // Out to the right, then down to the middle of the right side.
    out.append(" Q ");
    push_coord(&mut out, x + LOOP_WIDTH);
    out.append(" ");
    push_coord(&mut out, y);
    out.append(" ");
    push_coord(&mut out, x + LOOP_WIDTH);
    out.append(" ");
    push_coord(&mut out, y + LOOP_HEIGHT / 2);
    // Further down, then back to the lifeline.
    out.append(" Q ");
    push_coord(&mut out, x + LOOP_WIDTH);
    out.append(" ");
    push_coord(&mut out, y + LOOP_HEIGHT);
    out.append(" ");
    push_coord(&mut out, x);
    out.append(" ");
    push_coord(&mut out, y + LOOP_HEIGHT);
    out.append("\" fill=\"none\" stroke=\"");
    out.append(stroke);
    out.append("\" stroke-width=\"1\"");
    push_dash(&mut out, line_style);
    // The arrowhead, pointing left at the end of the path.
    out.append("/>\n<polygon points=\"");
    push_coord(&mut out, x);
    out.append(",");
    push_coord(&mut out, y + LOOP_HEIGHT);
    out.append(" ");
    push_coord(&mut out, x + LOOP_HEAD_LENGTH);
    out.append(",");
    push_coord(&mut out, y + LOOP_HEIGHT - LOOP_HEAD_HALF_WIDTH);
    out.append(" ");
    push_coord(&mut out, x + LOOP_HEAD_LENGTH);
    out.append(",");
    push_coord(&mut out, y + LOOP_HEIGHT + LOOP_HEAD_HALF_WIDTH);
    out.append("\" fill=\"");
    out.append(stroke);
    out.append("\"/>");
    out
}

/// A filled triangle: the tip at `(x, y)` and the two wings behind it.
#[verifier::opaque]
pub open spec fn closed_end_markup(x: int, y: int, dx: int, dy: int, stroke: Seq<char>) -> Seq<
    char,
> {
    let ((ax1, ay1), (ax2, ay2)) = wings(x, y, dx, dy);
    "<polygon points=\""@ + coord_text(x) + ","@ + coord_text(y) + " "@ + coord_text(ax1) + ","@
        + coord_text(ay1) + " "@ + coord_text(ax2) + ","@ + coord_text(ay2) + "\" fill=\""@
        + stroke + "\"/>"@
}

/// A V: one stroke from each wing to the tip at `(x, y)`.
#[verifier::opaque]
pub open spec fn open_end_markup(x: int, y: int, dx: int, dy: int, stroke: Seq<char>) -> Seq<char> {
    let ((ax1, ay1), (ax2, ay2)) = wings(x, y, dx, dy);
    line_markup(ax1, ay1, x, y, stroke, LineStyle::Solid) + "\n"@ + line_markup(
        ax2,
        ay2,
        x,
        y,
        stroke,
        LineStyle::Solid,
    )
}

/// An X centred on `(x, y)`: two strokes of 12 pixels, one falling and one
/// rising, each at half a right angle to the axes.
#[verifier::opaque]
pub open spec fn cross_end_markup(x: int, y: int, stroke: Seq<char>) -> Seq<char> {
    line_markup(
        x - CROSS_REACH,
        y - CROSS_REACH,
        x + CROSS_REACH,
        y + CROSS_REACH,
        stroke,
        LineStyle::Solid,
    ) + "\n"@ + line_markup(
        x - CROSS_REACH,
        y + CROSS_REACH,
        x + CROSS_REACH,
        y - CROSS_REACH,
        stroke,
        LineStyle::Solid,
    )
}

/// The marker of kind `style` at `(x, y)`, at the end of an arrow that
/// points along `(dx, dy)`. A cross looks the same whatever the heading.
pub open spec fn end_markup(
    x: int,
    y: int,
    dx: int,
    dy: int,
    stroke: Seq<char>,
    style: EndStyle,
) -> Seq<char> {
    match style {
        EndStyle::Bare => Seq::empty(),
        EndStyle::Closed => closed_end_markup(x, y, dx, dy, stroke),
        EndStyle::Open => open_end_markup(x, y, dx, dy, stroke),
        EndStyle::Cross => cross_end_markup(x, y, stroke),
    }
}

/// `markup`, and behind it on a line of its own the marker of kind `style`,
/// if that is any marker at all.
pub open spec fn with_end(
    markup: Seq<char>,
    x: int,
    y: int,
    dx: int,
    dy: int,
    stroke: Seq<char>,
    style: EndStyle,
) -> Seq<char> {
    if style == EndStyle::Bare {
        markup
    } else {
        markup + "\n"@ + end_markup(x, y, dx, dy, stroke, style)
    }
}

/// The heading of the marker at the start of an arrow: the reverse of the
/// heading `(dx, dy)` of the arrow. An arrow of no length points right, and
/// its start marker left.
pub open spec fn reverse_heading(dx: int, dy: int) -> (int, int) {
    if dx == 0 && dy == 0 {
        (-1, 0)
    } else {
        (-dx, -dy)
    }
}

/// An arrow from `(x1, y1)` to `(x2, y2)`: the line, then the marker at its
/// end, then the marker at its start, each on a line of its own.
#[verifier::opaque]
pub open spec fn arrow_markup(
    x1: int,
    y1: int,
    x2: int,
    y2: int,
    stroke: Seq<char>,
    line_style: LineStyle,
    start_end: EndStyle,
    end_end: EndStyle,
) -> Seq<char> {
    let (rx, ry) = reverse_heading(x2 - x1, y2 - y1);
    with_end(
        with_end(
            line_markup(x1, y1, x2, y2, stroke, line_style),
            x2,
            y2,
            x2 - x1,
            y2 - y1,
            stroke,
            end_end,
        ),
        x1,
        y1,
        rx,
        ry,
        stroke,
        start_end,
    )
}

fn create_end_closed(x: i64, y: i64, dx: i64, dy: i64, stroke: &str) -> (markup: String)
    requires
        in_coord_range(x as int),
        in_coord_range(y as int),
        heading_in_range(dx as int, dy as int),
    ensures
        markup@ == closed_end_markup(x as int, y as int, dx as int, dy as int, stroke@),
{
    proof {
        reveal(closed_end_markup);
    }
    let ((ax1, ay1), (ax2, ay2)) = arrow_wings(x, y, dx, dy);
    let mut out = String::from_str("<polygon points=\"");
    push_coord(&mut out, x);
    out.append(",");
    push_coord(&mut out, y);
    out.append(" ");
    push_coord(&mut out, ax1);
    out.append(",");
    push_coord(&mut out, ay1);
    out.append(" ");
    push_coord(&mut out, ax2);
    out.append(",");
    push_coord(&mut out, ay2);
    out.append("\" fill=\"");
    out.append(stroke);
    out.append("\"/>");
    out
}

fn create_end_open(x: i64, y: i64, dx: i64, dy: i64, stroke: &str) -> (markup: String)
    requires
        in_coord_range(x as int),
        in_coord_range(y as int),
        heading_in_range(dx as int, dy as int),
    ensures
        markup@ == open_end_markup(x as int, y as int, dx as int, dy as int, stroke@),
{
    proof {
        reveal(open_end_markup);
    }
    let ((ax1, ay1), (ax2, ay2)) = arrow_wings(x, y, dx, dy);
    let mut out = create_line(ax1, ay1, x, y, stroke, LineStyle::Solid);
    out.append("\n");
    let second = create_line(ax2, ay2, x, y, stroke, LineStyle::Solid);
    out.append(second.as_str());
    out
}

fn create_end_cross(x: i64, y: i64, stroke: &str) -> (markup: String)
    requires
        in_coord_range(x as int),
        in_coord_range(y as int),
    ensures
        markup@ == cross_end_markup(x as int, y as int, stroke@),
{
    proof {
        reveal(cross_end_markup);
    }
    let mut out = create_line(
        x - CROSS_REACH,
        y - CROSS_REACH,
        x + CROSS_REACH,
        y + CROSS_REACH,
        stroke,
        LineStyle::Solid,
    );
    out.append("\n");
    let second = create_line(
        x - CROSS_REACH,
        y + CROSS_REACH,
        x + CROSS_REACH,
        y - CROSS_REACH,
        stroke,
        LineStyle::Solid,
    );
    out.append(second.as_str());
    out
}

/// The marker at the end of an arrow: its tip is `(x, y)`, and the arrow
/// points along `(dx, dy)`. `EndStyle::Bare` gives no markup.
pub fn create_end(x: i64, y: i64, dx: i64, dy: i64, stroke: &str, style: EndStyle) -> (markup:
    String)
    requires
        in_coord_range(x as int),
        in_coord_range(y as int),
        heading_in_range(dx as int, dy as int),
    ensures
        markup@ == end_markup(x as int, y as int, dx as int, dy as int, stroke@, style),
{
    match style {
        EndStyle::Bare => String::new(),
        EndStyle::Closed => create_end_closed(x, y, dx, dy, stroke),
        EndStyle::Open => create_end_open(x, y, dx, dy, stroke),
        EndStyle::Cross => create_end_cross(x, y, stroke),
    }
}

fn push_end(
    out: &mut String,
    x: i64,
    y: i64,
    dx: i64,
    dy: i64,
    stroke: &str,
    style: EndStyle,
)
    requires
        in_coord_range(x as int),
        in_coord_range(y as int),
        heading_in_range(dx as int, dy as int),
    ensures
        final(out)@ == with_end(old(out)@, x as int, y as int, dx as int, dy as int, stroke@, style),
{
    match style {
        EndStyle::Bare => {},
        _ => {
            let marker = create_end(x, y, dx, dy, stroke, style);
            out.append("\n");
            out.append(marker.as_str());
        },
    }
}

/// An arrow from `(x1, y1)` to `(x2, y2)`: a line in the style
/// `line_style`, the marker `end_end` at `(x2, y2)`, which points the way
/// the arrow goes, and the marker `start_end` at `(x1, y1)`, which points
/// the other way.
pub fn create_arrow(
    x1: i64,
    y1: i64,
    x2: i64,
    y2: i64,
    stroke: &str,
    line_style: LineStyle,
    start_end: EndStyle,
    end_end: EndStyle,
) -> (markup: String)
    requires
        in_coord_range(x1 as int),
        in_coord_range(y1 as int),
        in_coord_range(x2 as int),
        in_coord_range(y2 as int),
    ensures
        markup@ == arrow_markup(
            x1 as int,
            y1 as int,
            x2 as int,
            y2 as int,
            stroke@,
            line_style,
            start_end,
            end_end,
        ),
{
    proof {
        reveal(arrow_markup);
    }
    let mut out = create_line(x1, y1, x2, y2, stroke, line_style);
    // The way the arrow goes, and the way back.
    let dx: i64 = x2 - x1;
    let dy: i64 = y2 - y1;
    let (rx, ry): (i64, i64) = if dx == 0 && dy == 0 {
        (-1, 0)
    } else {
        (-dx, -dy)
    };
    push_end(&mut out, x2, y2, dx, dy, stroke, end_end);
    push_end(&mut out, x1, y1, rx, ry, stroke, start_end);
    out
}

/// Each stroke of a cross is 12 pixels long, to within a hundredth of a
/// pixel, and has its middle at the point that the cross marks.
pub proof fn cross_strokes_are_twelve_pixels_long(x: int, y: int)
    ensures
        ({
            let across = (x + CROSS_REACH) - (x - CROSS_REACH);
            let down = (y + CROSS_REACH) - (y - CROSS_REACH);
            &&& 1679 * 1679 <= across * across + down * down <= 1681 * 1681
            &&& (x - CROSS_REACH) + (x + CROSS_REACH) == 2 * x
            &&& (y - CROSS_REACH) + (y + CROSS_REACH) == 2 * y
        }),
{
    assert(1188 * 1188 + 1188 * 1188 == 2822688) by (nonlinear_arith);
}

} // verus!
