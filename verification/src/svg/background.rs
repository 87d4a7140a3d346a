//! Where a rectangle that fills the canvas can stand in a document.
//!
//! The background of a document is a `rect` element whose width and height
//! are all of the canvas. A document holds it once or not at all, as its
//! builder was told, whatever its fragments are, as long as none of them
//! holds such a rectangle itself.
//!
//! The shapes of this library hold none: the only element of theirs that
//! begins `<rect` is written position first, so that none even begins
//! `<rect w`.

use vstd::prelude::*;

use crate::svg::builder::{
    background_markup, content_markup, document_markup, join_fragments, opening_markup,
};
use crate::svg::escape::{escape_spec, escaped_text_is_escaped};
use crate::svg::format::{coord_text, nat_text, thousandths};
use crate::svg::heading::wings;
use crate::svg::shapes::{
    arrow_markup, closed_end_markup, cross_end_markup, dash_attr, end_markup, first_baseline,
    line_markup, multiline_text_markup, open_end_markup, rect_markup, reverse_heading,
    self_loop_markup, text_lines_markup, text_markup, with_end, EndStyle, LineStyle, CROSS_REACH,
    LOOP_HEAD_HALF_WIDTH, LOOP_HEAD_LENGTH, LOOP_HEIGHT, LOOP_WIDTH,
};

verus! {

/// Whether a rectangle that fills the canvas starts at position `i` of
/// `text`: whether `<rect w` stands there.
pub open spec fn starts_canvas_rect(text: Seq<char>, i: int) -> bool {
    &&& 0 <= i
    &&& i + 7 <= text.len()
    &&& text[i] == '<'
    &&& text[i + 1] == 'r'
    &&& text[i + 2] == 'e'
    &&& text[i + 3] == 'c'
    &&& text[i + 4] == 't'
    &&& text[i + 5] == ' '
    &&& text[i + 6] == 'w'
}

/// Whether what follows position `i` within `text` differs from `rect w`.
pub open spec fn differs_from_canvas_rect(text: Seq<char>, i: int) -> bool {
    ||| (i + 1 < text.len() && text[i + 1] != 'r')
    ||| (i + 2 < text.len() && text[i + 2] != 'e')
    ||| (i + 3 < text.len() && text[i + 3] != 'c')
    ||| (i + 4 < text.len() && text[i + 4] != 't')
    ||| (i + 5 < text.len() && text[i + 5] != ' ')
    ||| (i + 6 < text.len() && text[i + 6] != 'w')
}

/// Whether no `<` of `text` starts a rectangle that fills the canvas,
/// whatever text may stand before or behind `text`: each `<` is followed,
/// within `text`, by something else than `rect w`.
pub open spec fn no_canvas_rect(text: Seq<char>) -> bool {
    forall|i: int|
        0 <= i < text.len() && #[trigger] text[i] == '<' ==> differs_from_canvas_rect(text, i)
}

/// Whether `text` holds no `<` at all.
pub open spec fn holds_no_tag(text: Seq<char>) -> bool {
    forall|i: int| 0 <= i < text.len() ==> #[trigger] text[i] != '<'
}

/// Whether in none of `fragments` a `<` can start a rectangle that fills the
/// canvas.
pub open spec fn fragments_without_canvas_rect(fragments: Seq<Seq<char>>) -> bool {
    forall|k: int| 0 <= k < fragments.len() ==> no_canvas_rect(#[trigger] fragments[k])
}

/// Two texts that are free of such rectangles are free of them when joined:
/// none can begin in one and end in the other.
pub proof fn lemma_join(a: Seq<char>, b: Seq<char>)
    requires
        no_canvas_rect(a),
        no_canvas_rect(b),
    ensures
        no_canvas_rect(a + b),
{
    let all = a + b;
    assert forall|i: int| 0 <= i < all.len() && #[trigger] all[i] == '<' implies
        differs_from_canvas_rect(all, i) by {
        if i < a.len() {
            assert(a[i] == '<');
            assert(differs_from_canvas_rect(a, i));
            assert(forall|j: int| 0 <= j < a.len() ==> all[j] == a[j]);
        } else {
            let k = i - a.len();
            assert(b[k] == '<');
            assert(differs_from_canvas_rect(b, k));
            assert(forall|j: int| 0 <= j < b.len() ==> all[a.len() + j] == b[j]);
            assert(all[i + 1] == b[k + 1] || k + 1 >= b.len());
            assert(all[i + 2] == b[k + 2] || k + 2 >= b.len());
            assert(all[i + 3] == b[k + 3] || k + 3 >= b.len());
            assert(all[i + 4] == b[k + 4] || k + 4 >= b.len());
            assert(all[i + 5] == b[k + 5] || k + 5 >= b.len());
            assert(all[i + 6] == b[k + 6] || k + 6 >= b.len());
        }
    }
}

/// A number in decimal holds no `<`.
pub proof fn lemma_nat_text(n: nat)
    ensures
        holds_no_tag(nat_text(n)),
        no_canvas_rect(nat_text(n)),
    decreases n,
{
    if n >= 10 {
        lemma_nat_text(n / 10);
    }
}

/// A length written in pixels holds no `<`.
pub proof fn lemma_coord_text(v: int)
    ensures
        holds_no_tag(coord_text(v)),
        no_canvas_rect(coord_text(v)),
{
    let t = thousandths(v);
    lemma_nat_text((t / 1000) as nat);
}

/// Escaped text holds no `<`.
pub proof fn lemma_escaped_text(text: Seq<char>)
    ensures
        holds_no_tag(escape_spec(text)),
        no_canvas_rect(escape_spec(text)),
{
    escaped_text_is_escaped(text);
}

/// The attribute of a dashed stroke holds no `<`.
pub proof fn lemma_dash_attr(style: LineStyle)
    ensures
        no_canvas_rect(dash_attr(style)),
{
    reveal_strlit(" stroke-dasharray=\"5,5\"");
}

/// A line is no rectangle.
pub proof fn lemma_line_markup(
    x1: int,
    y1: int,
    x2: int,
    y2: int,
    stroke: Seq<char>,
    style: LineStyle,
)
    requires
        no_canvas_rect(stroke),
    ensures
        no_canvas_rect(line_markup(x1, y1, x2, y2, stroke, style)),
{
    reveal(line_markup);
    lemma_coord_text(x1);
    lemma_coord_text(y1);
    lemma_coord_text(x2);
    lemma_coord_text(y2);
    lemma_dash_attr(style);
    reveal_strlit("<line x1=\"");
    reveal_strlit("\" y1=\"");
    reveal_strlit("\" x2=\"");
    reveal_strlit("\" y2=\"");
    reveal_strlit("\" stroke=\"");
    reveal_strlit("\" stroke-width=\"1\"");
    reveal_strlit("/>");
    lemma_join("<line x1=\""@, coord_text(x1));
    let t1 = "<line x1=\""@ + coord_text(x1);
    lemma_join(t1, "\" y1=\""@);
    let t2 = t1 + "\" y1=\""@;
    lemma_join(t2, coord_text(y1));
    let t3 = t2 + coord_text(y1);
    lemma_join(t3, "\" x2=\""@);
    let t4 = t3 + "\" x2=\""@;
    lemma_join(t4, coord_text(x2));
    let t5 = t4 + coord_text(x2);
    lemma_join(t5, "\" y2=\""@);
    let t6 = t5 + "\" y2=\""@;
    lemma_join(t6, coord_text(y2));
    let t7 = t6 + coord_text(y2);
    lemma_join(t7, "\" stroke=\""@);
    let t8 = t7 + "\" stroke=\""@;
    lemma_join(t8, stroke);
    let t9 = t8 + stroke;
    lemma_join(t9, "\" stroke-width=\"1\""@);
    let t10 = t9 + "\" stroke-width=\"1\""@;
    lemma_join(t10, dash_attr(style));
    let t11 = t10 + dash_attr(style);
    lemma_join(t11, "/>"@);
}

/// A box is a rectangle, but none that fills the canvas: it is written
/// position first.
pub proof fn lemma_rect_markup(
    x: int,
    y: int,
    width: int,
    height: int,
    fill: Seq<char>,
    stroke: Seq<char>,
)
    requires
        no_canvas_rect(fill),
        no_canvas_rect(stroke),
    ensures
        no_canvas_rect(rect_markup(x, y, width, height, fill, stroke)),
{
    reveal(rect_markup);
    lemma_coord_text(x);
    lemma_coord_text(y);
    lemma_coord_text(width);
    lemma_coord_text(height);
    reveal_strlit("<rect x=\"");
    reveal_strlit("\" y=\"");
    reveal_strlit("\" width=\"");
    reveal_strlit("\" height=\"");
    reveal_strlit("\" fill=\"");
    reveal_strlit("\" stroke=\"");
    reveal_strlit("\" stroke-width=\"1\" rx=\"4\"/>");
    lemma_join("<rect x=\""@, coord_text(x));
    let t1 = "<rect x=\""@ + coord_text(x);
    lemma_join(t1, "\" y=\""@);
    let t2 = t1 + "\" y=\""@;
    lemma_join(t2, coord_text(y));
    let t3 = t2 + coord_text(y);
    lemma_join(t3, "\" width=\""@);
    let t4 = t3 + "\" width=\""@;
    lemma_join(t4, coord_text(width));
    let t5 = t4 + coord_text(width);
    lemma_join(t5, "\" height=\""@);
    let t6 = t5 + "\" height=\""@;
    lemma_join(t6, coord_text(height));
    let t7 = t6 + coord_text(height);
    lemma_join(t7, "\" fill=\""@);
    let t8 = t7 + "\" fill=\""@;
    lemma_join(t8, fill);
    let t9 = t8 + fill;
    lemma_join(t9, "\" stroke=\""@);
    let t10 = t9 + "\" stroke=\""@;
    lemma_join(t10, stroke);
    let t11 = t10 + stroke;
    lemma_join(t11, "\" stroke-width=\"1\" rx=\"4\"/>"@);
}

/// A text is no rectangle, whatever it says: its content is escaped.
pub proof fn lemma_text_markup(
    x: int,
    y: int,
    text: Seq<char>,
    fill: Seq<char>,
    font_size: nat,
    font_family: Seq<char>,
    anchor: Seq<char>,
)
    requires
        no_canvas_rect(fill),
        no_canvas_rect(font_family),
        no_canvas_rect(anchor),
    ensures
        no_canvas_rect(text_markup(x, y, text, fill, font_size, font_family, anchor)),
{
    reveal(text_markup);
    lemma_coord_text(x);
    lemma_coord_text(y);
    lemma_nat_text(font_size);
    lemma_escaped_text(text);
    reveal_strlit("<text x=\"");
    reveal_strlit("\" y=\"");
    reveal_strlit("\" fill=\"");
    reveal_strlit("\" font-size=\"");
    reveal_strlit("\" font-family=\"");
    reveal_strlit("\" text-anchor=\"");
    reveal_strlit("\">");
    reveal_strlit("</text>");
    lemma_join("<text x=\""@, coord_text(x));
    let t1 = "<text x=\""@ + coord_text(x);
    lemma_join(t1, "\" y=\""@);
    let t2 = t1 + "\" y=\""@;
    lemma_join(t2, coord_text(y));
    let t3 = t2 + coord_text(y);
    lemma_join(t3, "\" fill=\""@);
    let t4 = t3 + "\" fill=\""@;
    lemma_join(t4, fill);
    let t5 = t4 + fill;
    lemma_join(t5, "\" font-size=\""@);
    let t6 = t5 + "\" font-size=\""@;
    lemma_join(t6, nat_text(font_size));
    let t7 = t6 + nat_text(font_size);
    lemma_join(t7, "\" font-family=\""@);
    let t8 = t7 + "\" font-family=\""@;
    lemma_join(t8, font_family);
    let t9 = t8 + font_family;
    lemma_join(t9, "\" text-anchor=\""@);
    let t10 = t9 + "\" text-anchor=\""@;
    lemma_join(t10, anchor);
    let t11 = t10 + anchor;
    lemma_join(t11, "\">"@);
    let t12 = t11 + "\">"@;
    lemma_join(t12, escape_spec(text));
    let t13 = t12 + escape_spec(text);
    lemma_join(t13, "</text>"@);
}

/// Lines of text are no rectangle.
pub proof fn lemma_text_lines_markup(
    x: int,
    y: int,
    lines: Seq<Seq<char>>,
    fill: Seq<char>,
    font_size: nat,
    font_family: Seq<char>,
    line_height: int,
    anchor: Seq<char>,
)
    requires
        no_canvas_rect(fill),
        no_canvas_rect(font_family),
        no_canvas_rect(anchor),
    ensures
        no_canvas_rect(text_lines_markup(x, y, lines, fill, font_size, font_family, line_height, anchor)),
        no_canvas_rect(multiline_text_markup(x, y, lines, fill, font_size, font_family, line_height, anchor)),
{
    lemma_text_lines(
        x,
        first_baseline(y, lines.len() as int, font_size as int, line_height),
        lines,
        fill,
        font_size,
        font_family,
        line_height,
        anchor,
    );
    lemma_text_lines(x, y, lines, fill, font_size, font_family, line_height, anchor);
}

proof fn lemma_text_lines(
    x: int,
    start_y: int,
    lines: Seq<Seq<char>>,
    fill: Seq<char>,
    font_size: nat,
    font_family: Seq<char>,
    line_height: int,
    anchor: Seq<char>,
)
    requires
        no_canvas_rect(fill),
        no_canvas_rect(font_family),
        no_canvas_rect(anchor),
    ensures
        no_canvas_rect(text_lines_markup(x, start_y, lines, fill, font_size, font_family, line_height, anchor)),
    decreases lines.len(),
{
    if lines.len() == 1 {
        lemma_text_markup(x, start_y, lines[0], fill, font_size, font_family, anchor);
    } else if lines.len() > 1 {
        let head = text_lines_markup(
            x,
            start_y,
            lines.drop_last(),
            fill,
            font_size,
            font_family,
            line_height,
            anchor,
        );
        let last = text_markup(
            x,
            start_y + (lines.len() - 1) * line_height,
            lines.last(),
            fill,
            font_size,
            font_family,
            anchor,
        );
        lemma_text_lines(x, start_y, lines.drop_last(), fill, font_size, font_family, line_height, anchor);
        lemma_text_markup(
            x,
            start_y + (lines.len() - 1) * line_height,
            lines.last(),
            fill,
            font_size,
            font_family,
            anchor,
        );
        reveal_strlit("\n");
        lemma_join(head, "\n"@);
        lemma_join(head + "\n"@, last);
    }
}

/// The path of the loop of a self-message, without the end of its tag.
spec fn loop_path(x: int, y: int, stroke: Seq<char>, style: LineStyle) -> Seq<char> {
    "<path d=\"M "@ + coord_text(x) + " "@ + coord_text(y) + " Q "@ + coord_text(x + LOOP_WIDTH) + " "@ + coord_text(y) + " "@ + coord_text(x + LOOP_WIDTH) + " "@ + coord_text(y + LOOP_HEIGHT / 2) + " Q "@ + coord_text(x + LOOP_WIDTH) + " "@ + coord_text(y + LOOP_HEIGHT) + " "@ + coord_text(x) + " "@ + coord_text(y + LOOP_HEIGHT) + "\" fill=\"none\" stroke=\""@ + stroke + "\" stroke-width=\"1\""@ + dash_attr(style)
}

proof fn lemma_loop_path(x: int, y: int, stroke: Seq<char>, style: LineStyle)
    requires
        no_canvas_rect(stroke),
    ensures
        no_canvas_rect(loop_path(x, y, stroke, style)),
{
    lemma_coord_text(x);
    lemma_coord_text(y);
    lemma_coord_text(x + LOOP_WIDTH);
    lemma_coord_text(y + LOOP_HEIGHT / 2);
    lemma_coord_text(y + LOOP_HEIGHT);
    lemma_dash_attr(style);
    reveal_strlit("<path d=\"M ");
    reveal_strlit(" ");
    reveal_strlit(" Q ");
    reveal_strlit("\" fill=\"none\" stroke=\"");
    reveal_strlit("\" stroke-width=\"1\"");
    lemma_join("<path d=\"M "@, coord_text(x));
    let t1 = "<path d=\"M "@ + coord_text(x);
    lemma_join(t1, " "@);
    let t2 = t1 + " "@;
    lemma_join(t2, coord_text(y));
    let t3 = t2 + coord_text(y);
    lemma_join(t3, " Q "@);
    let t4 = t3 + " Q "@;
    lemma_join(t4, coord_text(x + LOOP_WIDTH));
    let t5 = t4 + coord_text(x + LOOP_WIDTH);
    lemma_join(t5, " "@);
    let t6 = t5 + " "@;
    lemma_join(t6, coord_text(y));
    let t7 = t6 + coord_text(y);
    lemma_join(t7, " "@);
    let t8 = t7 + " "@;
    lemma_join(t8, coord_text(x + LOOP_WIDTH));
    let t9 = t8 + coord_text(x + LOOP_WIDTH);
    lemma_join(t9, " "@);
    let t10 = t9 + " "@;
    lemma_join(t10, coord_text(y + LOOP_HEIGHT / 2));
    let t11 = t10 + coord_text(y + LOOP_HEIGHT / 2);
    lemma_join(t11, " Q "@);
    let t12 = t11 + " Q "@;
    lemma_join(t12, coord_text(x + LOOP_WIDTH));
    let t13 = t12 + coord_text(x + LOOP_WIDTH);
    lemma_join(t13, " "@);
    let t14 = t13 + " "@;
    lemma_join(t14, coord_text(y + LOOP_HEIGHT));
    let t15 = t14 + coord_text(y + LOOP_HEIGHT);
    lemma_join(t15, " "@);
    let t16 = t15 + " "@;
    lemma_join(t16, coord_text(x));
    let t17 = t16 + coord_text(x);
    lemma_join(t17, " "@);
    let t18 = t17 + " "@;
    lemma_join(t18, coord_text(y + LOOP_HEIGHT));
    let t19 = t18 + coord_text(y + LOOP_HEIGHT);
    lemma_join(t19, "\" fill=\"none\" stroke=\""@);
    let t20 = t19 + "\" fill=\"none\" stroke=\""@;
    lemma_join(t20, stroke);
    let t21 = t20 + stroke;
    lemma_join(t21, "\" stroke-width=\"1\""@);
    let t22 = t21 + "\" stroke-width=\"1\""@;
    lemma_join(t22, dash_attr(style));
}

proof fn lemma_loop_head(prefix: Seq<char>, x: int, y: int, stroke: Seq<char>)
    requires
        no_canvas_rect(prefix),
        no_canvas_rect(stroke),
    ensures
        no_canvas_rect(
            prefix + "/>\n<polygon points=\""@ + coord_text(x) + ","@ + coord_text(y + LOOP_HEIGHT) + " "@ + coord_text(x + LOOP_HEAD_LENGTH) + ","@ + coord_text(y + LOOP_HEIGHT - LOOP_HEAD_HALF_WIDTH) + " "@ + coord_text(x + LOOP_HEAD_LENGTH) + ","@ + coord_text(y + LOOP_HEIGHT + LOOP_HEAD_HALF_WIDTH) + "\" fill=\""@ + stroke + "\"/>"@,
        ),
{
    lemma_coord_text(x);
    lemma_coord_text(y + LOOP_HEIGHT);
    lemma_coord_text(x + LOOP_HEAD_LENGTH);
    lemma_coord_text(y + LOOP_HEIGHT - LOOP_HEAD_HALF_WIDTH);
    lemma_coord_text(y + LOOP_HEIGHT + LOOP_HEAD_HALF_WIDTH);
    reveal_strlit("/>\n<polygon points=\"");
    reveal_strlit(",");
    reveal_strlit(" ");
    reveal_strlit("\" fill=\"");
    reveal_strlit("\"/>");
    lemma_join(prefix, "/>\n<polygon points=\""@);
    let t1 = prefix + "/>\n<polygon points=\""@;
    lemma_join(t1, coord_text(x));
    let t2 = t1 + coord_text(x);
    lemma_join(t2, ","@);
    let t3 = t2 + ","@;
    lemma_join(t3, coord_text(y + LOOP_HEIGHT));
    let t4 = t3 + coord_text(y + LOOP_HEIGHT);
    lemma_join(t4, " "@);
    let t5 = t4 + " "@;
    lemma_join(t5, coord_text(x + LOOP_HEAD_LENGTH));
    let t6 = t5 + coord_text(x + LOOP_HEAD_LENGTH);
    lemma_join(t6, ","@);
    let t7 = t6 + ","@;
    lemma_join(t7, coord_text(y + LOOP_HEIGHT - LOOP_HEAD_HALF_WIDTH));
    let t8 = t7 + coord_text(y + LOOP_HEIGHT - LOOP_HEAD_HALF_WIDTH);
    lemma_join(t8, " "@);
    let t9 = t8 + " "@;
    lemma_join(t9, coord_text(x + LOOP_HEAD_LENGTH));
    let t10 = t9 + coord_text(x + LOOP_HEAD_LENGTH);
    lemma_join(t10, ","@);
    let t11 = t10 + ","@;
    lemma_join(t11, coord_text(y + LOOP_HEIGHT + LOOP_HEAD_HALF_WIDTH));
    let t12 = t11 + coord_text(y + LOOP_HEIGHT + LOOP_HEAD_HALF_WIDTH);
    lemma_join(t12, "\" fill=\""@);
    let t13 = t12 + "\" fill=\""@;
    lemma_join(t13, stroke);
    let t14 = t13 + stroke;
    lemma_join(t14, "\"/>"@);
}

/// The loop of a self-message is no rectangle.
pub proof fn lemma_self_loop_markup(x: int, y: int, stroke: Seq<char>, style: LineStyle)
    requires
        no_canvas_rect(stroke),
    ensures
        no_canvas_rect(self_loop_markup(x, y, stroke, style)),
{
    reveal(self_loop_markup);
    lemma_loop_path(x, y, stroke, style);
    lemma_loop_head(loop_path(x, y, stroke, style), x, y, stroke);
}

/// No marker at the end of an arrow is a rectangle.
pub proof fn lemma_end_markup(
    x: int,
    y: int,
    dx: int,
    dy: int,
    stroke: Seq<char>,
    style: EndStyle,
)
    requires
        no_canvas_rect(stroke),
    ensures
        no_canvas_rect(end_markup(x, y, dx, dy, stroke, style)),
{
    let ((ax1, ay1), (ax2, ay2)) = wings(x, y, dx, dy);
    reveal_strlit("\n");
    match style {
        EndStyle::Bare => {},
        EndStyle::Closed => {
            lemma_closed_end(x, y, ax1, ay1, ax2, ay2, stroke);
            reveal(closed_end_markup);
        },
        EndStyle::Open => {
            reveal(open_end_markup);
            let first = line_markup(ax1, ay1, x, y, stroke, LineStyle::Solid);
            let second = line_markup(ax2, ay2, x, y, stroke, LineStyle::Solid);
            lemma_line_markup(ax1, ay1, x, y, stroke, LineStyle::Solid);
            lemma_line_markup(ax2, ay2, x, y, stroke, LineStyle::Solid);
            lemma_join(first, "\n"@);
            lemma_join(first + "\n"@, second);
        },
        EndStyle::Cross => {
            reveal(cross_end_markup);
            let first = line_markup(
                x - CROSS_REACH,
                y - CROSS_REACH,
                x + CROSS_REACH,
                y + CROSS_REACH,
                stroke,
                LineStyle::Solid,
            );
            let second = line_markup(
                x - CROSS_REACH,
                y + CROSS_REACH,
                x + CROSS_REACH,
                y - CROSS_REACH,
                stroke,
                LineStyle::Solid,
            );
            lemma_line_markup(
                x - CROSS_REACH,
                y - CROSS_REACH,
                x + CROSS_REACH,
                y + CROSS_REACH,
                stroke,
                LineStyle::Solid,
            );
            lemma_line_markup(
                x - CROSS_REACH,
                y + CROSS_REACH,
                x + CROSS_REACH,
                y - CROSS_REACH,
                stroke,
                LineStyle::Solid,
            );
            lemma_join(first, "\n"@);
            lemma_join(first + "\n"@, second);
        },
    }
}

proof fn lemma_closed_end(
    x: int,
    y: int,
    ax1: int,
    ay1: int,
    ax2: int,
    ay2: int,
    stroke: Seq<char>,
)
    requires
        no_canvas_rect(stroke),
    ensures
        no_canvas_rect(
            "<polygon points=\""@ + coord_text(x) + ","@ + coord_text(y) + " "@ + coord_text(ax1)
                + ","@ + coord_text(ay1) + " "@ + coord_text(ax2) + ","@ + coord_text(ay2)
                + "\" fill=\""@ + stroke + "\"/>"@,
        ),
{
    lemma_coord_text(x);
    lemma_coord_text(y);
    lemma_coord_text(ax1);
    lemma_coord_text(ay1);
    lemma_coord_text(ax2);
    lemma_coord_text(ay2);
    reveal_strlit("<polygon points=\"");
    reveal_strlit(",");
    reveal_strlit(" ");
    reveal_strlit("\" fill=\"");
    reveal_strlit("\"/>");
    lemma_join("<polygon points=\""@, coord_text(x));
    let t1 = "<polygon points=\""@ + coord_text(x);
    lemma_join(t1, ","@);
    let t2 = t1 + ","@;
    lemma_join(t2, coord_text(y));
    let t3 = t2 + coord_text(y);
    lemma_join(t3, " "@);
    let t4 = t3 + " "@;
    lemma_join(t4, coord_text(ax1));
    let t5 = t4 + coord_text(ax1);
    lemma_join(t5, ","@);
    let t6 = t5 + ","@;
    lemma_join(t6, coord_text(ay1));
    let t7 = t6 + coord_text(ay1);
    lemma_join(t7, " "@);
    let t8 = t7 + " "@;
    lemma_join(t8, coord_text(ax2));
    let t9 = t8 + coord_text(ax2);
    lemma_join(t9, ","@);
    let t10 = t9 + ","@;
    lemma_join(t10, coord_text(ay2));
    let t11 = t10 + coord_text(ay2);
    lemma_join(t11, "\" fill=\""@);
    let t12 = t11 + "\" fill=\""@;
    lemma_join(t12, stroke);
    let t13 = t12 + stroke;
    lemma_join(t13, "\"/>"@);
}

/// An arrow is no rectangle.
pub proof fn lemma_arrow_markup(
    x1: int,
    y1: int,
    x2: int,
    y2: int,
    stroke: Seq<char>,
    line_style: LineStyle,
    start_end: EndStyle,
    end_end: EndStyle,
)
    requires
        no_canvas_rect(stroke),
    ensures
        no_canvas_rect(arrow_markup(x1, y1, x2, y2, stroke, line_style, start_end, end_end)),
{
    reveal(arrow_markup);
    reveal_strlit("\n");
    let (rx, ry) = reverse_heading(x2 - x1, y2 - y1);
    let line = line_markup(x1, y1, x2, y2, stroke, line_style);
    lemma_line_markup(x1, y1, x2, y2, stroke, line_style);
    let at_end = end_markup(x2, y2, x2 - x1, y2 - y1, stroke, end_end);
    lemma_end_markup(x2, y2, x2 - x1, y2 - y1, stroke, end_end);
    let with_one = with_end(line, x2, y2, x2 - x1, y2 - y1, stroke, end_end);
    if end_end != EndStyle::Bare {
        lemma_join(line, "\n"@);
        lemma_join(line + "\n"@, at_end);
    }
    let at_start = end_markup(x1, y1, rx, ry, stroke, start_end);
    lemma_end_markup(x1, y1, rx, ry, stroke, start_end);
    if start_end != EndStyle::Bare {
        lemma_join(with_one, "\n"@);
        lemma_join(with_one + "\n"@, at_start);
    }
}

/// The opening tag of a document is no rectangle.
pub proof fn lemma_opening_markup(width: nat, height: nat)
    ensures
        no_canvas_rect(opening_markup(width, height)),
{
    lemma_nat_text(width);
    lemma_nat_text(height);
    reveal_strlit("<svg xmlns=\"http://www.w3.org/2000/svg\" width=\"");
    reveal_strlit("\" height=\"");
    reveal_strlit("\" viewBox=\"0 0 ");
    reveal_strlit(" ");
    reveal_strlit("\">\n  ");
    lemma_join("<svg xmlns=\"http://www.w3.org/2000/svg\" width=\""@, nat_text(width));
    let t1 = "<svg xmlns=\"http://www.w3.org/2000/svg\" width=\""@ + nat_text(width);
    lemma_join(t1, "\" height=\""@);
    let t2 = t1 + "\" height=\""@;
    lemma_join(t2, nat_text(height));
    let t3 = t2 + nat_text(height);
    lemma_join(t3, "\" viewBox=\"0 0 "@);
    let t4 = t3 + "\" viewBox=\"0 0 "@;
    lemma_join(t4, nat_text(width));
    let t5 = t4 + nat_text(width);
    lemma_join(t5, " "@);
    let t6 = t5 + " "@;
    lemma_join(t6, nat_text(height));
    let t7 = t6 + nat_text(height);
    lemma_join(t7, "\">\n  "@);
}

/// The text by which a rectangle that fills the canvas is known: the start
/// of a `rect` element whose width and height are all of the canvas.
pub open spec fn canvas_rect_mark() -> Seq<char> {
    "<rect width=\"100%\" height=\"100%\""@
}

/// Whether a rectangle that fills the canvas stands at position `i` of
/// `text`.
pub open spec fn canvas_rect_at(text: Seq<char>, i: int) -> bool {
    &&& 0 <= i
    &&& i + canvas_rect_mark().len() <= text.len()
    &&& text.subrange(i, i + canvas_rect_mark().len()) == canvas_rect_mark()
}

/// Whether no rectangle that fills the canvas stands anywhere in `text`.
pub open spec fn holds_no_canvas_rect(text: Seq<char>) -> bool {
    forall|i: int| !canvas_rect_at(text, i)
}

/// Whether none of `fragments` holds a rectangle that fills the canvas.
pub open spec fn fragments_hold_no_canvas_rect(fragments: Seq<Seq<char>>) -> bool {
    forall|k: int| 0 <= k < fragments.len() ==> holds_no_canvas_rect(#[trigger] fragments[k])
}

/// Whether `text` ends with what separates two fragments: a line break and
/// two spaces.
pub open spec fn ends_indented(text: Seq<char>) -> bool {
    &&& text.len() >= 3
    &&& text[text.len() - 3] == '\n'
    &&& text[text.len() - 2] == ' '
    &&& text[text.len() - 1] == ' '
}

/// What the mark is made of: it starts with `<rect w`, holds no other `<`,
/// and holds no line break.
proof fn lemma_mark()
    ensures
        canvas_rect_mark().len() == 32,
        starts_canvas_rect(canvas_rect_mark(), 0),
        forall|k: int| 1 <= k < 32 ==> #[trigger] canvas_rect_mark()[k] != '<',
        forall|k: int| 0 <= k < 32 ==> #[trigger] canvas_rect_mark()[k] != '\n',
{
    reveal_strlit("<rect width=\"100%\" height=\"100%\"");
}

/// A text in which no `<` can start such a rectangle holds none.
pub proof fn lemma_holds_none(text: Seq<char>)
    requires
        no_canvas_rect(text),
    ensures
        holds_no_canvas_rect(text),
{
    lemma_mark();
    let mark = canvas_rect_mark();
    assert forall|i: int| !canvas_rect_at(text, i) by {
        if canvas_rect_at(text, i) {
            let found = text.subrange(i, i + 32);
            assert(found[0] == text[i] && found[1] == text[i + 1] && found[2] == text[i + 2]
                && found[3] == text[i + 3] && found[4] == text[i + 4] && found[5] == text[i + 5]
                && found[6] == text[i + 6]);
            assert(text[i] == '<');
            assert(differs_from_canvas_rect(text, i));
        }
    }
}

/// Two texts that hold no such rectangle hold none when the second follows
/// the first behind a line break, or starts with one: no rectangle can
/// begin in one and end in the other, since the mark holds no line break
/// and starts with no space.
pub proof fn lemma_joined_at_line_break(a: Seq<char>, b: Seq<char>)
    requires
        holds_no_canvas_rect(a),
        holds_no_canvas_rect(b),
        ends_indented(a) || (b.len() > 0 ==> b[0] == '\n'),
    ensures
        holds_no_canvas_rect(a + b),
{
    lemma_mark();
    let all = a + b;
    assert forall|i: int| !canvas_rect_at(all, i) by {
        if canvas_rect_at(all, i) {
            let found = all.subrange(i, i + 32);
            if i + 32 <= a.len() {
                assert(a.subrange(i, i + 32) =~= found);
                assert(canvas_rect_at(a, i));
            } else if i >= a.len() {
                assert(b.subrange(i - a.len(), i - a.len() + 32) =~= found);
                assert(canvas_rect_at(b, i - a.len()));
            } else if ends_indented(a) {
                if i <= a.len() - 3 {
                    let k = a.len() - 3 - i;
                    assert(found[k] == a[a.len() - 3]);
                } else {
                    assert(found[0] == a[i]);
                }
            } else {
                let k = a.len() - i;
                assert(found[k] == b[0]);
            }
        }
    }
}

/// Fragments that hold no such rectangle hold none when they are joined and
/// closed.
pub proof fn lemma_join_fragments(fragments: Seq<Seq<char>>)
    requires
        fragments_hold_no_canvas_rect(fragments),
    ensures
        holds_no_canvas_rect(join_fragments(fragments)),
        holds_no_canvas_rect(content_markup(fragments)),
    decreases fragments.len(),
{
    lemma_joined(fragments);
    lemma_mark();
    reveal_strlit("\n</svg>");
    lemma_joined_at_line_break(join_fragments(fragments), "\n</svg>"@);
}

proof fn lemma_joined(fragments: Seq<Seq<char>>)
    requires
        fragments_hold_no_canvas_rect(fragments),
    ensures
        holds_no_canvas_rect(join_fragments(fragments)),
    decreases fragments.len(),
{
    lemma_mark();
    if fragments.len() == 1 {
        assert(holds_no_canvas_rect(fragments[0]));
    } else if fragments.len() > 1 {
        let init = fragments.drop_last();
        assert forall|k: int| 0 <= k < init.len() implies holds_no_canvas_rect(
            #[trigger] init[k],
        ) by {
            assert(init[k] == fragments[k]);
        }
        lemma_joined(init);
        assert(holds_no_canvas_rect(fragments[fragments.len() - 1]));
        reveal_strlit("\n  ");
        let gap = "\n  "@;
        let head = join_fragments(init) + gap;
        lemma_joined_at_line_break(join_fragments(init), gap);
        assert(ends_indented(head)) by {
            assert(head[head.len() - 3] == gap[0]);
            assert(head[head.len() - 2] == gap[1]);
            assert(head[head.len() - 1] == gap[2]);
        }
        lemma_joined_at_line_break(head, fragments.last());
    }
}

/// The opening tag of a document holds no such rectangle and ends with a
/// line break and two spaces.
proof fn lemma_opening(width: nat, height: nat)
    ensures
        holds_no_canvas_rect(opening_markup(width, height)),
        ends_indented(opening_markup(width, height)),
{
    lemma_opening_markup(width, height);
    lemma_holds_none(opening_markup(width, height));
    reveal_strlit("\">\n  ");
    let last = "\">\n  "@;
    let opening = opening_markup(width, height);
    assert(opening[opening.len() - 3] == last[2]);
    assert(opening[opening.len() - 2] == last[3]);
    assert(opening[opening.len() - 1] == last[4]);
}

/// Of three texts in a row, the outer two without such a rectangle, the
/// first ending with a line break and two spaces, and the middle one such a
/// rectangle from its first character on with no other `<` in it, exactly
/// one position holds such a rectangle: the one where the middle text
/// starts.
proof fn lemma_one_canvas_rect(a: Seq<char>, m: Seq<char>, r: Seq<char>)
    requires
        holds_no_canvas_rect(a),
        ends_indented(a),
        holds_no_canvas_rect(r),
        canvas_rect_at(m, 0),
        forall|j: int| 1 <= j < m.len() ==> #[trigger] m[j] != '<',
    ensures
        forall|i: int| canvas_rect_at(a + m + r, i) <==> i == a.len(),
{
    lemma_mark();
    let all = a + m + r;
    let at = a.len() as int;
    assert forall|i: int| canvas_rect_at(all, i) implies i == at by {
        let found = all.subrange(i, i + 32);
        assert(found[0] == all[i]);
        if i + 32 <= at {
            assert(a.subrange(i, i + 32) =~= found);
            assert(canvas_rect_at(a, i));
        } else if i < at {
            if i <= at - 3 {
                let k = at - 3 - i;
                assert(found[k] == a[at - 3]);
            } else {
                assert(found[0] == a[i]);
            }
        } else if i < at + m.len() {
            assert(all[i] == m[i - at]);
        } else {
            let k = i - at - m.len();
            assert(r.subrange(k, k + 32) =~= found);
            assert(canvas_rect_at(r, k));
        }
    }
    assert(canvas_rect_at(all, at)) by {
        assert(all.subrange(at, at + 32) =~= m.subrange(0, 32));
    }
}

/// A document has a background or it has none: nothing else in it is a
/// rectangle that fills the canvas.
///
/// If none of its fragments holds such a rectangle and its background
/// colour holds no `<`, then a document with a transparent background holds
/// no such rectangle anywhere, and a document with a solid background holds
/// exactly one, right behind the opening tag and before every fragment, and
/// that one is filled with the background colour.
pub proof fn document_has_one_background_or_none(
    width: nat,
    height: nat,
    background: Seq<char>,
    transparent: bool,
    fragments: Seq<Seq<char>>,
)
    requires
        fragments_hold_no_canvas_rect(fragments),
        holds_no_tag(background),
    ensures
        ({
            let document = document_markup(width, height, background, transparent, fragments);
            let at = opening_markup(width, height).len() as int;
            let rect = background_markup(background);
            &&& transparent ==> holds_no_canvas_rect(document)
            &&& !transparent ==> forall|i: int| canvas_rect_at(document, i) <==> i == at
            &&& !transparent ==> at + rect.len() <= document.len() && document.subrange(
                at,
                at + rect.len(),
            ) == rect
        }),
{
    let document = document_markup(width, height, background, transparent, fragments);
    let opening = opening_markup(width, height);
    let content = content_markup(fragments);
    lemma_mark();
    lemma_opening(width, height);
    lemma_join_fragments(fragments);
    if transparent {
        lemma_joined_at_line_break(opening, content);
    } else {
        let head = "<rect width=\"100%\" height=\"100%\" fill=\""@;
        let tail = "\"/>"@;
        let gap = "\n  "@;
        reveal_strlit("<rect width=\"100%\" height=\"100%\" fill=\"");
        reveal_strlit("<rect width=\"100%\" height=\"100%\"");
        reveal_strlit("\"/>");
        reveal_strlit("\n  ");
        let rect = background_markup(background);
        let m = head + background + tail;
        assert(rect == m);
        assert(canvas_rect_at(m, 0)) by {
            assert(m.subrange(0, 32) =~= head.subrange(0, 32));
            assert(head.subrange(0, 32) =~= canvas_rect_mark());
        }
        assert forall|j: int| 1 <= j < m.len() implies #[trigger] m[j] != '<' by {
            if j < head.len() {
                assert(m[j] == head[j]);
            } else if j < head.len() + background.len() {
                assert(m[j] == background[j - head.len()]);
            } else {
                assert(m[j] == tail[j - head.len() - background.len()]);
            }
        }
        let rest = gap + content;
        assert(holds_no_canvas_rect(gap));
        assert(ends_indented(gap));
        lemma_joined_at_line_break(gap, content);
        lemma_one_canvas_rect(opening, m, rest);
        assert(document =~= opening + m + rest);
        assert(document.subrange(opening.len() as int, (opening.len() + rect.len()) as int)
            =~= rect);
    }
}

} // verus!
