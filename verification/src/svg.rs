//! Writing SVG: numbers, shapes, and the document around them.

pub mod background;
pub mod builder;
pub mod escape;
pub mod format;
pub mod heading;
pub mod shapes;

pub use builder::SvgBuilder;
pub use escape::escape_xml;
pub use shapes::{
    create_arrow, create_end, create_line, create_self_loop, draw_line, draw_multiline_text,
    draw_rect, draw_text, EndStyle, LineStyle,
};
