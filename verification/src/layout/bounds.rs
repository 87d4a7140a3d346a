//! The running extent of everything placed so far.

use vstd::prelude::*;

use crate::strings::same_text;
use crate::units::{half, lemma_ceil_div, max_int, max_units, px_ceil, px_ceil_spec, UNITS_PER_PX};

verus! {

/// The largest x and the largest y seen so far, in units.
///
/// Both start at 0 and only ever grow: the tracker covers the rectangle from
/// the origin to the farthest point that was included.
#[derive(Debug, Clone)]
pub struct ContentBounds {
    max_x: i64,
    max_y: i64,
}

/// Right edge of a text that is `text_width` wide and anchored at `x`:
/// a text anchored at its middle reaches half its width (rounded down) to the
/// right, one anchored at its end stops at `x`, and any other anchor is read
/// as `start`.
pub open spec fn text_right_edge(x: int, text_width: int, anchor: Seq<char>) -> int {
    if anchor == "middle"@ {
        x + text_width / 2
    } else if anchor == "end"@ {
        x
    } else {
        x + text_width
    }
}

impl ContentBounds {
    /// The largest x included so far.
    pub closed spec fn max_x(&self) -> int {
        self.max_x as int
    }

    /// The largest y included so far.
    pub closed spec fn max_y(&self) -> int {
        self.max_y as int
    }

    /// A tracker that has seen nothing: both maxima are 0.
    pub fn new() -> (b: Self)
        ensures
            b.max_x() == 0,
            b.max_y() == 0,
    {
        Self { max_x: 0, max_y: 0 }
    }

    /// Grows the bounds to hold the point `(x, y)`.
    pub fn include_point(&mut self, x: i64, y: i64)
        ensures
            final(self).max_x() == max_int(old(self).max_x(), x as int),
            final(self).max_y() == max_int(old(self).max_y(), y as int),
    {
        self.max_x = max_units(self.max_x, x);
        self.max_y = max_units(self.max_y, y);
    }

    /// Grows the bounds to hold the rectangle whose top left corner is
    /// `(x, y)`: its far corner `(x + width, y + height)` is included.
    pub fn include_rect(&mut self, x: i64, y: i64, width: i64, height: i64)
        requires
            i64::MIN <= x + width <= i64::MAX,
            i64::MIN <= y + height <= i64::MAX,
        ensures
            final(self).max_x() == max_int(old(self).max_x(), x + width),
            final(self).max_y() == max_int(old(self).max_y(), y + height),
    {
        self.include_point(x + width, y + height);
    }

    /// Grows the bounds to hold a text on the baseline `y`, `text_width`
    /// wide and anchored at `x` in the way `anchor` says (`start`, `middle`
    /// or `end`).
    pub fn include_text(&mut self, x: i64, y: i64, text_width: i64, anchor: &str)
        requires
            i64::MIN <= text_right_edge(x as int, text_width as int, anchor@) <= i64::MAX,
        ensures
            final(self).max_x() == max_int(
                old(self).max_x(),
                text_right_edge(x as int, text_width as int, anchor@),
            ),
            final(self).max_y() == max_int(old(self).max_y(), y as int),
    {
        let right_edge: i64 = if same_text(anchor, "middle") {
            x + half(text_width)
        } else if same_text(anchor, "end") {
            x
        } else {
            x + text_width
        };
        self.include_point(right_edge, y);
    }

    /// Size of the canvas in whole pixels: each maximum plus `padding`,
    /// rounded up, and held within the range of `u32`.
    pub fn svg_size(&self, padding: i64) -> (size: (u32, u32))
        ensures
            size.0 == px_ceil_spec(self.max_x() + padding),
            size.1 == px_ceil_spec(self.max_y() + padding),
    {
        (padded_px(self.max_x, padding), padded_px(self.max_y, padding))
    }
}

impl Default for ContentBounds {
    fn default() -> (b: Self)
        ensures
            b.max_x() == 0,
            b.max_y() == 0,
    {
        Self::new()
    }
}

fn padded_px(extent: i64, padding: i64) -> (r: u32)
    ensures
        r == px_ceil_spec(extent + padding),
{
    let sum: i128 = (extent as i128) + (padding as i128);
    proof {
        lemma_ceil_div(sum as int, UNITS_PER_PX as int);
    }
    if sum > 0x7fff_ffff_ffff_ffff {
        u32::MAX
    } else if sum < -0x8000_0000_0000_0000 {
        0
    } else {
        px_ceil(sum as i64)
    }
}

} // verus!
