//! The document around the shapes.

use vstd::prelude::*;
use vstd::string::StringExecFns;

use crate::options::ThemeColors;
use crate::strings::texts;
use crate::svg::format::{nat_text, push_nat};

verus! {

/// Collects pieces of markup and writes them out as one SVG document.
///
/// Pieces are kept in the order in which they were added, which is the
/// order in which they are painted: a later piece lies on top of an earlier
/// one. Nothing is reordered, merged or checked.
pub struct SvgBuilder {
    width: u32,
    height: u32,
    elements: Vec<String>,
    colors: ThemeColors,
    transparent: bool,
}

/// `fragments` with a line break and two spaces between each two of them.
pub open spec fn join_fragments(fragments: Seq<Seq<char>>) -> Seq<char>
    decreases fragments.len(),
{
    if fragments.len() == 0 {
        Seq::empty()
    } else if fragments.len() == 1 {
        fragments[0]
    } else {
        join_fragments(fragments.drop_last()) + "\n  "@ + fragments.last()
    }
}

/// The rectangle that fills the whole canvas with `color`.
pub open spec fn background_markup(color: Seq<char>) -> Seq<char> {
    "<rect width=\"100%\" height=\"100%\" fill=\""@ + color + "\"/>"@
}

/// The opening tag of a document of `width` by `height` pixels, and the
/// indentation of what follows.
pub open spec fn opening_markup(width: nat, height: nat) -> Seq<char> {
    "<svg xmlns=\"http://www.w3.org/2000/svg\" width=\""@ + nat_text(width) + "\" height=\""@
        + nat_text(height) + "\" viewBox=\"0 0 "@ + nat_text(width) + " "@ + nat_text(height)
        + "\">\n  "@
}

/// What follows the opening tag: the fragments in their order, and the
/// closing tag.
pub open spec fn content_markup(fragments: Seq<Seq<char>>) -> Seq<char> {
    join_fragments(fragments) + "\n</svg>"@
}

/// A whole document: the opening tag, the background rectangle unless the
/// background is transparent, the fragments, and the closing tag.
pub open spec fn document_markup(
    width: nat,
    height: nat,
    background: Seq<char>,
    transparent: bool,
    fragments: Seq<Seq<char>>,
) -> Seq<char> {
    if transparent {
        opening_markup(width, height) + content_markup(fragments)
    } else {
        opening_markup(width, height) + background_markup(background) + "\n  "@ + content_markup(
            fragments,
        )
    }
}

/// A document with a solid background is the same document with a
/// transparent one, with exactly one thing more: the background rectangle
/// in the background colour, before every fragment.
pub proof fn background_is_the_only_difference(
    width: nat,
    height: nat,
    background: Seq<char>,
    fragments: Seq<Seq<char>>,
)
    ensures
        document_markup(width, height, background, true, fragments) == opening_markup(width, height)
            + content_markup(fragments),
        document_markup(width, height, background, false, fragments) == opening_markup(
            width,
            height,
        ) + (background_markup(background) + "\n  "@) + content_markup(fragments),
{
    let open = opening_markup(width, height);
    let rect = background_markup(background);
    let rest = content_markup(fragments);
    assert((open + rect + "\n  "@) + rest =~= (open + (rect + "\n  "@)) + rest);
}

/// Every document starts with the opening tag of its root element, which
/// declares the SVG namespace, and ends with the closing tag of that
/// element, whatever its fragments are.
pub proof fn document_is_framed(
    width: nat,
    height: nat,
    background: Seq<char>,
    transparent: bool,
    fragments: Seq<Seq<char>>,
)
    ensures
        ({
            let document = document_markup(width, height, background, transparent, fragments);
            let opening = "<svg xmlns=\"http://www.w3.org/2000/svg\" width=\""@;
            let closing = "</svg>"@;
            &&& document.len() >= opening.len() + closing.len()
            &&& document.subrange(0, opening.len() as int) == opening
            &&& document.subrange(document.len() - closing.len(), document.len() as int) == closing
        }),
{
    let document = document_markup(width, height, background, transparent, fragments);
    let opening = "<svg xmlns=\"http://www.w3.org/2000/svg\" width=\""@;
    let closing = "</svg>"@;
    let tail = "\n</svg>"@;
    reveal_strlit("</svg>");
    reveal_strlit("\n</svg>");
    assert(tail.subrange(1, 7) =~= closing);
    let after = nat_text(width) + "\" height=\""@ + nat_text(height) + "\" viewBox=\"0 0 "@
        + nat_text(width) + " "@ + nat_text(height) + "\">\n  "@;
    assert(opening_markup(width, height) =~= opening + after);
    let middle = if transparent {
        after + join_fragments(fragments)
    } else {
        after + background_markup(background) + "\n  "@ + join_fragments(fragments)
    };
    assert(document =~= opening + middle + tail);
    assert(document.subrange(0, opening.len() as int) =~= opening);
    assert(document.subrange(document.len() - closing.len(), document.len() as int) =~= closing);
}

impl SvgBuilder {
    /// The width of the canvas in pixels.
    pub closed spec fn width(&self) -> nat {
        self.width as nat
    }

    /// The height of the canvas in pixels.
    pub closed spec fn height(&self) -> nat {
        self.height as nat
    }

    /// The colours of the theme.
    pub closed spec fn palette(&self) -> ThemeColors {
        self.colors
    }

    /// Whether the background is left out.
    pub closed spec fn is_transparent(&self) -> bool {
        self.transparent
    }

    /// The pieces of markup added so far, in the order in which they were
    /// added.
    pub closed spec fn fragments(&self) -> Seq<Seq<char>> {
        texts(self.elements@)
    }

    /// The document that `to_string` writes.
    pub open spec fn document(&self) -> Seq<char> {
        document_markup(
            self.width(),
            self.height(),
            self.palette().background@,
            self.is_transparent(),
            self.fragments(),
        )
    }

    /// An empty document of `width` by `height` pixels in the colours
    /// `colors`. If `transparent` is set, it will have no background.
    pub fn new(width: u32, height: u32, colors: ThemeColors, transparent: bool) -> (builder: Self)
        ensures
            builder.width() == width,
            builder.height() == height,
            builder.palette() == colors,
            builder.is_transparent() == transparent,
            builder.fragments() == Seq::<Seq<char>>::empty(),
    {
        let builder = Self { width, height, elements: Vec::new(), colors, transparent };
        assert(builder.fragments() =~= Seq::<Seq<char>>::empty());
        builder
    }

    /// The colours of the theme.
    pub fn colors(&self) -> (colors: &ThemeColors)
        ensures
            *colors == self.palette(),
    {
        &self.colors
    }

    /// Adds one piece of markup behind those added before.
    pub fn add_element(&mut self, element: String)
        ensures
            final(self).fragments() == old(self).fragments().push(element@),
            final(self).width() == old(self).width(),
            final(self).height() == old(self).height(),
            final(self).palette() == old(self).palette(),
            final(self).is_transparent() == old(self).is_transparent(),
    {
        self.elements.push(element);
        assert(self.fragments() =~= old(self).fragments().push(element@));
    }

    /// The whole document as text.
    pub fn to_string(&self) -> (svg: String)
        ensures
            svg@ == self.document(),
    {
        let mut out = String::from_str("<svg xmlns=\"http://www.w3.org/2000/svg\" width=\"");
        push_nat(&mut out, self.width as u64);
        out.append("\" height=\"");
        push_nat(&mut out, self.height as u64);
        out.append("\" viewBox=\"0 0 ");
        push_nat(&mut out, self.width as u64);
        out.append(" ");
        push_nat(&mut out, self.height as u64);
        out.append("\">\n  ");
        if !self.transparent {
            let ghost before = out@;
            out.append("<rect width=\"100%\" height=\"100%\" fill=\"");
            out.append(self.colors.background.as_str());
            out.append("\"/>");
            assert(out@ =~= before + background_markup(self.colors.background@));
            out.append("\n  ");
        }
        let ghost head = out@;
        let ghost all = texts(self.elements@);
        let mut joined = String::new();
        let mut i: usize = 0;
        while i < self.elements.len()
            invariant
                i <= self.elements@.len(),
                all == texts(self.elements@),
                joined@ == join_fragments(all.take(i as int)),
            decreases self.elements@.len() - i,
        {
            proof {
                assert(all.take(i + 1).drop_last() =~= all.take(i as int));
                assert(all.take(i + 1).last() == self.elements@[i as int]@);
            }
            if i > 0 {
                joined.append("\n  ");
            } else {
                assert(joined@ + self.elements@[0]@ =~= self.elements@[0]@);
                assert(all.take(1)[0] == self.elements@[0]@);
            }
            joined.append(self.elements[i].as_str());
            i = i + 1;
        }
        assert(all.take(self.elements@.len() as int) =~= all);
        joined.append("\n</svg>");
        out.append(joined.as_str());
        out
    }
}

} // verus!
