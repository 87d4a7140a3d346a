//! Rendering of sequence diagrams as SVG.
//!
//! A diagram (its participants and the messages between them) is laid out
//! and drawn in two passes: [`sequence::layout`] settles every size and
//! position, and [`sequence::render`] emits the shapes at those positions.
//! The result is one self-contained SVG document.
//!
//! Every length and coordinate is an integer number of sub-pixel units
//! (see [`units`]), so the whole layout is exact integer arithmetic, and
//! what is stated of it holds of the numbers that are written out.
//!
//! Parsing is not done here: a caller hands over what its parser found.

use vstd::prelude::*;
use vstd::string::StringExecFns;

use sequence::diagram::SequenceDiagram;
use sequence::diagram_document;

pub mod error;
pub mod layout;
pub mod options;
pub mod sequence;
pub mod strings;
pub mod svg;
pub mod units;

pub use error::{RenderError, RenderResult};
pub use options::{RenderOptions, Theme, ThemeColors};

verus! {

/// What a parser found in a source text.
#[derive(Debug, Clone)]
pub enum DiagramType {
    /// A sequence diagram.
    Sequence(SequenceDiagram),
    /// A diagram of any other kind.
    Other,
}

/// The message of the error for a diagram that is no sequence diagram.
pub open spec fn unsupported_message() -> Seq<char> {
    "Expected a sequence diagram"@
}

/// Renders what a parser found as an SVG document.
///
/// `parsed` is the diagram, or the words of the parser's error. A parse
/// error is passed on as `RenderError::ParseError`, a diagram of another
/// kind is refused as `RenderError::UnsupportedDiagram`, and a sequence
/// diagram is rendered by [`sequence::render`].
pub fn render_sequence_diagram(parsed: Result<DiagramType, String>, options: &RenderOptions) -> (result:
    RenderResult<String>)
    ensures
        match parsed {
            Err(words) => result matches Err(RenderError::ParseError(message)) && message@
                == words@,
            Ok(DiagramType::Other) => result matches Err(RenderError::UnsupportedDiagram(message))
                && message@ == unsupported_message(),
            Ok(DiagramType::Sequence(diagram)) => result matches Ok(svg) && svg@
                == diagram_document(diagram, *options),
        },
{
    match parsed {
        Err(words) => Err(RenderError::ParseError(words)),
        Ok(DiagramType::Other) => Err(
            RenderError::UnsupportedDiagram(String::from_str("Expected a sequence diagram")),
        ),
        Ok(DiagramType::Sequence(diagram)) => sequence::render(&diagram, options),
    }
}

} // verus!
