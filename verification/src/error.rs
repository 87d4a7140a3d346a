//! What can go wrong when a diagram is rendered.

use vstd::prelude::*;
use vstd::string::StringExecFns;

verus! {

/// The result of a rendering operation.
pub type RenderResult<T> = Result<T, RenderError>;

/// Why a diagram was not rendered.
#[derive(Debug, Clone, PartialEq)]
pub enum RenderError {
    /// The source text could not be parsed.
    ParseError(String),
    /// The diagram is of a kind that cannot be rendered.
    UnsupportedDiagram(String),
    /// The image could not be produced.
    SvgError(String),
    /// The options cannot be used.
    InvalidOptions(String),
}

impl RenderError {
    /// The text that `to_string` gives for this error.
    pub open spec fn text(self) -> Seq<char> {
        match self {
            RenderError::ParseError(msg) => "Parse error: "@ + msg@,
            RenderError::UnsupportedDiagram(msg) => "Unsupported diagram: "@ + msg@,
            RenderError::SvgError(msg) => "SVG error: "@ + msg@,
            RenderError::InvalidOptions(msg) => "Invalid options: "@ + msg@,
        }
    }

    /// The error in words: its kind, a colon, and its message.
    pub fn to_string(&self) -> (s: String)
        ensures
            s@ == self.text(),
    {
        match self {
            RenderError::ParseError(msg) => String::from_str("Parse error: ").concat(msg.as_str()),
            RenderError::UnsupportedDiagram(msg) => String::from_str(
                "Unsupported diagram: ",
            ).concat(msg.as_str()),
            RenderError::SvgError(msg) => String::from_str("SVG error: ").concat(msg.as_str()),
            RenderError::InvalidOptions(msg) => String::from_str("Invalid options: ").concat(
                msg.as_str(),
            ),
        }
    }
}

} // verus!
