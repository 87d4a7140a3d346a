//! The description of a sequence diagram that the layout and the drawing
//! work from: who takes part, and which messages pass between them.

use vstd::prelude::*;

verus! {

/// How the line and the ends of a message are drawn.
#[derive(Debug, Clone, Copy, PartialEq, Eq, Structural)]
pub enum ArrowType {
    /// Solid line, no arrowhead.
    SolidOpen,
    /// Solid line, filled arrowhead.
    SolidClosed,
    /// Dotted line, no arrowhead.
    DottedOpen,
    /// Dotted line, filled arrowhead.
    DottedClosed,
    /// Solid line that ends in a cross.
    Cross,
    /// Solid line with an open arrowhead (an asynchronous message).
    Point,
    /// Solid line with a filled arrowhead at both ends.
    BiDirectionalSolid,
    /// Dotted line with a filled arrowhead at both ends.
    BiDirectionalDotted,
}

/// One lane of the diagram.
#[derive(Debug, Clone)]
pub struct Participant {
    /// The name by which messages refer to the participant.
    pub actor: String,
    /// The text shown in its box, where that differs from `actor`. It may
    /// hold line breaks.
    pub alias: Option<String>,
}

/// One message from a participant to a participant.
#[derive(Debug, Clone)]
pub struct Message {
    /// The `actor` that sends.
    pub from: String,
    /// The `actor` that receives: the sender itself for a self-message.
    pub to: String,
    /// The label.
    pub text: String,
    /// The style of the arrow.
    pub arrow_type: ArrowType,
}

/// A sequence diagram: its participants from left to right and its messages
/// from top to bottom.
#[derive(Debug, Clone)]
pub struct SequenceDiagram {
    /// The participants, leftmost first.
    pub participants: Vec<Participant>,
    /// The messages, topmost first.
    pub statements: Vec<Message>,
}

/// The text shown in the box of `p`: its alias, or its name if it has none.
pub open spec fn display_text(p: Participant) -> Seq<char> {
    match p.alias {
        Some(alias) => alias@,
        None => p.actor@,
    }
}

/// The names of `participants`, in order.
pub open spec fn actor_names(participants: Seq<Participant>) -> Seq<Seq<char>> {
    participants.map_values(|p: Participant| p.actor@)
}

} // verus!
