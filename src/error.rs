use vstd::prelude::*;

verus! {

/// The field of a position description that could not be decoded.
#[derive(Clone, Copy, Debug, PartialEq, Eq, Structural)]
pub enum Field {
    /// The description does not hold exactly six space-separated fields.
    FieldCount,
    Placement,
    SideToMove,
    Castling,
    EnPassant,
    HalfMoveClock,
    FullMoveNumber,
}

/// The recoverable failures of this library.
#[derive(Clone, Copy, Debug, PartialEq, Eq, Structural)]
pub enum BoardError {
    /// A zero marker was given where a square was expected: no piece present.
    InvalidMarker,
    /// A position description broke the grammar in the given field.
    MalformedPosition(Field),
}

} // verus!
