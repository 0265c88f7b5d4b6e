use vstd::prelude::*;
use crate::piece::Piece;

verus! {

/// Why the engine turned an input down. None of these changes any state.
#[derive(Debug, PartialEq, Eq, Structural, Clone, Copy)]
pub enum VikingChessError {
    /// A column or a row lies outside the board.
    InvalidSquarePosition { col: i16, row: i16 },
    /// A linear index is 81 or more.
    InvalidSquareIndex { index: usize },
    /// A text is not in layout notation: a row is not nine squares wide, the
    /// rows are not nine, a character is not of the notation, or the side to
    /// move is missing or is not the last thing in the text.
    InvalidNotation,
    /// The piece to move belongs to the side that is not on turn.
    WrongTurn { piece: Piece },
    /// A piece other than the King was sent to a corner.
    CornerRestricted,
    /// A piece was sent to the throne.
    ThroneRestricted,
    /// The destination cannot be reached by sliding from the origin.
    IllegalMove,
}

/// What the engine answers where it may turn the input down.
pub type VikingChessResult<T> = Result<T, VikingChessError>;

} // verus!
