use vstd::prelude::*;
use crate::bitboard::Bitboard;
use crate::mask::Mask;
use crate::piece::Piece;
use crate::square::Square;

verus! {

/// A move that a player asks for: a piece, where it stands and where it is
/// to go.
#[derive(Debug, PartialEq, Eq, Structural, Clone, Copy)]
pub struct Action {
    pub piece: Piece,
    pub from: Square,
    pub to: Square,
}

impl Action {
    /// Both squares lie on the board.
    pub open spec fn wf(self) -> bool {
        self.from.wf() && self.to.wf()
    }

    /// The move that takes the piece back.
    pub open spec fn reversed(self) -> Action {
        Action { piece: self.piece, from: self.to, to: self.from }
    }

    /// The position has a piece of the named kind on the square of origin.
    pub open spec fn spec_valid(&self, bitboard: &Bitboard) -> bool {
        bitboard.mask_of(self.piece)@.contains(self.from.spec_index() as int)
    }

    /// The square of origin belongs to the side on turn.
    pub open spec fn spec_turn_valid(&self, turn_mask: Mask) -> bool {
        turn_mask@.contains(self.from.spec_index() as int)
    }

    /// The move of a piece from one square to another.
    pub fn new(piece: Piece, from: Square, to: Square) -> (action: Action)
        ensures
            action == (Action { piece, from, to }),
    {
        Action { piece, from, to }
    }

    /// Whether the position has a piece of the named kind on the square of
    /// origin.
    #[verifier::when_used_as_spec(spec_valid)]
    pub fn valid(&self, bitboard: &Bitboard) -> (b: bool)
        requires
            self.from.wf(),
        ensures
            b == self.spec_valid(bitboard),
    {
        bitboard.get(self.piece).contains(self.from.index())
    }

    /// Whether the square of origin is among the squares of the side on
    /// turn.
    #[verifier::when_used_as_spec(spec_turn_valid)]
    pub fn turn_valid(&self, turn_mask: Mask) -> (b: bool)
        requires
            self.from.wf(),
        ensures
            b == self.spec_turn_valid(turn_mask),
    {
        turn_mask.contains(self.from.index())
    }
}

} // verus!
