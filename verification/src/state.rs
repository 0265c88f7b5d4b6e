use vstd::prelude::*;
use crate::action::Action;
use crate::piece::Piece;

verus! {

/// What a game records after each move: the hash of the position, the side
/// on turn and the move that led there.
#[derive(Debug, PartialEq, Eq, Structural, Clone, Copy)]
pub struct State {
    pub zobrist_hash: u64,
    pub turn: Piece,
    pub action: Option<Action>,
}

} // verus!
