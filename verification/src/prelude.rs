//! The types that most callers need, in one place.

pub use crate::action::Action;
pub use crate::bitboard::Bitboard;
pub use crate::board::Board;
pub use crate::magics::MagicTable;
pub use crate::mask::Mask;
pub use crate::piece::Piece;
pub use crate::square::Square;
