use vstd::prelude::*;
use crate::bitboard::Bitboard;
use crate::error::VikingChessError;
use crate::error::VikingChessResult;
use crate::mask::lemma_bits_in_range;
use crate::mask::lemma_bits_single;
use crate::mask::Mask;

verus! {

/// Row of the square with the given index.
pub open spec fn row_of(index: int) -> int {
    index / 9
}

/// Column of the square with the given index.
pub open spec fn col_of(index: int) -> int {
    index % 9
}

/// Column change that an offset code stands for: the code modulo 5, less 2,
/// with the remainder taking the sign of the code.
pub open spec fn offset_col_delta(offset: int) -> int {
    if offset >= 0 {
        offset % 5 - 2
    } else {
        -((-offset) % 5) - 2
    }
}

/// Row change that an offset code stands for: the code divided by 5, less 2,
/// with the quotient rounded towards zero.
pub open spec fn offset_row_delta(offset: int) -> int {
    if offset >= 0 {
        offset / 5 - 2
    } else {
        -((-offset) / 5) - 2
    }
}

/// The indices of the board squares at distance `distance` from the square
/// with index `origin`, along its row or its column.
pub open spec fn ring(origin: int, distance: int) -> Set<int> {
    Set::new(
        |i: int|
            0 <= i < 81 && ((row_of(i) == row_of(origin) && (col_of(i) - col_of(origin) == distance
                || col_of(origin) - col_of(i) == distance)) || (col_of(i) == col_of(origin) && (
            row_of(i) - row_of(origin) == distance || row_of(origin) - row_of(i) == distance))),
    )
}

/// The index of the square in the given row and column.
pub open spec fn index_of(row: int, col: int) -> int {
    row * 9 + col
}

/// Row and column of a square determine its index, and the index gives them
/// back.
pub proof fn lemma_index_parts(row: int, col: int)
    requires
        0 <= col < 9,
    ensures
        row_of(index_of(row, col)) == row,
        col_of(index_of(row, col)) == col,
{
}

/// An index is that of the square in its row and column.
pub proof fn lemma_index_whole(index: int)
    ensures
        index_of(row_of(index), col_of(index)) == index,
        0 <= col_of(index) < 9,
        0 <= index < 81 <==> 0 <= row_of(index) < 9,
{
}

/// Squares and indices below 81 stand for each other, one to one.
pub proof fn lemma_square_index_bijection(square: Square, index: int)
    ensures
        square.wf() ==> square.spec_index() < 81 && Square::spec_from_index(
            square.spec_index() as int,
        ) == square,
        0 <= index < 81 ==> Square::spec_from_index(index).wf() && Square::spec_from_index(
            index,
        ).spec_index() == index,
{
}

/// The members of a ring, one for each direction in which the board reaches
/// far enough.
pub proof fn lemma_ring_members(row: int, col: int, distance: int)
    requires
        0 <= row < 9,
        0 <= col < 9,
        0 <= distance,
    ensures
        forall|i: int| #[trigger]
            ring(index_of(row, col), distance).contains(i) <==> {
                ||| (row >= distance && i == index_of(row - distance, col))
                ||| (row + distance < 9 && i == index_of(row + distance, col))
                ||| (col >= distance && i == index_of(row, col - distance))
                ||| (col + distance < 9 && i == index_of(row, col + distance))
            },
{
    let origin = index_of(row, col);
    lemma_index_parts(row, col);
    assert forall|i: int| #[trigger]
        ring(origin, distance).contains(i) <==> {
            ||| (row >= distance && i == index_of(row - distance, col))
            ||| (row + distance < 9 && i == index_of(row + distance, col))
            ||| (col >= distance && i == index_of(row, col - distance))
            ||| (col + distance < 9 && i == index_of(row, col + distance))
        } by {
        lemma_index_whole(i);
        if row >= distance {
            lemma_index_parts(row - distance, col);
        }
        if row + distance < 9 {
            lemma_index_parts(row + distance, col);
        }
        if col >= distance {
            lemma_index_parts(row, col - distance);
        }
        if col + distance < 9 {
            lemma_index_parts(row, col + distance);
        }
    }
}

/// A square of the board, by row and column, both below 9.
#[derive(Debug, PartialEq, Eq, Structural, Hash, Clone, Copy)]
pub struct Square {
    pub row: u8,
    pub col: u8,
}

impl Square {
    /// Row and column both lie on the board.
    pub open spec fn wf(self) -> bool {
        self.row < 9 && self.col < 9
    }

    /// Linear index: rows of nine, one after another.
    pub open spec fn spec_index(&self) -> usize {
        (self.row * 9 + self.col) as usize
    }

    /// The mask with the one bit of this square.
    pub open spec fn spec_mask(&self) -> Mask {
        Mask(1u128 << (self.spec_index() as u128))
    }

    /// The square that a linear index below 81 stands for.
    pub open spec fn spec_from_index(index: int) -> Square {
        Square { row: row_of(index) as u8, col: col_of(index) as u8 }
    }

    /// What `try_from_offset` returns: the square moved by the deltas of the
    /// code, or the position that fell off the board.
    pub open spec fn spec_try_from_offset(self, offset: i8) -> VikingChessResult<Square> {
        let col = self.col + offset_col_delta(offset as int);
        let row = self.row + offset_row_delta(offset as int);
        if 0 <= col < 9 && 0 <= row < 9 {
            Ok(Square { row: row as u8, col: col as u8 })
        } else {
            Err(VikingChessError::InvalidSquarePosition { col: col as i16, row: row as i16 })
        }
    }

    /// The square in the given row and column, both on the board.
    pub fn new(row: u8, col: u8) -> (s: Square)
        requires
            row < 9,
            col < 9,
        ensures
            s == (Square { row, col }),
            s.wf(),
    {
        Square { row, col }
    }

    /// Linear index: nine times the row, plus the column.
    #[verifier::when_used_as_spec(spec_index)]
    pub fn index(&self) -> (i: usize)
        ensures
            i == self.spec_index(),
            i == self.row * 9 + self.col,
            self.wf() ==> i < 81,
    {
        self.row as usize * Bitboard::BOARD_LENGTH + self.col as usize
    }

    /// The mask that holds this square alone.
    #[verifier::when_used_as_spec(spec_mask)]
    pub fn mask(&self) -> (m: Mask)
        requires
            self.wf(),
        ensures
            m == self.spec_mask(),
            m@ == set![self.spec_index() as int],
            m.wf(),
    {
        let i = self.index();
        proof {
            lemma_bits_single(i as int);
            lemma_bits_in_range(1u128 << (i as u128));
        }
        Mask(1u128 << (i as u128))
    }

    /// The square reached from this one by the column and row change that
    /// `offset` encodes over a 5 by 5 window: codes 0 to 24 give changes from
    /// -2 to +2 on each axis. Fails when that square is off the board.
    pub fn try_from_offset(&self, offset: i8) -> (res: VikingChessResult<Square>)
        requires
            self.wf(),
        ensures
            res == self.spec_try_from_offset(offset),
            res matches Ok(s) ==> s.wf(),
    {
        let code: i16 = offset as i16;
        let magnitude: i16 = if code >= 0 {
            code
        } else {
            -code
        };
        let quotient: i16 = magnitude / 5;
        let remainder: i16 = magnitude % 5;
        let col_delta: i16 = if code >= 0 {
            remainder - 2
        } else {
            -remainder - 2
        };
        let row_delta: i16 = if code >= 0 {
            quotient - 2
        } else {
            -quotient - 2
        };
        let col: i16 = self.col as i16 + col_delta;
        let row: i16 = self.row as i16 + row_delta;
        if 0 <= col && col < 9 && 0 <= row && row < 9 {
            Ok(Square { row: row as u8, col: col as u8 })
        } else {
            Err(VikingChessError::InvalidSquarePosition { col, row })
        }
    }

    /// The board squares at `distance` steps from this one along its row or
    /// its column; those that would fall off the board are left out.
    pub fn ring_mask(&self, distance: u8) -> (m: Mask)
        requires
            self.wf(),
        ensures
            m@ == ring(self.spec_index() as int, distance as int),
            m.wf(),
    {
        let ghost row = self.row as int;
        let ghost col = self.col as int;
        let ghost d = distance as int;
        let up = if self.row >= distance {
            Square { row: self.row - distance, col: self.col }.mask()
        } else {
            Mask::empty()
        };
        assert(forall|i: int| up@.contains(i) <==> row >= d && i == index_of(row - d, col));
        let down = if distance < 9 && self.row < 9 - distance {
            Square { row: self.row + distance, col: self.col }.mask()
        } else {
            Mask::empty()
        };
        assert(forall|i: int| down@.contains(i) <==> row + d < 9 && i == index_of(row + d, col));
        let left = if self.col >= distance {
            Square { row: self.row, col: self.col - distance }.mask()
        } else {
            Mask::empty()
        };
        assert(forall|i: int| left@.contains(i) <==> col >= d && i == index_of(row, col - d));
        let right = if distance < 9 && self.col < 9 - distance {
            Square { row: self.row, col: self.col + distance }.mask()
        } else {
            Mask::empty()
        };
        assert(forall|i: int| right@.contains(i) <==> col + d < 9 && i == index_of(row, col + d));
        let m = up.union(down).union(left.union(right));
        proof {
            lemma_ring_members(row, col, d);
            assert(m@ =~= ring(index_of(row, col), d));
        }
        m
    }

    /// The orthogonal neighbours of this square.
    pub fn adjacent_mask(&self) -> (m: Mask)
        requires
            self.wf(),
        ensures
            m@ == ring(self.spec_index() as int, 1),
            m.wf(),
    {
        self.ring_mask(1)
    }

    /// The squares two steps from this one along its row or its column.
    pub fn interjacent_mask(&self) -> (m: Mask)
        requires
            self.wf(),
        ensures
            m@ == ring(self.spec_index() as int, 2),
            m.wf(),
    {
        self.ring_mask(2)
    }
}

impl TryFrom<(u8, u8)> for Square {
    type Error = VikingChessError;

    /// The square in column `value.0` and row `value.1`.
    fn try_from(value: (u8, u8)) -> (res: Result<Square, VikingChessError>)
        ensures
            res matches Ok(s) ==> s.wf(),
    {
        if value.0 >= 9 || value.1 >= 9 {
            return Err(
                VikingChessError::InvalidSquarePosition {
                    col: value.0 as i16,
                    row: value.1 as i16,
                },
            );
        }
        Ok(Square { row: value.1, col: value.0 })
    }
}

impl vstd::std_specs::convert::TryFromSpecImpl<(u8, u8)> for Square {
    open spec fn obeys_try_from_spec() -> bool {
        true
    }

    open spec fn try_from_spec(value: (u8, u8)) -> Result<Square, VikingChessError> {
        if value.0 < 9 && value.1 < 9 {
            Ok(Square { row: value.1, col: value.0 })
        } else {
            Err(
                VikingChessError::InvalidSquarePosition {
                    col: value.0 as i16,
                    row: value.1 as i16,
                },
            )
        }
    }
}

impl TryFrom<usize> for Square {
    type Error = VikingChessError;

    /// The square with the given linear index.
    fn try_from(value: usize) -> (res: Result<Square, VikingChessError>)
        ensures
            res matches Ok(s) ==> s.wf() && s.spec_index() == value,
    {
        if value >= Bitboard::TOTAL_SQUARES {
            return Err(VikingChessError::InvalidSquareIndex { index: value });
        }
        Ok(
            Square {
                row: (value / Bitboard::BOARD_LENGTH) as u8,
                col: (value % Bitboard::BOARD_LENGTH) as u8,
            },
        )
    }
}

impl vstd::std_specs::convert::TryFromSpecImpl<usize> for Square {
    open spec fn obeys_try_from_spec() -> bool {
        true
    }

    open spec fn try_from_spec(value: usize) -> Result<Square, VikingChessError> {
        if value < 81 {
            Ok(Square::spec_from_index(value as int))
        } else {
            Err(VikingChessError::InvalidSquareIndex { index: value })
        }
    }
}

} // verus!
