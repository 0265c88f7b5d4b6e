use vstd::prelude::*;
use vstd::string::StrSliceExecFns;
use vstd::string::StringExecFns;
use crate::error::VikingChessError;
use crate::error::VikingChessResult;
use crate::mask::lemma_bits_and;
use crate::mask::lemma_bits_in_range;
use crate::mask::lemma_bits_not;
use crate::mask::lemma_bits_or;
use crate::mask::lemma_bits_single;
use crate::mask::lemma_column_bits;
use crate::mask::lemma_row_bits;
use crate::mask::Mask;
use crate::notation::digit_value;
use crate::notation::Layout;
use crate::piece::Piece;
use crate::rays::inner;
use crate::rays::lemma_slide_by_stops;
use crate::rays::lines;
use crate::rays::slide;
use crate::square::col_of;
use crate::square::index_of;
use crate::square::lemma_index_parts;
use crate::square::lemma_index_whole;
use crate::square::row_of;
use crate::square::Square;

verus! {

/// The position: for each kind of piece, the squares that hold one.
pub struct Bitboard {
    king: Mask,
    defender: Mask,
    attacker: Mask,
}

/// The squares of column `col` in the rows strictly between `low` and `high`.
pub open spec fn column_span(col: int, low: int, high: int) -> Set<int> {
    Set::new(|i: int| 0 <= i < 81 && col_of(i) == col && low < row_of(i) < high)
}

/// The squares of row `row` in the columns strictly between `low` and `high`.
pub open spec fn row_span(row: int, low: int, high: int) -> Set<int> {
    Set::new(|i: int| 0 <= i < 81 && row_of(i) == row && low < col_of(i) < high)
}

impl Bitboard {
    /// Number of rows, and of columns, of the board.
    pub const BOARD_LENGTH: usize = 9;

    /// Number of squares of the board.
    pub const TOTAL_SQUARES: usize = 81;

    /// The squares that hold a piece of the given kind.
    pub closed spec fn mask_of(&self, piece: Piece) -> Mask {
        match piece {
            Piece::King => self.king,
            Piece::Defender => self.defender,
            Piece::Attacker => self.attacker,
        }
    }

    /// The bits of all occupied squares.
    pub open spec fn spec_all(&self) -> u128 {
        self.mask_of(Piece::Attacker).0 | self.mask_of(Piece::Defender).0 | self.mask_of(
            Piece::King,
        ).0
    }

    /// The indices of the squares that hold a piece of any kind.
    pub open spec fn occupied(&self) -> Set<int> {
        self.mask_of(Piece::King)@.union(self.mask_of(Piece::Defender)@).union(
            self.mask_of(Piece::Attacker)@,
        )
    }

    /// The piece on the square with the given index. Where masks overlap, the
    /// Attacker is named before the Defender, and the Defender before the King.
    pub open spec fn spec_piece_at(&self, index: usize) -> Option<Piece> {
        if self.mask_of(Piece::Attacker)@.contains(index as int) {
            Some(Piece::Attacker)
        } else if self.mask_of(Piece::Defender)@.contains(index as int) {
            Some(Piece::Defender)
        } else if self.mask_of(Piece::King)@.contains(index as int) {
            Some(Piece::King)
        } else {
            None
        }
    }

    /// Every mask stays on the board, and no square holds two pieces.
    pub open spec fn wf(&self) -> bool {
        &&& self.mask_of(Piece::King).wf()
        &&& self.mask_of(Piece::Defender).wf()
        &&& self.mask_of(Piece::Attacker).wf()
        &&& self.mask_of(Piece::King)@.disjoint(self.mask_of(Piece::Defender)@)
        &&& self.mask_of(Piece::King)@.disjoint(self.mask_of(Piece::Attacker)@)
        &&& self.mask_of(Piece::Defender)@.disjoint(self.mask_of(Piece::Attacker)@)
    }

    /// In a well-formed position no square holds two pieces: two kinds that
    /// both have a square are the same kind.
    pub proof fn lemma_one_piece_per_square(&self, index: int, first: Piece, second: Piece)
        requires
            self.wf(),
            self.mask_of(first)@.contains(index),
            self.mask_of(second)@.contains(index),
        ensures
            first == second,
    {
    }

    /// The position with no piece.
    pub fn new() -> (board: Bitboard)
        ensures
            forall|piece: Piece| board.mask_of(piece) == Mask(0),
            forall|piece: Piece| (#[trigger] board.mask_of(piece))@ == Set::<int>::empty(),
            board.wf(),
            board.occupied() == Set::<int>::empty(),
    {
        let board = Bitboard {
            king: Mask::empty(),
            defender: Mask::empty(),
            attacker: Mask::empty(),
        };
        assert(board.occupied() =~= Set::<int>::empty());
        board
    }

    /// Each kind of piece stands on the squares that the layout fills with it.
    pub open spec fn matches_layout(&self, layout: Layout) -> bool {
        forall|piece: Piece| (#[trigger] self.mask_of(piece))@ == layout.squares(piece)
    }

    /// Reads a position from layout notation: nine rows from the first to the
    /// last, separated by `/`; in a row, `A`, `D` and `K` for a piece and a
    /// digit for that many empty squares, nine squares in all. Any other text
    /// fails: a row that is short or long, a row too few or too many, a
    /// character that the notation does not know.
    pub fn from_fen(text: &str) -> (res: VikingChessResult<Bitboard>)
        ensures
            match Layout::decode(text@) {
                Ok(layout) => res matches Ok(board) && board.matches_layout(layout) && board.wf(),
                Err(e) => res == Err::<Bitboard, VikingChessError>(e),
            },
            res matches Err(e) ==> e == VikingChessError::InvalidNotation,
    {
        let n = text.unicode_len();
        let mut board = Bitboard::new();
        let mut col: u8 = 0;
        let mut row: u8 = 0;
        let mut i: usize = 0;
        assert(Layout::read(text@, 0) == Ok::<Layout, VikingChessError>(Layout::start()));
        assert(Layout::start().wf());
        assert(board.matches_layout(Layout::start()));
        while i < n
            invariant
                i <= n,
                n == text@.len(),
                Layout::read(text@, i as nat) matches Ok(layout) && layout.row == row && layout.col
                    == col && board.matches_layout(layout) && layout.wf(),
                board.mask_of(Piece::King).wf(),
                board.mask_of(Piece::Defender).wf(),
                board.mask_of(Piece::Attacker).wf(),
            decreases n - i,
        {
            let ch = text.get_char(i);
            let ghost layout = Layout::read(text@, i as nat)->Ok_0;
            proof {
                assert(Layout::read(text@, (i + 1) as nat) == layout.step(ch));
                layout.lemma_step_wf(ch);
                if layout.step(ch) is Err {
                    Layout::lemma_read_failure_stays(text@, (i + 1) as nat, text@.len());
                }
            }
            if let Some(piece) = Piece::from_letter(ch) {
                if col >= 9 {
                    return Err(VikingChessError::InvalidNotation);
                }
                let square = Square { row, col };
                let filled = board.get(piece).union(square.mask());
                let ghost before = board;
                board.set(piece, filled);
                proof {
                    let next = layout.place(piece);
                    assert forall|other: Piece| (#[trigger] board.mask_of(other))@ == next.squares(
                        other,
                    ) by {
                        assert(before.mask_of(other)@ == layout.squares(other));
                        if other == piece {
                            assert(board.mask_of(other)@ =~= next.squares(other));
                        }
                    }
                }
                col = col + 1;
            } else if let Some(gap) = digit_value(ch) {
                if col + gap > 9 {
                    return Err(VikingChessError::InvalidNotation);
                }
                col = col + gap;
            } else if ch == '/' {
                if col != 9 || row >= 8 {
                    return Err(VikingChessError::InvalidNotation);
                }
                row = row + 1;
                col = 0;
            } else {
                return Err(VikingChessError::InvalidNotation);
            }
            i = i + 1;
        }
        if row != 8 || col != 9 {
            return Err(VikingChessError::InvalidNotation);
        }
        proof {
            let layout = Layout::read(text@, text@.len())->Ok_0;
            assert(board.mask_of(Piece::King)@ == layout.king);
            assert(board.mask_of(Piece::Defender)@ == layout.defender);
            assert(board.mask_of(Piece::Attacker)@ == layout.attacker);
        }
        Ok(board)
    }

    /// Whether every mask stays on the board and no square holds two pieces.
    pub fn is_well_formed(&self) -> (ok: bool)
        ensures
            ok == self.wf(),
    {
        self.king.is_well_formed() && self.defender.is_well_formed()
            && self.attacker.is_well_formed() && !self.king.intersects(self.defender)
            && !self.king.intersects(self.attacker) && !self.defender.intersects(self.attacker)
    }

    /// The mask of one kind of piece.
    pub fn get(&self, piece: Piece) -> (m: Mask)
        ensures
            m == self.mask_of(piece),
    {
        match piece {
            Piece::King => self.king,
            Piece::Defender => self.defender,
            Piece::Attacker => self.attacker,
        }
    }

    /// Replaces the mask of one kind of piece and leaves the others.
    pub fn set(&mut self, piece: Piece, mask: Mask)
        ensures
            final(self).mask_of(piece) == mask,
            forall|other: Piece|
                other != piece ==> final(self).mask_of(other) == old(self).mask_of(other),
    {
        match piece {
            Piece::King => {
                self.king = mask;
            },
            Piece::Defender => {
                self.defender = mask;
            },
            Piece::Attacker => {
                self.attacker = mask;
            },
        }
    }

    /// The piece on the square with the given index, if there is one.
    #[verifier::when_used_as_spec(spec_piece_at)]
    pub fn piece_at(&self, index: usize) -> (piece: Option<Piece>)
        ensures
            piece == self.spec_piece_at(index),
            piece is Some <==> self.occupied().contains(index as int),
    {
        if self.attacker.contains(index) {
            Some(Piece::Attacker)
        } else if self.defender.contains(index) {
            Some(Piece::Defender)
        } else if self.king.contains(index) {
            Some(Piece::King)
        } else {
            None
        }
    }

    /// A cursor over the occupied squares, from the first square on.
    pub fn iter<'a>(&'a self) -> (cursor: BitboardIter<'a>)
        ensures
            cursor.position() == 0,
            *cursor.board() == *self,
    {
        BitboardIter::new(self)
    }

    /// The character that stands for a square in the drawing of the
    /// position: `K`, `D` or `A` for its piece, `.` where it is empty. Where
    /// masks overlap, the King is drawn before the Defender, and the Defender
    /// before the Attacker.
    pub open spec fn spec_glyph(&self, index: int) -> char {
        if self.mask_of(Piece::King)@.contains(index) {
            'K'
        } else if self.mask_of(Piece::Defender)@.contains(index) {
            'D'
        } else if self.mask_of(Piece::Attacker)@.contains(index) {
            'A'
        } else {
            '.'
        }
    }

    /// The position as nine lines of nine characters, each line closed by a
    /// line feed.
    pub open spec fn spec_text(&self) -> Seq<char> {
        Seq::new(
            90,
            |k: int|
                if k % 10 == 9 {
                    '\n'
                } else {
                    self.spec_glyph((k / 10) * 9 + k % 10)
                },
        )
    }

    /// The position and then each mask, every one under a heading of its own.
    pub open spec fn spec_debug_text(&self) -> Seq<char> {
        "Bitboard:\n"@ + self.spec_text() + "\n"@ + "Mask Attacker:\n"@ + self.mask_of(
            Piece::Attacker,
        ).spec_text() + "\n"@ + "Mask Defender:\n"@ + self.mask_of(Piece::Defender).spec_text()
            + "\n"@ + "Mask King:\n"@ + self.mask_of(Piece::King).spec_text() + "\n"@
    }

    /// The position drawn as a board, row by row.
    pub fn to_text(&self) -> (text: String)
        ensures
            text@ == self.spec_text(),
    {
        let mut text = String::new();
        let mut row: usize = 0;
        proof {
            reveal_strlit("K");
            reveal_strlit("D");
            reveal_strlit("A");
            reveal_strlit(".");
            reveal_strlit("\n");
        }
        while row < 9
            invariant
                row <= 9,
                text@ == self.spec_text().take(row * 10),
                "K"@ == seq!['K'],
                "D"@ == seq!['D'],
                "A"@ == seq!['A'],
                "."@ == seq!['.'],
                "\n"@ == seq!['\n'],
            decreases 9 - row,
        {
            let mut col: usize = 0;
            while col < 9
                invariant
                    row < 9,
                    col <= 9,
                    text@ == self.spec_text().take(row * 10 + col),
                    "K"@ == seq!['K'],
                    "D"@ == seq!['D'],
                    "A"@ == seq!['A'],
                    "."@ == seq!['.'],
                decreases 9 - col,
            {
                let index = row * 9 + col;
                if self.king.contains(index) {
                    text.append("K");
                } else if self.defender.contains(index) {
                    text.append("D");
                } else if self.attacker.contains(index) {
                    text.append("A");
                } else {
                    text.append(".");
                }
                assert(text@ =~= self.spec_text().take(row * 10 + col + 1));
                col = col + 1;
            }
            text.append("\n");
            assert(text@ =~= self.spec_text().take((row + 1) * 10));
            row = row + 1;
        }
        assert(self.spec_text().take(90) =~= self.spec_text());
        text
    }

    /// The position and its three masks drawn one below the other, for
    /// looking at when something is wrong.
    pub fn to_debug_text(&self) -> (text: String)
        ensures
            text@ == self.spec_debug_text(),
    {
        let mut text = String::new();
        text.append("Bitboard:\n");
        text.append(self.to_text().as_str());
        text.append("\n");
        text.append("Mask Attacker:\n");
        text.append(self.attacker.to_text().as_str());
        text.append("\n");
        text.append("Mask Defender:\n");
        text.append(self.defender.to_text().as_str());
        text.append("\n");
        text.append("Mask King:\n");
        text.append(self.king.to_text().as_str());
        text.append("\n");
        assert(text@ =~= self.spec_debug_text());
        text
    }

    /// All occupied squares.
    pub fn all(&self) -> (m: Mask)
        ensures
            m.0 == self.spec_all(),
            m@ == self.occupied(),
            self.wf() ==> m.wf(),
    {
        let m = self.attacker.union(self.defender).union(self.king);
        assert(m@ =~= self.occupied());
        m
    }

    /// The mask that `moves` computes: column and row of the square, joined,
    /// without the square itself.
    pub open spec fn spec_moves(square: Square) -> Mask {
        Mask(
            ((Mask::FIRST_COLUMN << (square.col as u128)) | (Mask::FIRST_ROW << ((9
                * square.row) as u128))) & !(1u128 << (square.spec_index() as u128)),
        )
    }

    /// The mask that `blockers` computes: the column of the square without
    /// the first and the last row, joined with its row without the first and
    /// the last column, without the square itself.
    pub open spec fn spec_blockers(square: Square) -> Mask {
        let end_rows = (Mask::FIRST_ROW << ((9 * 0u8) as u128)) | (Mask::FIRST_ROW << ((9
            * 8u8) as u128));
        let end_cols = (Mask::FIRST_COLUMN << (0u8 as u128)) | (Mask::FIRST_COLUMN << (
        8u8 as u128));
        let along_col = (Mask::FIRST_COLUMN << (square.col as u128)) & !end_rows;
        let along_row = (Mask::FIRST_ROW << ((9 * square.row) as u128)) & !end_cols;
        Mask((along_col | along_row) & !(1u128 << (square.spec_index() as u128)))
    }

    /// The mask of `moves` holds the squares of `lines`.
    pub proof fn lemma_spec_moves(square: Square)
        requires
            square.wf(),
        ensures
            Bitboard::spec_moves(square)@ == lines(square.spec_index() as int),
            Bitboard::spec_moves(square).wf(),
    {
        let column = Mask::FIRST_COLUMN << (square.col as u128);
        let row = Mask::FIRST_ROW << ((9 * square.row) as u128);
        let single = 1u128 << (square.spec_index() as u128);
        lemma_column_bits(square.col);
        lemma_row_bits(square.row);
        lemma_bits_single(square.spec_index() as int);
        lemma_bits_or(column, row);
        lemma_bits_not(single);
        lemma_bits_and(column | row, !single);
        lemma_index_parts(square.row as int, square.col as int);
        let m = Bitboard::spec_moves(square);
        assert(m@ =~= lines(square.spec_index() as int));
        lemma_bits_in_range(m.0);
    }

    /// The mask of `blockers` holds the squares of `inner`.
    pub proof fn lemma_spec_blockers(square: Square)
        requires
            square.wf(),
        ensures
            Bitboard::spec_blockers(square)@ == inner(square.spec_index() as int),
            Bitboard::spec_blockers(square).wf(),
    {
        let first_row = Mask::FIRST_ROW << ((9 * 0u8) as u128);
        let last_row = Mask::FIRST_ROW << ((9 * 8u8) as u128);
        let first_col = Mask::FIRST_COLUMN << (0u8 as u128);
        let last_col = Mask::FIRST_COLUMN << (8u8 as u128);
        let column = Mask::FIRST_COLUMN << (square.col as u128);
        let row = Mask::FIRST_ROW << ((9 * square.row) as u128);
        let single = 1u128 << (square.spec_index() as u128);
        lemma_column_bits(square.col);
        lemma_column_bits(0);
        lemma_column_bits(8);
        lemma_row_bits(square.row);
        lemma_row_bits(0);
        lemma_row_bits(8);
        lemma_bits_single(square.spec_index() as int);
        lemma_bits_or(first_row, last_row);
        lemma_bits_or(first_col, last_col);
        lemma_bits_not(first_row | last_row);
        lemma_bits_not(first_col | last_col);
        lemma_bits_and(column, !(first_row | last_row));
        lemma_bits_and(row, !(first_col | last_col));
        let along_col = column & !(first_row | last_row);
        let along_row = row & !(first_col | last_col);
        lemma_bits_or(along_col, along_row);
        lemma_bits_not(single);
        lemma_bits_and(along_col | along_row, !single);
        lemma_index_parts(square.row as int, square.col as int);
        let m = Bitboard::spec_blockers(square);
        assert forall|i: int| m@.contains(i) == inner(square.spec_index() as int).contains(i) by {
            lemma_index_whole(i);
        }
        assert(m@ =~= inner(square.spec_index() as int));
        lemma_bits_in_range(m.0);
    }

    /// Where a piece on `square` could slide to on an empty board: its row
    /// and its column, without the square itself.
    pub fn moves(square: Square) -> (m: Mask)
        requires
            square.wf(),
        ensures
            m == Bitboard::spec_moves(square),
            m@ == lines(square.spec_index() as int),
            m.wf(),
    {
        proof {
            Bitboard::lemma_spec_moves(square);
        }
        Mask::column(square.col).union(Mask::row(square.row)).difference(square.mask())
    }

    /// The squares whose occupancy decides how far a piece on `square` can
    /// slide: its row and column, short of the last square of each ray. A
    /// piece on a last square hides nothing behind it.
    pub fn blockers(square: Square) -> (m: Mask)
        requires
            square.wf(),
        ensures
            m == Bitboard::spec_blockers(square),
            m@ == inner(square.spec_index() as int),
            m.wf(),
    {
        proof {
            Bitboard::lemma_spec_blockers(square);
        }
        let end_rows = Mask::row(0).union(Mask::row(8));
        let end_cols = Mask::column(0).union(Mask::column(8));
        let along_col = Mask::column(square.col).difference(end_rows);
        let along_row = Mask::row(square.row).difference(end_cols);
        along_col.union(along_row).difference(square.mask())
    }

    /// The squares of the column of `square` in the rows after its own, row
    /// by row, up to the first that `blockers` holds; and the row at which the
    /// walk stopped.
    fn slide_rows_up(square: Square, blockers: Mask) -> (res: (Mask, u8))
        requires
            square.wf(),
        ensures
            square.row < res.1 <= 9,
            res.0@ == column_span(square.col as int, square.row as int, res.1 as int),
            res.0.wf(),
            res.1 == 9 || blockers@.contains(index_of(res.1 as int, square.col as int)),
            forall|r: int|
                square.row < r < res.1 ==> !blockers@.contains(
                    #[trigger] index_of(r, square.col as int),
                ),
    {
        let mut m = Mask::empty();
        let mut r: u8 = square.row + 1;
        assert(m@ =~= column_span(square.col as int, square.row as int, r as int));
        while r < 9 && !blockers.contains(r as usize * 9 + square.col as usize)
            invariant
                square.wf(),
                square.row < r <= 9,
                m.wf(),
                m@ == column_span(square.col as int, square.row as int, r as int),
                forall|k: int|
                    square.row < k < r ==> !blockers@.contains(
                        #[trigger] index_of(k, square.col as int),
                    ),
            decreases 9 - r,
        {
            let step = Square { row: r, col: square.col };
            m = m.union(step.mask());
            proof {
                lemma_index_parts(r as int, square.col as int);
                assert forall|i: int|
                    m@.contains(i) == column_span(
                        square.col as int,
                        square.row as int,
                        r + 1,
                    ).contains(i) by {
                    lemma_index_whole(i);
                }
                assert(m@ =~= column_span(square.col as int, square.row as int, r + 1));
            }
            r = r + 1;
        }
        (m, r)
    }

    /// The squares of the column of `square` in the rows before its own, row
    /// by row, down to the first that `blockers` holds; and one more than the
    /// row at which the walk stopped.
    fn slide_rows_down(square: Square, blockers: Mask) -> (res: (Mask, u8))
        requires
            square.wf(),
        ensures
            res.1 <= square.row,
            res.0@ == column_span(square.col as int, res.1 - 1, square.row as int),
            res.0.wf(),
            res.1 == 0 || blockers@.contains(index_of(res.1 - 1, square.col as int)),
            forall|r: int|
                res.1 - 1 < r < square.row ==> !blockers@.contains(
                    #[trigger] index_of(r, square.col as int),
                ),
    {
        let mut m = Mask::empty();
        let mut r: u8 = square.row;
        assert(m@ =~= column_span(square.col as int, r - 1, square.row as int));
        while r > 0 && !blockers.contains((r - 1) as usize * 9 + square.col as usize)
            invariant
                square.wf(),
                r <= square.row,
                m.wf(),
                m@ == column_span(square.col as int, r - 1, square.row as int),
                forall|k: int|
                    r - 1 < k < square.row ==> !blockers@.contains(
                        #[trigger] index_of(k, square.col as int),
                    ),
            decreases r,
        {
            let step = Square { row: r - 1, col: square.col };
            m = m.union(step.mask());
            proof {
                lemma_index_parts(r - 1, square.col as int);
                assert forall|i: int|
                    m@.contains(i) == column_span(
                        square.col as int,
                        r - 2,
                        square.row as int,
                    ).contains(i) by {
                    lemma_index_whole(i);
                }
                assert(m@ =~= column_span(square.col as int, r - 2, square.row as int));
            }
            r = r - 1;
        }
        (m, r)
    }

    /// The squares after `square` in its row, column by column, up to the
    /// first that `blockers` holds; and the column at which the walk stopped.
    fn slide_cols_up(square: Square, blockers: Mask) -> (res: (Mask, u8))
        requires
            square.wf(),
        ensures
            square.col < res.1 <= 9,
            res.0@ == row_span(square.row as int, square.col as int, res.1 as int),
            res.0.wf(),
            res.1 == 9 || blockers@.contains(index_of(square.row as int, res.1 as int)),
            forall|c: int|
                square.col < c < res.1 ==> !blockers@.contains(
                    #[trigger] index_of(square.row as int, c),
                ),
    {
        let mut m = Mask::empty();
        let mut c: u8 = square.col + 1;
        assert(m@ =~= row_span(square.row as int, square.col as int, c as int));
        while c < 9 && !blockers.contains(square.row as usize * 9 + c as usize)
            invariant
                square.wf(),
                square.col < c <= 9,
                m.wf(),
                m@ == row_span(square.row as int, square.col as int, c as int),
                forall|k: int|
                    square.col < k < c ==> !blockers@.contains(
                        #[trigger] index_of(square.row as int, k),
                    ),
            decreases 9 - c,
        {
            let step = Square { row: square.row, col: c };
            m = m.union(step.mask());
            proof {
                lemma_index_parts(square.row as int, c as int);
                assert forall|i: int|
                    m@.contains(i) == row_span(square.row as int, square.col as int, c + 1).contains(
                        i,
                    ) by {
                    lemma_index_whole(i);
                }
                assert(m@ =~= row_span(square.row as int, square.col as int, c + 1));
            }
            c = c + 1;
        }
        (m, c)
    }

    /// The squares before `square` in its row, column by column, down to the
    /// first that `blockers` holds; and one more than the column at which the
    /// walk stopped.
    fn slide_cols_down(square: Square, blockers: Mask) -> (res: (Mask, u8))
        requires
            square.wf(),
        ensures
            res.1 <= square.col,
            res.0@ == row_span(square.row as int, res.1 - 1, square.col as int),
            res.0.wf(),
            res.1 == 0 || blockers@.contains(index_of(square.row as int, res.1 - 1)),
            forall|c: int|
                res.1 - 1 < c < square.col ==> !blockers@.contains(
                    #[trigger] index_of(square.row as int, c),
                ),
    {
        let mut m = Mask::empty();
        let mut c: u8 = square.col;
        assert(m@ =~= row_span(square.row as int, c - 1, square.col as int));
        while c > 0 && !blockers.contains(square.row as usize * 9 + (c - 1) as usize)
            invariant
                square.wf(),
                c <= square.col,
                m.wf(),
                m@ == row_span(square.row as int, c - 1, square.col as int),
                forall|k: int|
                    c - 1 < k < square.col ==> !blockers@.contains(
                        #[trigger] index_of(square.row as int, k),
                    ),
            decreases c,
        {
            let step = Square { row: square.row, col: c - 1 };
            m = m.union(step.mask());
            proof {
                lemma_index_parts(square.row as int, c - 1);
                assert forall|i: int|
                    m@.contains(i) == row_span(square.row as int, c - 2, square.col as int).contains(
                        i,
                    ) by {
                    lemma_index_whole(i);
                }
                assert(m@ =~= row_span(square.row as int, c - 2, square.col as int));
            }
            c = c - 1;
        }
        (m, c)
    }

    /// The squares that a piece on `square` can slide to when the squares of
    /// `blockers` are occupied, found by walking the four rays. A piece on
    /// `square` itself does not count as a blocker.
    pub fn legal_moves(square: Square, blockers: Mask) -> (m: Mask)
        requires
            square.wf(),
        ensures
            m@ == slide(square.spec_index() as int, blockers@),
            m.wf(),
    {
        let (up, south) = Bitboard::slide_rows_up(square, blockers);
        let (down, north) = Bitboard::slide_rows_down(square, blockers);
        let (right, east) = Bitboard::slide_cols_up(square, blockers);
        let (left, west) = Bitboard::slide_cols_down(square, blockers);
        let m = up.union(down).union(right.union(left));
        proof {
            let row = square.row as int;
            let col = square.col as int;
            lemma_index_parts(row, col);
            lemma_slide_by_stops(
                row,
                col,
                blockers@,
                north - 1,
                south as int,
                west - 1,
                east as int,
            );
            assert forall|i: int|
                m@.contains(i) == slide(square.spec_index() as int, blockers@).contains(i) by {
                lemma_index_whole(i);
            }
            assert(m@ =~= slide(square.spec_index() as int, blockers@));
        }
        m
    }
}

/// A cursor that walks the squares of a position in the order of their
/// indices and stops at each occupied one.
pub struct BitboardIter<'a> {
    counter: usize,
    bitboard: &'a Bitboard,
}

impl<'a> BitboardIter<'a> {
    /// The index of the next square to look at.
    pub closed spec fn position(&self) -> usize {
        self.counter
    }

    /// The position that the cursor walks.
    pub closed spec fn board(&self) -> &'a Bitboard {
        self.bitboard
    }

    /// A cursor at the first square of the position.
    pub fn new(bitboard: &'a Bitboard) -> (cursor: BitboardIter<'a>)
        ensures
            cursor.position() == 0,
            *cursor.board() == *bitboard,
    {
        BitboardIter { counter: 0, bitboard }
    }

    /// The first occupied square at or after the cursor, with its piece; the
    /// cursor then stands behind that square. `None` when no such square is
    /// left; the cursor then stands at the end of the board, or stays where it
    /// was if that lies further on.
    pub fn next(&mut self) -> (item: Option<(Piece, Square)>)
        ensures
            final(self).board() == old(self).board(),
            match item {
                Some((piece, square)) => {
                    &&& square.wf()
                    &&& old(self).position() <= square.spec_index()
                    &&& final(self).position() == square.spec_index() + 1
                    &&& old(self).board().spec_piece_at(square.spec_index()) == Some(piece)
                    &&& forall|i: usize|
                        old(self).position() <= i < square.spec_index() ==> (
                        #[trigger] old(self).board().spec_piece_at(i)) is None
                },
                None => {
                    &&& forall|i: usize|
                        old(self).position() <= i < 81 ==> (
                        #[trigger] old(self).board().spec_piece_at(i)) is None
                    &&& final(self).position() == if old(self).position() < 81 {
                        81
                    } else {
                        old(self).position()
                    }
                },
            },
    {
        while self.counter < 81
            invariant
                old(self).counter <= self.counter,
                self.counter <= 81 || self.counter == old(self).counter,
                self.bitboard == old(self).bitboard,
                forall|i: usize|
                    old(self).counter <= i < self.counter ==> (
                    #[trigger] self.bitboard.spec_piece_at(i)) is None,
            decreases 81 - self.counter,
        {
            let index = self.counter;
            self.counter = index + 1;
            if let Some(piece) = self.bitboard.piece_at(index) {
                let square = Square { row: (index / 9) as u8, col: (index % 9) as u8 };
                return Some((piece, square));
            }
        }
        None
    }
}

impl core::ops::Index<Piece> for Bitboard {
    type Output = Mask;

    /// The mask of one kind of piece.
    fn index(&self, piece: Piece) -> (m: &Mask)
        ensures
            *m == self.mask_of(piece),
    {
        match piece {
            Piece::King => &self.king,
            Piece::Defender => &self.defender,
            Piece::Attacker => &self.attacker,
        }
    }
}

impl vstd::std_specs::core::IndexSpecImpl<Piece> for Bitboard {
    open spec fn index_req(&self, index: &Piece) -> bool {
        true
    }
}

impl core::ops::IndexMut<Piece> for Bitboard {
    /// The mask of one kind of piece, to be changed in place.
    fn index_mut(&mut self, piece: Piece) -> (m: &mut Mask)
        ensures
            *m == old(self).mask_of(piece),
            final(self).mask_of(piece) == *final(m),
            forall|other: Piece|
                other != piece ==> final(self).mask_of(other) == old(self).mask_of(other),
    {
        match piece {
            Piece::King => &mut self.king,
            Piece::Defender => &mut self.defender,
            Piece::Attacker => &mut self.attacker,
        }
    }
}

impl Default for Bitboard {
    /// The position with no piece.
    fn default() -> (board: Bitboard)
        ensures
            forall|piece: Piece| board.mask_of(piece) == Mask(0),
            board.wf(),
    {
        Bitboard::new()
    }
}

} // verus!
