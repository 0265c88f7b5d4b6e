use vstd::prelude::*;
use vstd::string::StrSliceExecFns;
use crate::error::VikingChessError;
use crate::piece::Piece;
use crate::square::index_of;

verus! {

/// The value that a character has as a decimal digit: 0 to 9 for `0` to `9`,
/// and nothing for any other character.
pub open spec fn spec_digit_value(ch: char) -> Option<u8> {
    if '0' <= ch <= '9' {
        Some((ch as u32 - 48) as u8)
    } else {
        None
    }
}

/// The value of a decimal digit, and nothing for any other character.
#[verifier::when_used_as_spec(spec_digit_value)]
pub fn digit_value(ch: char) -> (digit: Option<u8>)
    ensures
        digit == spec_digit_value(ch),
        digit matches Some(d) ==> d <= 9,
{
    let code: u32 = ch as u32;
    if 48 <= code && code <= 57 {
        Some((code - 48) as u8)
    } else {
        None
    }
}

/// Where the word that begins at `from` ends: the place of the first space at
/// or after `from`, or the length of the text if there is none.
pub open spec fn spec_word_end(text: Seq<char>, from: int) -> int
    decreases text.len() - from,
{
    if from < 0 || from >= text.len() {
        text.len() as int
    } else if text[from] == ' ' {
        from
    } else {
        spec_word_end(text, from + 1)
    }
}

/// The first word of a text: the layout of the board.
pub open spec fn spec_layout_word(text: Seq<char>) -> Seq<char> {
    text.subrange(0, spec_word_end(text, 0))
}

/// The side that the second word of a text names: `B` the Attacker, `W` the
/// Defender. Nothing where there is no second word or it is another word, and
/// nothing where the text goes on after it: the side is the last thing in the
/// text.
pub open spec fn spec_side_word(text: Seq<char>) -> Option<Piece> {
    let first = spec_word_end(text, 0);
    if first >= text.len() {
        None
    } else if text.len() != first + 2 {
        None
    } else if text[first + 1] == 'B' {
        Some(Piece::Attacker)
    } else if text[first + 1] == 'W' {
        Some(Piece::Defender)
    } else {
        None
    }
}

/// Where the word that begins at `from` ends: the place of the first space at
/// or after `from`, or the length of the text if there is none.
pub fn word_end(text: &str, from: usize) -> (end: usize)
    ensures
        end == spec_word_end(text@, from as int),
        end <= text@.len(),
        from <= text@.len() ==> from <= end,
{
    let n = text.unicode_len();
    if from >= n {
        return n;
    }
    let mut i = from;
    while i < n && text.get_char(i) != ' '
        invariant
            from <= i <= n,
            n == text@.len(),
            spec_word_end(text@, from as int) == spec_word_end(text@, i as int),
        decreases n - i,
    {
        i = i + 1;
    }
    i
}

/// Where the reading of a layout stands: the row and column of the next
/// square to fill, and the squares filled so far, by kind of piece.
pub struct Layout {
    pub row: int,
    pub col: int,
    pub king: Set<int>,
    pub defender: Set<int>,
    pub attacker: Set<int>,
}

impl Layout {
    /// Before the first character: the first square of the first row, and no
    /// piece.
    pub open spec fn start() -> Layout {
        Layout {
            row: 0,
            col: 0,
            king: Set::empty(),
            defender: Set::empty(),
            attacker: Set::empty(),
        }
    }

    /// The squares filled with the given kind.
    pub open spec fn squares(self, piece: Piece) -> Set<int> {
        match piece {
            Piece::King => self.king,
            Piece::Defender => self.defender,
            Piece::Attacker => self.attacker,
        }
    }

    /// The layout with a piece of the given kind on the next square, and the
    /// column moved on by one.
    pub open spec fn place(self, piece: Piece) -> Layout {
        let index = index_of(self.row, self.col);
        match piece {
            Piece::King => Layout { col: self.col + 1, king: self.king.insert(index), ..self },
            Piece::Defender => Layout {
                col: self.col + 1,
                defender: self.defender.insert(index),
                ..self
            },
            Piece::Attacker => Layout {
                col: self.col + 1,
                attacker: self.attacker.insert(index),
                ..self
            },
        }
    }

    /// What one character does to the layout. The notation is strict: every
    /// character must be one of these, and anything else fails.
    ///
    /// - A piece letter fills the next square; the row must have room for it.
    /// - A digit leaves that many squares empty; the row may not grow beyond
    ///   nine squares. Each digit counts for itself, `0` included: two digits
    ///   in a row are two gaps, not one number.
    /// - A `/` ends a row, which must be full, and begins the next, of which
    ///   there are nine in all. An empty row and a tenth row both fail.
    pub open spec fn step(self, ch: char) -> Result<Layout, VikingChessError> {
        if let Some(piece) = Piece::spec_from_letter(ch) {
            if self.col < 9 {
                Ok(self.place(piece))
            } else {
                Err(VikingChessError::InvalidNotation)
            }
        } else if let Some(gap) = spec_digit_value(ch) {
            if self.col + gap <= 9 {
                Ok(Layout { col: self.col + gap, ..self })
            } else {
                Err(VikingChessError::InvalidNotation)
            }
        } else if ch == '/' {
            if self.col == 9 && self.row < 8 {
                Ok(Layout { row: self.row + 1, col: 0, ..self })
            } else {
                Err(VikingChessError::InvalidNotation)
            }
        } else {
            Err(VikingChessError::InvalidNotation)
        }
    }

    /// The layout covers the whole board: the ninth row is being read and it
    /// is full.
    pub open spec fn complete(self) -> bool {
        self.row == 8 && self.col == 9
    }

    /// The layout after the first `count` characters of `text`, or the first
    /// failure among them.
    pub open spec fn read(text: Seq<char>, count: nat) -> Result<Layout, VikingChessError>
        decreases count,
    {
        if count == 0 {
            Ok(Layout::start())
        } else {
            match Layout::read(text, (count - 1) as nat) {
                Ok(layout) => layout.step(text[count - 1]),
                Err(e) => Err(e),
            }
        }
    }

    /// What a text is read as: the layout after its last character, which
    /// must cover the whole board. A text that ends in a short row, or before
    /// the ninth row, fails as one with a wrong character does.
    pub open spec fn decode(text: Seq<char>) -> Result<Layout, VikingChessError> {
        match Layout::read(text, text.len()) {
            Ok(layout) => if layout.complete() {
                Ok(layout)
            } else {
                Err(VikingChessError::InvalidNotation)
            },
            Err(e) => Err(e),
        }
    }

    /// Nothing is filled at or after the next square, the next square is not
    /// beyond the end of a row of the board, and no square is filled twice.
    pub open spec fn wf(self) -> bool {
        &&& 0 <= self.row <= 8
        &&& 0 <= self.col <= 9
        &&& forall|i: int| #[trigger]
            self.filled().contains(i) ==> 0 <= i < index_of(self.row, self.col) && i < 81
        &&& self.king.disjoint(self.defender)
        &&& self.king.disjoint(self.attacker)
        &&& self.defender.disjoint(self.attacker)
    }

    /// All filled squares.
    pub open spec fn filled(self) -> Set<int> {
        self.king.union(self.defender).union(self.attacker)
    }

    /// A step keeps a layout well formed.
    pub proof fn lemma_step_wf(self, ch: char)
        requires
            self.wf(),
        ensures
            self.step(ch) matches Ok(next) ==> next.wf(),
    {
        if let Ok(next) = self.step(ch) {
            let index = index_of(self.row, self.col);
            assert(!self.filled().contains(index));
            assert(!self.king.contains(index) && !self.defender.contains(index)
                && !self.attacker.contains(index));
            assert forall|i: int| #[trigger]
                next.filled().contains(i) implies 0 <= i < index_of(next.row, next.col) && i
                < 81 by {
                if !self.filled().contains(i) {
                    assert(i == index_of(self.row, self.col));
                }
            }
        }
    }

    /// Once the reading has failed, it stays failed with the same failure.
    pub proof fn lemma_read_failure_stays(text: Seq<char>, count: nat, more: nat)
        requires
            Layout::read(text, count) is Err,
            count <= more,
        ensures
            Layout::read(text, more) == Layout::read(text, count),
        decreases more,
    {
        if count < more {
            Layout::lemma_read_failure_stays(text, count, (more - 1) as nat);
        }
    }
}

} // verus!
