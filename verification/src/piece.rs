use vstd::prelude::*;

verus! {

/// The three kinds of piece. King and Defender play on one side, Attacker on
/// the other.
#[derive(Debug, PartialEq, Eq, Structural, PartialOrd, Clone, Copy, Hash)]
pub enum Piece {
    King,
    Defender,
    Attacker,
}

impl Piece {
    /// Number of piece kinds.
    pub const COUNT: usize = 3;

    /// The letters of the three kinds in the layout notation.
    pub const PIECES: [char; 3] = ['A', 'D', 'K'];

    /// Position of the kind in per-piece tables: King 0, Defender 1, Attacker 2.
    pub open spec fn spec_ordinal(self) -> usize {
        match self {
            Piece::King => 0,
            Piece::Defender => 1,
            Piece::Attacker => 2,
        }
    }

    /// The kind that stands for the other side: the Attacker for King and
    /// Defender, the Defender for the Attacker.
    pub open spec fn spec_opposite(&self) -> Piece {
        match self {
            Piece::King => Piece::Attacker,
            Piece::Defender => Piece::Attacker,
            Piece::Attacker => Piece::Defender,
        }
    }

    /// The kind that a letter of the layout notation names: `A` the Attacker,
    /// `D` the Defender, `K` the King.
    pub open spec fn spec_from_letter(letter: char) -> Option<Piece> {
        if letter == 'A' {
            Some(Piece::Attacker)
        } else if letter == 'D' {
            Some(Piece::Defender)
        } else if letter == 'K' {
            Some(Piece::King)
        } else {
            None
        }
    }

    /// Whether the two kinds play on the same side.
    pub open spec fn allied(self, other: Piece) -> bool {
        (self == Piece::Attacker) == (other == Piece::Attacker)
    }

    /// Position of the kind in per-piece tables.
    #[verifier::when_used_as_spec(spec_ordinal)]
    pub fn ordinal(self) -> (n: usize)
        ensures
            n == self.spec_ordinal(),
            n < Piece::COUNT,
    {
        match self {
            Piece::King => 0,
            Piece::Defender => 1,
            Piece::Attacker => 2,
        }
    }

    /// The kind that a letter of the layout notation names, if it names one.
    #[verifier::when_used_as_spec(spec_from_letter)]
    pub fn from_letter(letter: char) -> (piece: Option<Piece>)
        ensures
            piece == Piece::spec_from_letter(letter),
    {
        if letter == 'A' {
            Some(Piece::Attacker)
        } else if letter == 'D' {
            Some(Piece::Defender)
        } else if letter == 'K' {
            Some(Piece::King)
        } else {
            None
        }
    }

    /// The kind that stands for the other side.
    #[verifier::when_used_as_spec(spec_opposite)]
    pub fn opposite(&self) -> (other: Piece)
        ensures
            other == self.spec_opposite(),
            !self.allied(other),
    {
        match self {
            Piece::King => Piece::Attacker,
            Piece::Defender => Piece::Attacker,
            Piece::Attacker => Piece::Defender,
        }
    }
}

} // verus!
