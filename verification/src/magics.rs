use vstd::prelude::*;
use std::collections::HashMap;
use crate::bitboard::Bitboard;
use crate::mask::lemma_bits_and;
use crate::mask::lemma_bits_not;
use crate::mask::lemma_mask_ext;
use crate::mask::lemma_subset_bits;
use crate::mask::Mask;
use crate::rays::inner;
use crate::rays::lemma_slide_by_inner;
use crate::rays::lines;
use crate::rays::slide;
use crate::square::Square;

verus! {

/// A table that answers, square by square, where a piece can slide to: for
/// each square a multiplier and a map from a hashed pattern of blockers to the
/// squares reached past that pattern.
pub struct MagicTable {
    /// The multiplier of each square, in the order of the squares' indices.
    pub magics: Vec<Mask>,
    /// For each square, the squares reached, filed under the hashed pattern.
    pub moves: Vec<HashMap<u128, Mask>>,
}

impl MagicTable {
    /// Where the table is kept on disk.
    pub const MAGICS_PATH: &'static str = "./assets/magics.ron";

    /// Number of index bits of each square.
    pub const SHIFTS: [u32; 81] = [
        14, 13, 13, 13, 13, 13, 13, 13, 14,
        13, 12, 12, 12, 12, 12, 12, 12, 13,
        13, 12, 12, 12, 12, 12, 12, 12, 13,
        13, 12, 12, 12, 12, 12, 12, 12, 13,
        13, 12, 12, 12, 12, 12, 12, 12, 13,
        13, 12, 12, 12, 12, 12, 12, 12, 13,
        13, 12, 12, 12, 12, 12, 12, 12, 13,
        13, 12, 12, 12, 12, 12, 12, 12, 13,
        14, 13, 13, 13, 13, 13, 13, 13, 14,
    ];

    /// Number of index bits of a square: 12, and one more for each edge of
    /// the board that the square lies on.
    pub open spec fn spec_shift(square: Square) -> u32 {
        let on_row_edge: u32 = if square.row == 0 || square.row == 8 {
            1
        } else {
            0
        };
        let on_col_edge: u32 = if square.col == 0 || square.col == 8 {
            1
        } else {
            0
        };
        (12 + on_row_edge + on_col_edge) as u32
    }

    /// The occupied squares that decide how far a piece on `square` slides:
    /// those of `occupancy` that lie on the lines of the square, short of the
    /// last square of each ray.
    pub open spec fn spec_relevant(square: Square, occupancy: Mask) -> Mask {
        Mask((Bitboard::spec_moves(square).0 & occupancy.0) & Bitboard::spec_blockers(square).0)
    }

    /// The hashed pattern under which the table files the answer for a
    /// square and an occupancy: the relevant squares times the multiplier of
    /// the square, cut to 128 bits, of which the top index bits are kept.
    pub open spec fn spec_key(&self, square: Square, occupancy: Mask) -> u128 {
        let relevant = MagicTable::spec_relevant(square, occupancy);
        let product = vstd::wrapping::u128_specs::wrapping_mul(
            relevant.0,
            self.magics@[square.spec_index() as int].0,
        );
        product >> ((128 - MagicTable::spec_shift(square)) as u128)
    }

    /// The table has an answer for the square and the occupancy.
    pub open spec fn covers(&self, square: Square, occupancy: Mask) -> bool {
        &&& square.spec_index() < self.magics@.len()
        &&& square.spec_index() < self.moves@.len()
        &&& self.moves@[square.spec_index() as int]@.contains_key(self.spec_key(square, occupancy))
    }

    /// The answer as the table holds it.
    pub open spec fn spec_stored(&self, square: Square, occupancy: Mask) -> Mask {
        self.moves@[square.spec_index() as int]@[self.spec_key(square, occupancy)]
    }

    /// The answer of the table without the occupied squares.
    pub open spec fn spec_lookup(&self, square: Square, occupancy: Mask) -> Mask {
        Mask(self.spec_stored(square, occupancy).0 & !occupancy.0)
    }

    /// The table has an answer for the square and the occupancy, and the
    /// answer is the slide past the relevant squares.
    pub open spec fn entry_sound(&self, square: Square, occupancy: Mask) -> bool {
        &&& self.covers(square, occupancy)
        &&& self.spec_stored(square, occupancy)@ == slide(
            square.spec_index() as int,
            MagicTable::spec_relevant(square, occupancy)@,
        )
    }

    /// At `square` the table has a sound answer for every occupancy.
    pub open spec fn sound_at(&self, square: Square) -> bool {
        forall|occupancy: Mask| self.entry_sound(square, occupancy)
    }

    /// The table has a sound answer for every square and every occupancy.
    pub open spec fn sound(&self) -> bool {
        forall|square: Square| square.wf() ==> #[trigger] self.sound_at(square)
    }

    /// The squares of the relevant mask.
    pub proof fn lemma_relevant(square: Square, occupancy: Mask)
        requires
            square.wf(),
        ensures
            MagicTable::spec_relevant(square, occupancy)@ == occupancy@.intersect(
                inner(square.spec_index() as int),
            ),
            MagicTable::spec_relevant(square, occupancy).wf(),
    {
        Bitboard::lemma_spec_moves(square);
        Bitboard::lemma_spec_blockers(square);
        let moves = Bitboard::spec_moves(square).0;
        let blockers = Bitboard::spec_blockers(square).0;
        lemma_bits_and(moves, occupancy.0);
        lemma_bits_and(moves & occupancy.0, blockers);
        assert(MagicTable::spec_relevant(square, occupancy)@ =~= occupancy@.intersect(
            inner(square.spec_index() as int),
        ));
        crate::mask::lemma_bits_in_range(blockers);
        crate::mask::lemma_bits_in_range((moves & occupancy.0) & blockers);
    }

    /// A mask of relevant squares alone is its own relevant mask.
    pub proof fn lemma_relevant_fixed(square: Square, pattern: Mask)
        requires
            square.wf(),
            pattern@.subset_of(inner(square.spec_index() as int)),
        ensures
            MagicTable::spec_relevant(square, pattern) == pattern,
    {
        MagicTable::lemma_relevant(square, pattern);
        assert(MagicTable::spec_relevant(square, pattern)@ =~= pattern@);
        lemma_mask_ext(MagicTable::spec_relevant(square, pattern), pattern);
    }

    /// Whether an entry is sound depends on the relevant squares of the
    /// occupancy alone.
    pub proof fn lemma_entry_by_relevant(&self, square: Square, occupancy: Mask)
        requires
            square.wf(),
        ensures
            self.entry_sound(square, occupancy) == self.entry_sound(
                square,
                MagicTable::spec_relevant(square, occupancy),
            ),
    {
        MagicTable::lemma_relevant(square, occupancy);
        MagicTable::lemma_relevant_fixed(square, MagicTable::spec_relevant(square, occupancy));
    }

    /// With a sound table the lookup gives, for every square and every
    /// occupancy, what walking the rays gives.
    pub proof fn lemma_sound_lookup(&self, square: Square, occupancy: Mask)
        requires
            self.sound(),
            square.wf(),
        ensures
            self.covers(square, occupancy),
            self.spec_lookup(square, occupancy)@ == slide(square.spec_index() as int, occupancy@),
    {
        assert(self.sound_at(square));
        assert(self.entry_sound(square, occupancy));
        self.lemma_lookup_is_slide(square, occupancy);
    }

    /// Where an entry of the table is sound, the lookup gives what walking
    /// the rays gives: the slide from the square with every occupied square
    /// as a blocker, which is also the slide with only the occupied squares
    /// on the lines of the square as blockers.
    pub proof fn lemma_lookup_is_slide(&self, square: Square, occupancy: Mask)
        requires
            square.wf(),
            self.entry_sound(square, occupancy),
        ensures
            self.spec_lookup(square, occupancy)@ == slide(square.spec_index() as int, occupancy@),
            self.spec_lookup(square, occupancy)@ == slide(
                square.spec_index() as int,
                Mask(Bitboard::spec_moves(square).0 & occupancy.0)@,
            ),
            self.spec_lookup(square, occupancy).wf(),
    {
        let origin = square.spec_index() as int;
        let stored = self.spec_stored(square, occupancy);
        MagicTable::lemma_relevant(square, occupancy);
        lemma_slide_by_inner(origin, occupancy@);
        lemma_bits_not(occupancy.0);
        lemma_bits_and(stored.0, !occupancy.0);
        assert(self.spec_lookup(square, occupancy)@ =~= stored@.difference(occupancy@));
        Bitboard::lemma_spec_moves(square);
        lemma_bits_and(Bitboard::spec_moves(square).0, occupancy.0);
        assert(Mask(Bitboard::spec_moves(square).0 & occupancy.0)@ =~= occupancy@.intersect(
            lines(origin),
        ));
        crate::mask::lemma_bits_in_range(self.spec_lookup(square, occupancy).0);
    }

    /// The table of a list of entries, one for each square in the order of
    /// their indices: the multiplier of the square and its map.
    pub fn from_entries(entries: Vec<(Mask, HashMap<u128, Mask>)>) -> (table: MagicTable)
        ensures
            table.magics@.len() == entries@.len(),
            table.moves@.len() == entries@.len(),
            forall|i: int|
                0 <= i < entries@.len() ==> table.magics@[i] == entries@[i].0 && table.moves@[i]
                    == entries@[i].1,
    {
        let mut magics: Vec<Mask> = Vec::new();
        let mut moves: Vec<HashMap<u128, Mask>> = Vec::new();
        for entry in it: entries
            invariant
                magics@.len() == it.index(),
                moves@.len() == it.index(),
                it.seq() == entries@,
                forall|i: int|
                    0 <= i < it.index() ==> magics@[i] == entries@[i].0 && moves@[i]
                        == entries@[i].1,
        {
            let (magic, map) = entry;
            magics.push(magic);
            moves.push(map);
        }
        MagicTable { magics, moves }
    }

    /// Whether the table has an answer for the square and the occupancy, and
    /// the answer is what walking the rays past the relevant squares gives.
    pub fn verifies(&self, square: Square, occupancy: Mask) -> (sound: bool)
        requires
            square.wf(),
        ensures
            sound == self.entry_sound(square, occupancy),
    {
        broadcast use vstd::std_specs::hash::group_hash_axioms;

        let index = square.index();
        if index >= self.magics.len() || index >= self.moves.len() {
            return false;
        }
        let relevant = MagicTable::relevant(square, occupancy);
        let key = self.key(square, occupancy);
        match self.moves[index].get(&key) {
            Some(stored) => {
                let walked = Bitboard::legal_moves(square, relevant);
                proof {
                    if stored@ == walked@ {
                        lemma_mask_ext(*stored, walked);
                    }
                }
                stored.0 == walked.0
            },
            None => false,
        }
    }

    /// Whether the table has a sound answer for every occupancy at `square`:
    /// tries every pattern of relevant squares, of which there are two to the
    /// power of the number of index bits.
    pub fn validates_square(&self, square: Square) -> (ok: bool)
        requires
            square.wf(),
        ensures
            ok == self.sound_at(square),
    {
        let blockers = Bitboard::blockers(square);
        let mut pattern = Mask::empty();
        loop
            invariant
                square.wf(),
                blockers@ == inner(square.spec_index() as int),
                pattern@.subset_of(blockers@),
                forall|t: Mask|
                    #[trigger] t@.subset_of(blockers@) && t.0 < pattern.0 ==> self.entry_sound(
                        square,
                        t,
                    ),
            decreases blockers.0 - pattern.0,
        {
            if !self.verifies(square, pattern) {
                return false;
            }
            let ghost tried = pattern;
            proof {
                lemma_subset_bits(pattern, blockers);
            }
            match pattern.next_subset(blockers) {
                Some(next) => {
                    proof {
                        lemma_subset_bits(next, blockers);
                        assert forall|t: Mask| #[trigger]
                            t@.subset_of(blockers@) && t.0 < next.0 implies self.entry_sound(
                            square,
                            t,
                        ) by {
                            if t.0 == tried.0 {
                                assert(t == tried);
                            }
                        }
                    }
                    pattern = next;
                },
                None => {
                    proof {
                        assert forall|occupancy: Mask| self.entry_sound(square, occupancy) by {
                            let relevant = MagicTable::spec_relevant(square, occupancy);
                            MagicTable::lemma_relevant(square, occupancy);
                            self.lemma_entry_by_relevant(square, occupancy);
                            lemma_subset_bits(relevant, blockers);
                            assert(relevant@.subset_of(blockers@));
                            if relevant.0 == tried.0 {
                                assert(relevant == tried);
                            }
                        }
                    }
                    return true;
                },
            }
        }
    }

    /// Whether the table has a sound answer for every square and every
    /// occupancy. A table that passes can stand in for walking the rays
    /// wherever a piece is moved.
    pub fn validate(&self) -> (ok: bool)
        ensures
            ok == self.sound(),
    {
        let mut index: usize = 0;
        while index < 81
            invariant
                index <= 81,
                forall|square: Square|
                    square.wf() && square.spec_index() < index ==> #[trigger] self.sound_at(square),
            decreases 81 - index,
        {
            let square = Square { row: (index / 9) as u8, col: (index % 9) as u8 };
            if !self.validates_square(square) {
                return false;
            }
            proof {
                assert forall|other: Square|
                    other.wf() && other.spec_index() < index + 1 implies #[trigger] self.sound_at(
                    other,
                ) by {
                    if other.spec_index() == index {
                        assert(other == square);
                    }
                }
            }
            index = index + 1;
        }
        true
    }

    /// Number of index bits of a square, as `SHIFTS` lists it.
    pub fn shift(square: Square) -> (bits: u32)
        requires
            square.wf(),
        ensures
            bits == MagicTable::spec_shift(square),
            bits == MagicTable::SHIFTS[square.spec_index() as int],
            12 <= bits <= 14,
    {
        MagicTable::SHIFTS[square.index()]
    }

    /// The occupied squares that decide how far a piece on `square` slides.
    pub fn relevant(square: Square, occupancy: Mask) -> (m: Mask)
        requires
            square.wf(),
        ensures
            m == MagicTable::spec_relevant(square, occupancy),
            m@ == occupancy@.intersect(inner(square.spec_index() as int)),
            m.wf(),
    {
        proof {
            MagicTable::lemma_relevant(square, occupancy);
        }
        Bitboard::moves(square).intersection(occupancy).intersection(Bitboard::blockers(square))
    }

    /// The hashed pattern under which the table files the answer for a
    /// square and an occupancy.
    pub fn key(&self, square: Square, occupancy: Mask) -> (key: u128)
        requires
            square.wf(),
            square.spec_index() < self.magics@.len(),
        ensures
            key == self.spec_key(square, occupancy),
    {
        let relevant = MagicTable::relevant(square, occupancy);
        let magic = self.magics[square.index()];
        let product = relevant.0.wrapping_mul(magic.0);
        product >> ((128 - MagicTable::shift(square)) as u128)
    }

    /// Where a piece on `square` can slide to when the squares of `occupancy`
    /// are taken, as the table has it; nothing when the table has no answer.
    pub fn lookup(&self, square: Square, occupancy: Mask) -> (res: Option<Mask>)
        requires
            square.wf(),
        ensures
            res == if self.covers(square, occupancy) {
                Some(self.spec_lookup(square, occupancy))
            } else {
                None
            },
            self.entry_sound(square, occupancy) ==> (res matches Some(m) && m@ == slide(
                square.spec_index() as int,
                occupancy@,
            )),
    {
        broadcast use vstd::std_specs::hash::group_hash_axioms;

        let index = square.index();
        if index >= self.magics.len() || index >= self.moves.len() {
            return None;
        }
        let key = self.key(square, occupancy);
        proof {
            if self.entry_sound(square, occupancy) {
                self.lemma_lookup_is_slide(square, occupancy);
            }
        }
        match self.moves[index].get(&key) {
            Some(stored) => Some(stored.difference(occupancy)),
            None => None,
        }
    }
}

} // verus!
