use vstd::prelude::*;
use vstd::seq_lib::seq_to_set_is_finite;
use vstd::set_lib::lemma_len_subset;
use rand::RngCore;
use crate::action::Action;
use crate::bitboard::Bitboard;
use crate::piece::Piece;
use crate::square::Square;

verus! {

/// The generator of `rand` that lives in the current thread.
#[verifier::external_type_specification]
#[verifier::external_body]
pub struct ExThreadRng(rand::rngs::ThreadRng);

/// `rand::rng` hands out the generator of the current thread. Nothing is
/// claimed of it. The first call in a thread seeds the generator from the
/// operating system, and stops the program if the system has no randomness
/// to give.
pub assume_specification[ rand::rng ]() -> (generator: rand::rngs::ThreadRng)
;

/// `RngCore::next_u64` on the thread's generator: the next 64 random bits.
/// Nothing is claimed of the number. From time to time the generator seeds
/// itself anew from the operating system, and stops the program if the system
/// has no randomness to give.
#[verifier::external_body]
fn next_draw(generator: &mut rand::rngs::ThreadRng) -> (draw: u64) {
    generator.next_u64()
}

/// The value `by` steps after `start`, counting round from the largest value
/// to zero.
pub open spec fn stepped(start: u64, by: int) -> u64 {
    ((start + by) % 0x1_0000_0000_0000_0000) as u64
}

/// The first value at or after `start`, counting round, that `taken` does not
/// hold, looking at no more than `tries` values beyond `start`.
pub open spec fn first_free(taken: Seq<u64>, start: u64, tries: nat) -> u64
    decreases tries,
{
    if tries == 0 || !taken.contains(start) {
        start
    } else {
        first_free(taken, stepped(start, 1), (tries - 1) as nat)
    }
}

/// One step after `by` steps is `by + 1` steps, also where the count goes
/// round.
pub proof fn lemma_stepped_once_more(start: u64, by: int)
    requires
        0 <= by,
    ensures
        stepped(start, 0) == start,
        stepped(stepped(start, by), 1) == stepped(start, by + 1),
        vstd::wrapping::u64_specs::wrapping_add(stepped(start, by), 1) == stepped(start, by + 1),
{
    let m = 0x1_0000_0000_0000_0000int;
    let a = (start + by) % m;
    assert((a + 1) % m == (start + by + 1) % m) by (nonlinear_arith)
        requires
            a == (start + by) % m,
            m == 0x1_0000_0000_0000_0000int,
    ;
}

/// A sequence cannot hold more distinct values than it has places: of the
/// values from `start` to as many steps on as the sequence is long, one is
/// missing.
pub proof fn lemma_window_has_gap(taken: Seq<u64>, start: u64)
    requires
        taken.len() < 0x1_0000_0000_0000_0000,
    ensures
        exists|k: int| 0 <= k <= taken.len() && !taken.contains(#[trigger] stepped(start, k)),
{
    if forall|k: int| 0 <= k <= taken.len() ==> taken.contains(#[trigger] stepped(start, k)) {
        let window = Seq::new(taken.len() + 1, |k: int| stepped(start, k));
        assert(window.no_duplicates());
        window.unique_seq_to_set();
        seq_to_set_is_finite(taken);
        assert forall|v: u64| window.to_set().contains(v) implies taken.to_set().contains(v) by {
            let k = choose|k: int| 0 <= k < window.len() && window[k] == v;
            assert(taken.contains(stepped(start, k)));
        }
        lemma_len_subset(window.to_set(), taken.to_set());
        taken.lemma_cardinality_of_set();
    }
}

/// Whether the first `count` of the keys hold the value.
pub fn holds(keys: &[u64; 243], count: usize, value: u64) -> (found: bool)
    requires
        count <= 243,
    ensures
        found == keys@.take(count as int).contains(value),
{
    let mut i: usize = 0;
    while i < count
        invariant
            i <= count <= 243,
            forall|k: int| 0 <= k < i ==> keys@[k] != value,
        decreases count - i,
    {
        if keys[i] == value {
            assert(keys@.take(count as int)[i as int] == value);
            return true;
        }
        i = i + 1;
    }
    false
}

/// The key that a draw gives when the first `count` of the keys are taken:
/// the draw itself, or the next value after it that is free.
pub fn settle(keys: &[u64; 243], count: usize, draw: u64) -> (key: u64)
    requires
        count <= 243,
    ensures
        key == first_free(keys@.take(count as int), draw, count as nat),
        !keys@.take(count as int).contains(key),
        !keys@.take(count as int).contains(draw) ==> key == draw,
{
    let ghost taken = keys@.take(count as int);
    let mut candidate = draw;
    let mut tried: usize = 0;
    proof {
        lemma_stepped_once_more(draw, 0);
    }
    while holds(keys, count, candidate)
        invariant
            count <= 243,
            taken == keys@.take(count as int),
            taken.len() == count,
            tried <= count,
            candidate == stepped(draw, tried as int),
            forall|k: int| 0 <= k < tried ==> taken.contains(#[trigger] stepped(draw, k)),
            first_free(taken, draw, count as nat) == first_free(
                taken,
                candidate,
                (count - tried) as nat,
            ),
        decreases count - tried,
    {
        proof {
            lemma_window_has_gap(taken, draw);
            let gap = choose|k: int|
                0 <= k <= taken.len() && !taken.contains(#[trigger] stepped(draw, k));
            assert(gap > tried);
            lemma_stepped_once_more(draw, tried as int);
            assert(first_free(taken, candidate, (count - tried) as nat) == first_free(
                taken,
                stepped(candidate, 1),
                (count - tried - 1) as nat,
            ));
        }
        candidate = candidate.wrapping_add(1);
        tried = tried + 1;
    }
    candidate
}

/// One random key for each kind of piece on each square: 243 keys, no two
/// alike.
pub struct ZobristTable {
    keys: [u64; 243],
}

impl View for ZobristTable {
    type V = Seq<u64>;

    /// The keys: first those of the King, square by square, then those of
    /// the Defender, then those of the Attacker.
    closed spec fn view(&self) -> Seq<u64> {
        self.keys@
    }
}

impl ZobristTable {
    /// Number of keys: one for each of the three kinds on each of the 81
    /// squares.
    pub const TABLE_LENGTH: usize = 243;

    /// There are 243 keys, and no two are the same. Every table that the
    /// program holds is so.
    #[verifier::type_invariant]
    pub open spec fn wf(&self) -> bool {
        self@.len() == 243 && self@.no_duplicates()
    }

    /// Where the key of a piece on a square stands in the table.
    pub open spec fn slot(piece: Piece, square: Square) -> int {
        piece.spec_ordinal() * 81 + square.spec_index()
    }

    /// The key of a piece on a square.
    pub open spec fn spec_key(&self, piece: Piece, square: Square) -> u64 {
        self@[ZobristTable::slot(piece, square)]
    }

    /// The hash after a move: the key of the piece on its old square is taken
    /// out, and its key on the new square is put in.
    pub open spec fn spec_hash_after(&self, hash: u64, action: Action) -> u64 {
        (hash ^ self.spec_key(action.piece, action.from)) ^ self.spec_key(action.piece, action.to)
    }

    /// A move and the move that takes it back leave the hash as it was.
    pub proof fn lemma_move_and_back(&self, hash: u64, action: Action)
        ensures
            self.spec_hash_after(self.spec_hash_after(hash, action), action.reversed()) == hash,
    {
        let a = self.spec_key(action.piece, action.from);
        let b = self.spec_key(action.piece, action.to);
        assert((((hash ^ a) ^ b) ^ b) ^ a == hash) by (bit_vector);
    }

    /// A move between two squares changes the hash.
    pub proof fn lemma_move_changes_hash(&self, hash: u64, action: Action)
        requires
            self.wf(),
            action.wf(),
            action.from != action.to,
        ensures
            self.spec_hash_after(hash, action) != hash,
    {
        let a = self.spec_key(action.piece, action.from);
        let b = self.spec_key(action.piece, action.to);
        assert(ZobristTable::slot(action.piece, action.from) != ZobristTable::slot(
            action.piece,
            action.to,
        ));
        assert(a != b);
        assert(a != b ==> (hash ^ a) ^ b != hash) by (bit_vector);
    }

    /// What a square adds to the hash of a position: the key of its piece,
    /// or nothing where it is empty.
    pub open spec fn square_term(&self, bitboard: &Bitboard, index: usize) -> u64 {
        match bitboard.spec_piece_at(index) {
            Some(piece) => self@[piece.spec_ordinal() * 81 + index],
            None => 0,
        }
    }

    /// The exclusive or of what the first `count` squares add to the hash.
    pub open spec fn hash_below(&self, bitboard: &Bitboard, count: nat) -> u64
        decreases count,
    {
        if count == 0 {
            0
        } else {
            self.hash_below(bitboard, (count - 1) as nat) ^ self.square_term(
                bitboard,
                (count - 1) as usize,
            )
        }
    }

    /// The hash of a position: the exclusive or of the keys of all pieces on
    /// their squares.
    pub open spec fn spec_hash(&self, bitboard: &Bitboard) -> u64 {
        self.hash_below(bitboard, 81)
    }

    /// Empty squares add nothing: where the squares from `low` up to `high`
    /// are empty, the hash below `high` is the hash below `low`.
    pub proof fn lemma_hash_skips_empty(&self, bitboard: &Bitboard, low: nat, high: nat)
        requires
            low <= high <= 81,
            forall|i: usize| low <= i < high ==> (#[trigger] bitboard.spec_piece_at(i)) is None,
        ensures
            self.hash_below(bitboard, high) == self.hash_below(bitboard, low),
        decreases high - low,
    {
        if low < high {
            self.lemma_hash_skips_empty(bitboard, low, (high - 1) as nat);
            assert(bitboard.spec_piece_at((high - 1) as usize) is None);
            let h = self.hash_below(bitboard, (high - 1) as nat);
            assert(h ^ 0 == h) by (bit_vector);
        }
    }

    /// Two positions that differ on one square at most have hashes that
    /// differ by what that square adds to the one and to the other.
    pub proof fn lemma_hash_one_square(
        &self,
        before: &Bitboard,
        after: &Bitboard,
        index: usize,
        count: nat,
    )
        requires
            count <= 81,
            forall|i: usize|
                i != index ==> #[trigger] self.square_term(after, i) == self.square_term(before, i),
        ensures
            self.hash_below(after, count) == if count > index {
                self.hash_below(before, count) ^ (self.square_term(before, index)
                    ^ self.square_term(after, index))
            } else {
                self.hash_below(before, count)
            },
        decreases count,
    {
        if count > 0 {
            self.lemma_hash_one_square(before, after, index, (count - 1) as nat);
            let old_term = self.square_term(before, index);
            let new_term = self.square_term(after, index);
            let below = self.hash_below(before, (count - 1) as nat);
            if count - 1 == index {
                assert(below ^ new_term == (below ^ old_term) ^ (old_term ^ new_term))
                    by (bit_vector);
            } else if count - 1 > index {
                let term = self.square_term(before, (count - 1) as usize);
                assert(self.square_term(after, (count - 1) as usize) == term);
                assert((below ^ (old_term ^ new_term)) ^ term == (below ^ term) ^ (old_term
                    ^ new_term)) by (bit_vector);
            } else {
                assert(self.square_term(after, (count - 1) as usize) == self.square_term(
                    before,
                    (count - 1) as usize,
                ));
            }
        }
    }

    /// The table that 243 draws give. Each draw becomes a key as it is,
    /// unless an earlier key has the same value: then the next value that is
    /// free takes its place.
    pub fn from_draws(draws: &[u64; 243]) -> (table: ZobristTable)
        ensures
            table.wf(),
            forall|i: int|
                0 <= i < 243 ==> #[trigger] table@[i] == first_free(
                    table@.take(i),
                    draws@[i],
                    i as nat,
                ),
            draws@.no_duplicates() ==> table@ == draws@,
    {
        let mut keys: [u64; 243] = [0u64; 243];
        let mut i: usize = 0;
        while i < ZobristTable::TABLE_LENGTH
            invariant
                i <= 243,
                keys@.take(i as int).no_duplicates(),
                forall|k: int|
                    0 <= k < i ==> #[trigger] keys@[k] == first_free(
                        keys@.take(k),
                        draws@[k],
                        k as nat,
                    ),
                draws@.take(i as int).no_duplicates() ==> keys@.take(i as int) == draws@.take(
                    i as int,
                ),
            decreases 243 - i,
        {
            let key = settle(&keys, i, draws[i]);
            let ghost before = keys@;
            keys[i] = key;
            proof {
                assert(keys@ == before.update(i as int, key));
                assert(keys@.take(i as int) == before.take(i as int));
                assert(keys@.take(i + 1) == before.take(i as int).push(key));
                assert forall|k: int| 0 <= k < i + 1 implies #[trigger] keys@[k] == first_free(
                    keys@.take(k),
                    draws@[k],
                    k as nat,
                ) by {
                    assert(keys@.take(k) == before.take(k));
                }
                if draws@.take(i + 1).no_duplicates() {
                    assert(draws@.take(i as int) == draws@.take(i + 1).take(i as int));
                    assert(draws@.take(i as int).no_duplicates());
                    let taken = before.take(i as int);
                    assert(!taken.contains(draws@[i as int])) by {
                        if taken.contains(draws@[i as int]) {
                            let k = choose|k: int|
                                0 <= k < taken.len() && taken[k] == draws@[i as int];
                            assert(draws@.take(i + 1)[k] == draws@.take(i + 1)[i as int]);
                        }
                    }
                    assert(keys@.take(i + 1) == draws@.take(i + 1));
                }
            }
            i = i + 1;
        }
        proof {
            assert(draws@.take(243) == draws@);
            assert(keys@.take(243) == keys@);
        }
        ZobristTable { keys }
    }

    /// A table of fresh random keys, drawn from the generator of the current
    /// thread. The program stops if the operating system has no randomness to
    /// seed that generator with.
    pub fn new() -> (table: ZobristTable)
        ensures
            table.wf(),
    {
        let mut generator = rand::rng();
        let mut draws: [u64; 243] = [0u64; 243];
        let mut i: usize = 0;
        while i < ZobristTable::TABLE_LENGTH
            invariant
                i <= 243,
            decreases 243 - i,
        {
            let draw = next_draw(&mut generator);
            draws[i] = draw;
            i = i + 1;
        }
        ZobristTable::from_draws(&draws)
    }

    /// The key of a piece on a square.
    pub fn key(&self, piece: Piece, square: Square) -> (k: u64)
        requires
            square.wf(),
        ensures
            k == self.spec_key(piece, square),
            self.wf(),
    {
        proof {
            use_type_invariant(self);
        }
        self.keys[piece.ordinal() * 81 + square.index()]
    }

    /// All keys, in the order of the table.
    pub fn keys(&self) -> (keys: &[u64; 243])
        ensures
            keys@ == self@,
            self.wf(),
    {
        proof {
            use_type_invariant(self);
        }
        &self.keys
    }
}

impl core::ops::Deref for ZobristTable {
    type Target = [u64; 243];

    /// All keys, in the order of the table.
    fn deref(&self) -> (keys: &[u64; 243])
        ensures
            keys@ == self@,
            self.wf(),
    {
        proof {
            use_type_invariant(self);
        }
        &self.keys
    }
}

impl core::ops::Index<(Piece, Square)> for ZobristTable {
    type Output = u64;

    /// The key of a piece on a square.
    fn index(&self, index: (Piece, Square)) -> (key: &u64)
        ensures
            *key == self.spec_key(index.0, index.1),
    {
        proof {
            use_type_invariant(self);
        }
        &self.keys[index.0.ordinal() * 81 + index.1.index()]
    }
}

impl vstd::std_specs::core::IndexSpecImpl<(Piece, Square)> for ZobristTable {
    open spec fn index_req(&self, index: &(Piece, Square)) -> bool {
        index.1.wf()
    }
}

} // verus!
