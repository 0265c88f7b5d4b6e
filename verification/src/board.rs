use vstd::pervasive::unreached;
use vstd::prelude::*;
use vstd::string::StrSliceExecFns;
use crate::action::Action;
use crate::bitboard::Bitboard;
use crate::bitboard::BitboardIter;
use crate::error::VikingChessError;
use crate::error::VikingChessResult;
use crate::magics::MagicTable;
use crate::mask::Mask;
use crate::notation::spec_layout_word;
use crate::notation::spec_side_word;
use crate::notation::spec_word_end;
use crate::notation::word_end;
use crate::notation::Layout;
use crate::piece::Piece;
use crate::rays::lemma_slide_by_inner;
use crate::rays::lines;
use crate::rays::slide;
use crate::square::index_of;
use crate::square::offset_col_delta;
use crate::square::offset_row_delta;
use crate::square::Square;
use crate::state::State;
use crate::zobrist::ZobristTable;

verus! {

/// A game: the position, the keys that hash it, the current state and the
/// states saved so far.
pub struct Board {
    bitboard: Bitboard,
    zobrist_table: ZobristTable,
    history: Vec<State>,
    pub state: State,
}

impl Board {
    /// The usual starting position, with the Attacker to move.
    pub const STARTING_FEN: &'static str = "3AAA3/4A4/4D4/A3D3A/AADDKDDAA/A3D3A/4D4/4A4/3AAA3 B";

    /// The empty board, with the Attacker to move.
    pub const EMPTY_FEN: &'static str = "9/9/9/9/9/9/9/9/9 B";

    /// The position.
    pub closed spec fn position(&self) -> Bitboard {
        self.bitboard
    }

    /// The keys of the hash.
    pub closed spec fn table(&self) -> ZobristTable {
        self.zobrist_table
    }

    /// The current state.
    pub closed spec fn current(&self) -> State {
        self.state
    }

    /// The saved states, oldest first.
    pub closed spec fn log(&self) -> Seq<State> {
        self.history@
    }

    /// The position is well formed, and the side on turn is the Attacker or
    /// the Defender.
    pub open spec fn wf(&self) -> bool {
        &&& self.position().wf()
        &&& self.current().turn != Piece::King
    }

    /// The hash of the state is the hash of the position.
    pub open spec fn hash_consistent(&self) -> bool {
        self.current().zobrist_hash == self.table().spec_hash(&self.position())
    }

    /// The squares of the pieces of the side on turn: the Attackers, or the
    /// Defenders with the King.
    pub open spec fn spec_turn_squares(&self) -> Set<int> {
        if self.current().turn == Piece::Attacker {
            self.position().mask_of(Piece::Attacker)@
        } else {
            self.position().mask_of(Piece::Defender)@.union(self.position().mask_of(Piece::King)@)
        }
    }

    /// The position.
    pub fn bitboard(&self) -> (bitboard: &Bitboard)
        ensures
            *bitboard == self.position(),
    {
        &self.bitboard
    }

    /// The keys of the hash.
    pub fn zobrist_table(&self) -> (table: &ZobristTable)
        ensures
            *table == self.table(),
    {
        &self.zobrist_table
    }

    /// The current state: the hash of the position, the side on turn and
    /// the last move.
    pub fn state(&self) -> (state: State)
        ensures
            state == self.current(),
    {
        self.state
    }

    /// The saved states, oldest first.
    pub fn history(&self) -> (history: &Vec<State>)
        ensures
            history@ == self.log(),
    {
        &self.history
    }

    /// Why a text in layout notation gives no game, if it gives none: the
    /// first word is no layout of the whole board, or what follows it is not
    /// one space and the letter of a side.
    pub open spec fn spec_fen_error(text: Seq<char>) -> Option<VikingChessError> {
        let word = spec_layout_word(text);
        match Layout::decode(word) {
            Err(e) => Some(e),
            Ok(_) => if spec_side_word(text) is None {
                Some(VikingChessError::InvalidNotation)
            } else {
                None
            },
        }
    }

    /// The game begins in the position and with the side that the text
    /// gives: the hash is that of the position, no move has been made, and the
    /// first state is saved.
    pub open spec fn begins_as(&self, text: Seq<char>) -> bool {
        let word = spec_layout_word(text);
        &&& Layout::decode(word) matches Ok(layout) && self.position().matches_layout(layout)
        &&& spec_side_word(text) == Some(self.current().turn)
        &&& self.current().action is None
        &&& self.log() == seq![self.current()]
        &&& self.hash_consistent()
        &&& self.wf()
    }

    /// Where the Attackers stand in the usual starting position.
    pub open spec fn starting_attackers() -> Set<int> {
        set![3int, 4, 5, 13, 27, 35, 36, 37, 43, 44, 45, 53, 67, 75, 76, 77]
    }

    /// Where the Defenders stand in the usual starting position.
    pub open spec fn starting_defenders() -> Set<int> {
        set![22int, 31, 38, 39, 41, 42, 49, 58]
    }

    /// The text of the usual starting position is in order. Its first word
    /// puts sixteen Attackers on the edges, eight Defenders around the centre
    /// and the King on the centre; its second word names the Attacker.
    pub proof fn lemma_starting_fen()
        ensures
            Board::spec_fen_error(Board::STARTING_FEN@) is None,
            spec_side_word(Board::STARTING_FEN@) == Some(Piece::Attacker),
            Layout::decode(spec_layout_word(Board::STARTING_FEN@)) matches Ok(layout)
                && layout.king == set![40int] && layout.defender == Board::starting_defenders()
                && layout.attacker == Board::starting_attackers(),
    {
        reveal_strlit("3AAA3/4A4/4D4/A3D3A/AADDKDDAA/A3D3A/4D4/4A4/3AAA3 B");
        reveal_with_fuel(spec_word_end, 50);
        reveal_with_fuel(Layout::read, 50);
        let text = Board::STARTING_FEN@;
        assert(text.len() == 51);
        assert(spec_word_end(text, 0) == 49);
        let word = spec_layout_word(text);
        assert(word.len() == 49);
        assert(Layout::read(word, 49) is Ok);
        let layout = Layout::read(word, 49)->Ok_0;
        assert(layout.row == 8 && layout.col == 9);
        assert(layout.king =~= set![40int]);
        assert(layout.defender =~= Board::starting_defenders());
        assert(layout.attacker =~= Board::starting_attackers());
    }

    /// A game in the usual starting position, with the Attacker to move and
    /// fresh random keys.
    pub fn new() -> (board: Board)
        ensures
            board.begins_as(Board::STARTING_FEN@),
            board.current().turn == Piece::Attacker,
            board.position().mask_of(Piece::King)@ == set![40int],
            board.position().mask_of(Piece::Defender)@ == Board::starting_defenders(),
            board.position().mask_of(Piece::Attacker)@ == Board::starting_attackers(),
    {
        proof {
            Board::lemma_starting_fen();
        }
        match Board::from_fen(Board::STARTING_FEN) {
            Ok(board) => board,
            Err(_) => unreached(),
        }
    }

    /// A game from a text in layout notation and a table of keys. The text
    /// is the layout of the board, one space, and `B` where the Attacker
    /// begins or `W` where the Defender does; nothing may follow.
    pub fn from_fen_with(text: &str, zobrist_table: ZobristTable) -> (res: VikingChessResult<Board>)
        ensures
            match Board::spec_fen_error(text@) {
                Some(e) => res matches Err(failure) && failure == e,
                None => res matches Ok(board) && board.begins_as(text@) && board.table()
                    == zobrist_table,
            },
    {
        let first = word_end(text, 0);
        let layout = text.substring_char(0, first);
        let bitboard = match Bitboard::from_fen(layout) {
            Ok(bitboard) => bitboard,
            Err(e) => {
                return Err(e);
            },
        };
        let n = text.unicode_len();
        if first >= n {
            return Err(VikingChessError::InvalidNotation);
        }
        if n - first != 2 {
            return Err(VikingChessError::InvalidNotation);
        }
        let side = text.get_char(first + 1);
        let turn = if side == 'B' {
            Piece::Attacker
        } else if side == 'W' {
            Piece::Defender
        } else {
            return Err(VikingChessError::InvalidNotation);
        };
        let zobrist_hash = Board::calculate_hash(&bitboard, &zobrist_table);
        let state = State { zobrist_hash, turn, action: None };
        let mut history: Vec<State> = Vec::new();
        history.push(state);
        Ok(Board { bitboard, zobrist_table, history, state })
    }

    /// A game from a text in layout notation, with fresh random keys.
    pub fn from_fen(text: &str) -> (res: VikingChessResult<Board>)
        ensures
            match Board::spec_fen_error(text@) {
                Some(e) => res matches Err(failure) && failure == e,
                None => res matches Ok(board) && board.begins_as(text@),
            },
    {
        Board::from_fen_with(text, ZobristTable::new())
    }

    /// Whether the position is well formed and the side on turn is the
    /// Attacker or the Defender.
    pub fn is_well_formed(&self) -> (ok: bool)
        ensures
            ok == self.wf(),
    {
        let playing = match self.state.turn {
            Piece::King => false,
            _ => true,
        };
        playing && self.bitboard.is_well_formed()
    }

    /// The position drawn as a board, row by row.
    pub fn to_text(&self) -> (text: String)
        ensures
            text@ == self.position().spec_text(),
    {
        self.bitboard.to_text()
    }

    /// A cursor over the pieces of the position.
    pub fn iter_bitboard<'a>(&'a self) -> (cursor: BitboardIter<'a>)
        ensures
            cursor.position() == 0,
            *cursor.board() == self.position(),
    {
        self.bitboard.iter()
    }

    /// The squares of the pieces of the side on turn.
    pub fn turn_mask(&self) -> (m: Mask)
        requires
            self.current().turn != Piece::King,
        ensures
            m@ == self.spec_turn_squares(),
            self.position().wf() ==> m.wf(),
    {
        match self.state.turn {
            Piece::Attacker => self.bitboard.get(Piece::Attacker),
            _ => self.bitboard.get(Piece::Defender).union(self.bitboard.get(Piece::King)),
        }
    }

    /// The hash of a position under a table of keys.
    pub fn calculate_hash(bitboard: &Bitboard, zobrist_table: &ZobristTable) -> (hash: u64)
        ensures
            hash == zobrist_table.spec_hash(bitboard),
            zobrist_table.wf(),
    {
        let mut hash: u64 = 0;
        let mut cursor = bitboard.iter();
        proof {
            use_type_invariant(zobrist_table);
        }
        loop
            invariant
                zobrist_table.wf(),
                *cursor.board() == *bitboard,
                cursor.position() <= 81,
                hash == zobrist_table.hash_below(bitboard, cursor.position() as nat),
            decreases 81 - cursor.position(),
        {
            let ghost start = cursor.position();
            match cursor.next() {
                Some((piece, square)) => {
                    proof {
                        zobrist_table.lemma_hash_skips_empty(
                            bitboard,
                            start as nat,
                            square.spec_index() as nat,
                        );
                    }
                    hash = hash ^ zobrist_table.key(piece, square);
                },
                None => {
                    proof {
                        zobrist_table.lemma_hash_skips_empty(bitboard, start as nat, 81);
                    }
                    return hash;
                },
            }
        }
    }

    /// Where the piece on `square` can slide to: by the table where one is
    /// given, else by walking the rays.
    pub fn moves(&self, square: Square, magic_table: Option<&MagicTable>) -> (m: Mask)
        requires
            square.wf(),
            magic_table matches Some(table) ==> table.covers(
                square,
                Mask(self.position().spec_all()),
            ),
        ensures
            magic_table matches Some(table) ==> m == table.spec_lookup(
                square,
                Mask(self.position().spec_all()),
            ),
            magic_table is None ==> m@ == slide(
                square.spec_index() as int,
                self.position().occupied(),
            ),
            magic_table matches Some(table) ==> (table.entry_sound(
                square,
                Mask(self.position().spec_all()),
            ) ==> m@ == slide(square.spec_index() as int, self.position().occupied())),
    {
        let all = self.bitboard.all();
        assert(all == Mask(self.position().spec_all()));
        match magic_table {
            Some(table) => {
                let found = table.lookup(square, all);
                match found {
                    Some(m) => m,
                    None => unreached(),
                }
            },
            None => {
                let blockers = Bitboard::moves(square).intersection(all);
                proof {
                    let origin = square.spec_index() as int;
                    lemma_slide_by_inner(origin, all@);
                    assert(blockers@ =~= all@.intersect(lines(origin)));
                }
                Bitboard::legal_moves(square, blockers)
            },
        }
    }

    /// Takes a piece off a square and takes its key out of the hash.
    pub fn remove_piece(&mut self, piece: Piece, square: Square)
        requires
            square.wf(),
        ensures
            final(self).position().mask_of(piece).0 == old(self).position().mask_of(piece).0 & !(
            1u128 << (square.spec_index() as u128)),
            final(self).position().mask_of(piece)@ == old(self).position().mask_of(piece)@.remove(
                square.spec_index() as int,
            ),
            forall|other: Piece|
                other != piece ==> final(self).position().mask_of(other) == old(
                    self
                ).position().mask_of(other),
            final(self).current().zobrist_hash == old(self).current().zobrist_hash ^ old(
                self
            ).table().spec_key(piece, square),
            final(self).current().turn == old(self).current().turn,
            final(self).current().action == old(self).current().action,
            final(self).table() == old(self).table(),
            final(self).log() == old(self).log(),
            old(self).position().wf() ==> final(self).position().wf(),
            old(self).position().wf() && old(self).hash_consistent() && old(
                self
            ).position().mask_of(piece)@.contains(square.spec_index() as int) ==> final(
                self
            ).hash_consistent(),
    {
        let cleared = self.bitboard.get(piece).difference(square.mask());
        assert(cleared@ =~= old(self).position().mask_of(piece)@.remove(
            square.spec_index() as int,
        ));
        self.bitboard.set(piece, cleared);
        let key = self.zobrist_table.key(piece, square);
        self.state.zobrist_hash = self.state.zobrist_hash ^ key;
        proof {
            let before = old(self).position();
            let after = self.position();
            let index = square.spec_index();
            if before.wf() && old(self).hash_consistent() && before.mask_of(piece)@.contains(
                index as int,
            ) {
                assert(before.spec_piece_at(index) == Some(piece));
                assert(after.spec_piece_at(index) is None);
                assert forall|i: usize| i != index implies #[trigger] self.table().square_term(
                    &after,
                    i,
                ) == self.table().square_term(&before, i) by {
                    assert(after.spec_piece_at(i) == before.spec_piece_at(i));
                }
                self.table().lemma_hash_one_square(&before, &after, index, 81);
                let hash = old(self).current().zobrist_hash;
                assert(hash ^ (key ^ 0) == hash ^ key) by (bit_vector);
            }
        }
    }

    /// Puts a piece on a square and puts its key into the hash.
    pub fn add_piece(&mut self, piece: Piece, square: Square)
        requires
            square.wf(),
        ensures
            final(self).position().mask_of(piece).0 == old(self).position().mask_of(piece).0 | (1u128
                << (square.spec_index() as u128)),
            final(self).position().mask_of(piece)@ == old(self).position().mask_of(piece)@.insert(
                square.spec_index() as int,
            ),
            forall|other: Piece|
                other != piece ==> final(self).position().mask_of(other) == old(
                    self
                ).position().mask_of(other),
            final(self).current().zobrist_hash == old(self).current().zobrist_hash ^ old(
                self
            ).table().spec_key(piece, square),
            final(self).current().turn == old(self).current().turn,
            final(self).current().action == old(self).current().action,
            final(self).table() == old(self).table(),
            final(self).log() == old(self).log(),
            old(self).position().wf() && !old(self).position().occupied().contains(
                square.spec_index() as int,
            ) ==> final(self).position().wf(),
            old(self).hash_consistent() && !old(self).position().occupied().contains(
                square.spec_index() as int,
            ) ==> final(self).hash_consistent(),
    {
        let filled = self.bitboard.get(piece).union(square.mask());
        assert(filled@ =~= old(self).position().mask_of(piece)@.insert(
            square.spec_index() as int,
        ));
        self.bitboard.set(piece, filled);
        let key = self.zobrist_table.key(piece, square);
        self.state.zobrist_hash = self.state.zobrist_hash ^ key;
        proof {
            let before = old(self).position();
            let after = self.position();
            let index = square.spec_index();
            if !before.occupied().contains(index as int) {
                assert(before.spec_piece_at(index) is None);
                assert(after.spec_piece_at(index) == Some(piece));
                if old(self).hash_consistent() {
                    assert forall|i: usize| i != index implies #[trigger] self.table().square_term(
                        &after,
                        i,
                    ) == self.table().square_term(&before, i) by {
                        assert(after.spec_piece_at(i) == before.spec_piece_at(i));
                    }
                    self.table().lemma_hash_one_square(&before, &after, index, 81);
                    let hash = old(self).current().zobrist_hash;
                    assert(hash ^ (0 ^ key) == hash ^ key) by (bit_vector);
                }
            }
        }
    }

    /// Where the piece on `square` can slide to, as `moves` finds it.
    pub open spec fn spec_reach(&self, square: Square, magic_table: Option<&MagicTable>) -> Set<
        int,
    > {
        match magic_table {
            Some(table) => table.spec_lookup(square, Mask(self.position().spec_all()))@,
            None => slide(square.spec_index() as int, self.position().occupied()),
        }
    }

    /// Why a move is turned down, if it is. The rules are asked in this
    /// order: the piece must belong to the side on turn; only the King may
    /// go to a corner; no piece may go to the throne; the piece must be able
    /// to slide to the destination.
    pub open spec fn spec_rejection(
        &self,
        action: Action,
        magic_table: Option<&MagicTable>,
    ) -> Option<VikingChessError> {
        let to = action.to.spec_index() as int;
        if !self.spec_turn_squares().contains(action.from.spec_index() as int) {
            Some(VikingChessError::WrongTurn { piece: action.piece })
        } else if action.piece != Piece::King && (to == 0 || to == 8 || to == 72 || to == 80) {
            Some(VikingChessError::CornerRestricted)
        } else if to == 40 {
            Some(VikingChessError::ThroneRestricted)
        } else if !self.spec_reach(action.from, magic_table).contains(to) {
            Some(VikingChessError::IllegalMove)
        } else {
            None
        }
    }

    /// A move to the throne, and a move of a piece other than the King to a
    /// corner, is turned down whatever else holds.
    pub proof fn lemma_forbidden_squares(
        &self,
        action: Action,
        magic_table: Option<&MagicTable>,
    )
        requires
            action.to.spec_index() == 40 || (action.piece != Piece::King && (action.to.spec_index()
                == 0 || action.to.spec_index() == 8 || action.to.spec_index() == 72
                || action.to.spec_index() == 80)),
        ensures
            self.spec_rejection(action, magic_table) is Some,
    {
    }

    /// Makes a move if the rules allow it, and says why not if they do not.
    ///
    /// A move that is made takes the piece from its square to the
    /// destination, brings the hash up to date, notes the move in the
    /// state, hands the turn to the other side and saves the new state. A
    /// move that is turned down changes nothing.
    pub fn move_piece(&mut self, action: Action, magic_table: Option<&MagicTable>) -> (res:
        VikingChessResult<()>)
        requires
            old(self).wf(),
            action.wf(),
            action.spec_valid(&old(self).position()),
            magic_table matches Some(table) ==> table.covers(
                action.from,
                Mask(old(self).position().spec_all()),
            ),
        ensures
            res == match old(self).spec_rejection(action, magic_table) {
                Some(e) => Err::<(), VikingChessError>(e),
                None => Ok::<(), VikingChessError>(()),
            },
            res is Err ==> *final(self) == *old(self),
            res is Ok ==> {
                &&& final(self).position().mask_of(action.piece)@ == old(self).position().mask_of(
                    action.piece,
                )@.remove(action.from.spec_index() as int).insert(action.to.spec_index() as int)
                &&& forall|other: Piece|
                    other != action.piece ==> final(self).position().mask_of(other) == old(
                        self
                    ).position().mask_of(other)
                &&& final(self).current().zobrist_hash == old(self).table().spec_hash_after(
                    old(self).current().zobrist_hash,
                    action,
                )
                &&& final(self).current().action == Some(action)
                &&& final(self).current().turn == old(self).current().turn.spec_opposite()
                &&& final(self).log() == old(self).log().push(final(self).current())
                &&& final(self).table() == old(self).table()
            },
            final(self).wf(),
            old(self).hash_consistent() ==> final(self).hash_consistent(),
    {
        if !action.turn_valid(self.turn_mask()) {
            return Err(VikingChessError::WrongTurn { piece: action.piece });
        }
        let target = action.to.mask();
        let ghost to = action.to.spec_index() as int;
        assert(target@.contains(to));
        let at_corner = target.intersects(Mask::corners());
        assert(at_corner == (to == 0 || to == 8 || to == 72 || to == 80));
        if action.piece != Piece::King && at_corner {
            return Err(VikingChessError::CornerRestricted);
        }
        let at_throne = target.intersects(Mask::throne());
        assert(at_throne == (to == 40));
        if at_throne {
            return Err(VikingChessError::ThroneRestricted);
        }
        let moves = self.moves(action.from, magic_table);
        assert(moves@ == self.spec_reach(action.from, magic_table));
        if !moves.contains(action.to.index()) {
            return Err(VikingChessError::IllegalMove);
        }
        proof {
            assert(!old(self).position().occupied().contains(to)) by {
                if let Some(table) = magic_table {
                    let occupancy = Mask(old(self).position().spec_all());
                    let stored = table.spec_stored(action.from, occupancy);
                    crate::mask::lemma_bits_not(occupancy.0);
                    crate::mask::lemma_bits_and(stored.0, !occupancy.0);
                    crate::mask::lemma_bits_or(
                        old(self).position().mask_of(Piece::Attacker).0,
                        old(self).position().mask_of(Piece::Defender).0,
                    );
                    crate::mask::lemma_bits_or(
                        old(self).position().mask_of(Piece::Attacker).0 | old(
                            self
                        ).position().mask_of(Piece::Defender).0,
                        old(self).position().mask_of(Piece::King).0,
                    );
                } else {
                    crate::square::lemma_index_whole(to);
                    crate::square::lemma_index_whole(action.from.spec_index() as int);
                    assert(crate::rays::passes(action.from.spec_index() as int, to, to));
                }
            }
        }
        self.remove_piece(action.piece, action.from);
        self.add_piece(action.piece, action.to);
        self.state.action = Some(action);
        self.toggle_turn();
        self.save();
        Ok(())
    }

    /// A cursor over the pieces that the last move has captured.
    pub fn eliminated_pieces_iter<'a>(&'a self) -> (cursor: EliminatedPiecesIter<'a>)
        requires
            self.current().action matches Some(action) && action.to.wf(),
        ensures
            cursor.direction() == 0,
            cursor.mover() == self.current().action->Some_0.piece,
            cursor.landing() == self.current().action->Some_0.to,
            *cursor.board() == self.position(),
            cursor.wf(),
    {
        match self.state.action {
            Some(action) => EliminatedPiecesIter {
                counter: 0,
                killer: (action.piece, action.to),
                bitboard: &self.bitboard,
            },
            None => unreached(),
        }
    }

    /// Hands the turn to the other side.
    pub fn toggle_turn(&mut self)
        requires
            old(self).current().turn != Piece::King,
        ensures
            final(self).current().turn == old(self).current().turn.spec_opposite(),
            final(self).current().zobrist_hash == old(self).current().zobrist_hash,
            final(self).current().action == old(self).current().action,
            final(self).position() == old(self).position(),
            final(self).table() == old(self).table(),
            final(self).log() == old(self).log(),
    {
        self.state.turn = match self.state.turn {
            Piece::Attacker => Piece::Defender,
            _ => Piece::Attacker,
        };
    }

    /// Appends the current state to the saved states.
    pub fn save(&mut self)
        ensures
            final(self).log() == old(self).log().push(old(self).current()),
            final(self).current() == old(self).current(),
            final(self).position() == old(self).position(),
            final(self).table() == old(self).table(),
    {
        self.history.push(self.state);
    }
}

/// Row step of a direction: the four directions are, in this order, towards
/// the first row, towards the first column, towards the last column and
/// towards the last row.
pub open spec fn direction_row(direction: int) -> int {
    if direction == 0 {
        -1
    } else if direction == 3 {
        1
    } else {
        0
    }
}

/// Column step of a direction.
pub open spec fn direction_col(direction: int) -> int {
    if direction == 1 {
        -1
    } else if direction == 2 {
        1
    } else {
        0
    }
}

/// The piece that a piece of kind `mover`, having landed on `landing`,
/// captures in one direction: the piece of the other side on the next square,
/// where a piece of the mover's own side stands on the square behind it.
/// Nothing where the square behind lies off the board.
///
/// The kind of the captured piece is read off the position: a piece that an
/// Attacker captures is a Defender where the mask of the Defenders has the
/// square, else the King; a piece that a Defender or the King captures is an
/// Attacker.
///
/// The King is captured as any other piece is, by one Attacker on each side
/// along a line. Variants of the game that want the King surrounded on all
/// four sides do not play by this rule.
pub open spec fn spec_capture(
    bitboard: &Bitboard,
    mover: Piece,
    landing: Square,
    direction: int,
) -> Option<(Piece, Square)> {
    let near_row = landing.row + direction_row(direction);
    let near_col = landing.col + direction_col(direction);
    let far_row = landing.row + 2 * direction_row(direction);
    let far_col = landing.col + 2 * direction_col(direction);
    let near = index_of(near_row, near_col);
    let far = index_of(far_row, far_col);
    let attackers = bitboard.mask_of(Piece::Attacker)@;
    let defenders = bitboard.mask_of(Piece::Defender)@.union(bitboard.mask_of(Piece::King)@);
    let attacking = mover == Piece::Attacker;
    let own = if attacking {
        attackers
    } else {
        defenders
    };
    let other = if attacking {
        defenders
    } else {
        attackers
    };
    if 0 <= far_row < 9 && 0 <= far_col < 9 && own.contains(far) && other.contains(near) {
        let victim = if !attacking {
            Piece::Attacker
        } else if bitboard.mask_of(Piece::Defender)@.contains(near) {
            Piece::Defender
        } else {
            Piece::King
        };
        Some((victim, Square { row: near_row as u8, col: near_col as u8 }))
    } else {
        None
    }
}

/// The offset codes of the square two steps away and of the square one step
/// away in a direction.
pub fn capture_offsets(direction: usize) -> (codes: (i8, i8))
    requires
        direction < 4,
    ensures
        offset_row_delta(codes.0 as int) == 2 * direction_row(direction as int),
        offset_col_delta(codes.0 as int) == 2 * direction_col(direction as int),
        offset_row_delta(codes.1 as int) == direction_row(direction as int),
        offset_col_delta(codes.1 as int) == direction_col(direction as int),
{
    if direction == 0 {
        (2, 7)
    } else if direction == 1 {
        (10, 11)
    } else if direction == 2 {
        (14, 13)
    } else {
        (22, 17)
    }
}

/// The piece that a piece of kind `mover`, having landed on `landing`,
/// captures in one direction, read off the position as it stands.
pub fn capture(bitboard: &Bitboard, mover: Piece, landing: Square, direction: usize) -> (found:
    Option<(Piece, Square)>)
    requires
        landing.wf(),
        direction < 4,
    ensures
        found == spec_capture(bitboard, mover, landing, direction as int),
        found matches Some(capture) ==> capture.1.wf(),
{
    let attacking = match mover {
        Piece::Attacker => true,
        _ => false,
    };
    let attackers = bitboard.get(Piece::Attacker);
    let defenders = bitboard.get(Piece::Defender).union(bitboard.get(Piece::King));
    let own = if attacking {
        attackers
    } else {
        defenders
    };
    let other = if attacking {
        defenders
    } else {
        attackers
    };
    let (far_code, near_code) = capture_offsets(direction);
    let far = landing.try_from_offset(far_code);
    let near = landing.try_from_offset(near_code);
    if let (Ok(far), Ok(near)) = (far, near) {
        if own.contains(far.index()) && other.contains(near.index()) {
            let victim = if !attacking {
                Piece::Attacker
            } else if bitboard.get(Piece::Defender).contains(near.index()) {
                Piece::Defender
            } else {
                Piece::King
            };
            return Some((victim, near));
        }
    }
    None
}

/// A cursor over the four directions around the square on which a piece has
/// landed; it stops at each direction in which the piece captures.
pub struct EliminatedPiecesIter<'a> {
    counter: usize,
    killer: (Piece, Square),
    bitboard: &'a Bitboard,
}

impl<'a> EliminatedPiecesIter<'a> {
    /// The next direction to look at.
    pub closed spec fn direction(&self) -> usize {
        self.counter
    }

    /// The kind of the piece that moved.
    pub closed spec fn mover(&self) -> Piece {
        self.killer.0
    }

    /// The square on which it landed.
    pub closed spec fn landing(&self) -> Square {
        self.killer.1
    }

    /// The position after the move.
    pub closed spec fn board(&self) -> &'a Bitboard {
        self.bitboard
    }

    /// The square on which the piece landed lies on the board.
    pub open spec fn wf(&self) -> bool {
        self.landing().wf()
    }

    /// The capture in the first direction, from the cursor on, in which there
    /// is one; the cursor then stands behind that direction. `None` when there
    /// is no capture left; the cursor then stands behind the last direction,
    /// or stays where it was if that lies further on.
    pub fn next(&mut self) -> (item: Option<(Piece, Square)>)
        requires
            old(self).wf(),
        ensures
            final(self).board() == old(self).board(),
            final(self).mover() == old(self).mover(),
            final(self).landing() == old(self).landing(),
            match item {
                Some(capture) => {
                    &&& old(self).direction() < final(self).direction() <= 4
                    &&& spec_capture(
                        old(self).board(),
                        old(self).mover(),
                        old(self).landing(),
                        final(self).direction() - 1,
                    ) == Some(capture)
                    &&& capture.1.wf()
                    &&& forall|d: int|
                        old(self).direction() <= d < final(self).direction() - 1 ==> (
                        #[trigger] spec_capture(
                            old(self).board(),
                            old(self).mover(),
                            old(self).landing(),
                            d,
                        )) is None
                },
                None => {
                    &&& forall|d: int|
                        old(self).direction() <= d < 4 ==> (#[trigger] spec_capture(
                            old(self).board(),
                            old(self).mover(),
                            old(self).landing(),
                            d,
                        )) is None
                    &&& final(self).direction() == if old(self).direction() < 4 {
                        4
                    } else {
                        old(self).direction()
                    }
                },
            },
    {
        while self.counter < 4
            invariant
                self.bitboard == old(self).bitboard,
                self.killer == old(self).killer,
                self.killer.1.wf(),
                old(self).counter <= self.counter,
                self.counter <= 4 || self.counter == old(self).counter,
                forall|d: int|
                    old(self).counter <= d < self.counter ==> (#[trigger] spec_capture(
                        self.bitboard,
                        self.killer.0,
                        self.killer.1,
                        d,
                    )) is None,
            decreases 4 - self.counter,
        {
            let direction = self.counter;
            self.counter = direction + 1;
            let found = capture(self.bitboard, self.killer.0, self.killer.1, direction);
            if found.is_some() {
                return found;
            }
        }
        None
    }
}

impl Default for Board {
    /// A game in the usual starting position.
    fn default() -> (board: Board)
        ensures
            board.begins_as(Board::STARTING_FEN@),
    {
        Board::new()
    }
}

} // verus!
