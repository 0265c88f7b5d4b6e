use std::collections::HashMap;

use viking_chess::action::Action;
use viking_chess::bitboard::Bitboard;
use viking_chess::board::capture;
use viking_chess::board::capture_offsets;
use viking_chess::board::Board;
use viking_chess::error::VikingChessError;
use viking_chess::magics::MagicTable;
use viking_chess::mask::Mask;
use viking_chess::notation::digit_value;
use viking_chess::notation::word_end;
use viking_chess::piece::Piece;
use viking_chess::square::Square;
use viking_chess::zobrist::holds;
use viking_chess::zobrist::settle;
use viking_chess::zobrist::ZobristTable;

fn square(row: u8, col: u8) -> Square {
    Square::new(row, col)
}

fn mask_of(indices: &[usize]) -> Mask {
    let mut mask = Mask(0);
    for &index in indices {
        mask |= Mask(1u128 << index);
    }
    mask
}

fn disjoint(bitboard: &Bitboard) -> bool {
    let king = bitboard[Piece::King].0;
    let defender = bitboard[Piece::Defender].0;
    let attacker = bitboard[Piece::Attacker].0;
    king & defender == 0 && king & attacker == 0 && defender & attacker == 0
}

const ATTACKERS: [usize; 16] = [3, 4, 5, 13, 27, 35, 36, 37, 43, 44, 45, 53, 67, 75, 76, 77];
const DEFENDERS: [usize; 8] = [22, 31, 38, 39, 41, 42, 49, 58];

#[test]
fn starting_layout_decodes_to_the_known_position() {
    let board = Board::from_fen(Board::STARTING_FEN).unwrap();
    assert_eq!(board.bitboard()[Piece::Attacker], mask_of(&ATTACKERS));
    assert_eq!(board.bitboard()[Piece::Defender], mask_of(&DEFENDERS));
    assert_eq!(board.bitboard()[Piece::King], Mask(1 << 40));
    assert_eq!(board.bitboard()[Piece::Defender].0.count_ones(), 8);
    assert_eq!(board.bitboard()[Piece::King].0.count_ones(), 1);
    assert_eq!(board.state.turn, Piece::Attacker);
    assert!(board.state.action.is_none());
    assert_eq!(board.history().len(), 1);
    assert_eq!(board.history()[0], board.state);
    assert!(disjoint(board.bitboard()));
}

#[test]
fn new_board_is_the_starting_position() {
    let board = Board::new();
    assert_eq!(board.bitboard()[Piece::Attacker], mask_of(&ATTACKERS));
    assert_eq!(board.bitboard()[Piece::Defender], mask_of(&DEFENDERS));
    assert_eq!(board.bitboard()[Piece::King], Mask(1 << 40));
    assert_eq!(board.state.turn, Piece::Attacker);
    assert_eq!(
        board.state.zobrist_hash,
        Board::calculate_hash(board.bitboard(), board.zobrist_table())
    );
}

#[test]
fn side_word_selects_the_turn() {
    let white = Board::from_fen("9/9/9/9/9/9/9/9/9 W").unwrap();
    assert_eq!(white.state.turn, Piece::Defender);
    let black = Board::from_fen(Board::EMPTY_FEN).unwrap();
    assert_eq!(black.state.turn, Piece::Attacker);
    assert_eq!(black.bitboard().all(), Mask(0));
    assert_eq!(black.state.zobrist_hash, 0);
}

#[test]
fn layout_without_a_side_is_rejected() {
    assert_eq!(Board::from_fen("9/9/9/9/9/9/9/9/9").err(), Some(VikingChessError::InvalidNotation));
    assert_eq!(Board::from_fen("9/9/9/9/9/9/9/9/9 ").err(), Some(VikingChessError::InvalidNotation));
    assert_eq!(Board::from_fen("9/9/9/9/9/9/9/9/9 X").err(), Some(VikingChessError::InvalidNotation));
    assert_eq!(Board::from_fen("9/9/9/9/9/9/9/9/9 BW").err(), Some(VikingChessError::InvalidNotation));
    assert_eq!(Board::from_fen("9/9/9/9/9/9/9/9/9  B").err(), Some(VikingChessError::InvalidNotation));
    assert_eq!(
        Board::from_fen("9/9/9/9/9/9/9/9/9 B more").err(),
        Some(VikingChessError::InvalidNotation)
    );
    assert_eq!(Board::from_fen("9/9/9/9/9/9/9/9/9 B ").err(), Some(VikingChessError::InvalidNotation));
    assert_eq!(Board::from_fen(" 9/9/9/9/9/9/9/9/9 B").err(), Some(VikingChessError::InvalidNotation));
    assert_eq!(Board::from_fen("").err(), Some(VikingChessError::InvalidNotation));
    assert!(Board::from_fen("9/9/9/9/9/9/9/9/9 B").is_ok());
}

fn rejected(text: &str) {
    assert_eq!(Bitboard::from_fen(text).err(), Some(VikingChessError::InvalidNotation), "{text}");
}

#[test]
fn malformed_rows_are_rejected() {
    rejected("9/9/9/9/9/9/9/9/8");
    rejected("9/9/9/9/9/9/9/9/8K1");
    rejected("9/9/9/9/9/9/9/9/91");
    rejected("9/9/9/9/9/9/9/9/9K");
    rejected("5/9/9/9/9/9/9/9/9");
    rejected("3AAA2/9/9/9/9/9/9/9/9");
    rejected("55/9/9/9/9/9/9/9/9");
    rejected("9A/9/9/9/9/9/9/9/9");
    rejected("AAAAAAAAAA/9/9/9/9/9/9/9/9");
    rejected("9/9/9/9/4/9/9/9/9");
    assert_eq!(Board::from_fen("5/9/9/9/9/9/9/9/9 B").err(), Some(VikingChessError::InvalidNotation));
    assert_eq!(
        Board::from_fen("9/9/9/9/9/9/9/9/8 B").err(),
        Some(VikingChessError::InvalidNotation)
    );
}

#[test]
fn boards_with_too_few_or_too_many_rows_are_rejected() {
    rejected("");
    rejected("K");
    rejected("9");
    rejected("3A5/9/4DK3");
    rejected("9/9/9/9/9/9/9/9");
    rejected("9/9/9/9/9/9/9/9/");
    rejected("9/9/9/9/9/9/9/9/9/");
    rejected("9/9/9/9/9/9/9/9/9/9");
    rejected("9/9/9/9/9/9/9/9/9/K8");
    rejected("/9/9/9/9/9/9/9/9/9");
    rejected("9//9/9/9/9/9/9/9/9");
    rejected("//4D4/9/9/9/9/9/9");
}

#[test]
fn unknown_characters_are_rejected() {
    rejected("x9/9/9/9/9/9/9/9/9");
    rejected("9/9/9/9/4k4/9/9/9/9");
    rejected("9/9/9/9/9/9/9/9/9 ");
    rejected("9/9/9/9/9/9/9/9/9 B");
    rejected("9/9/9/9/9/9/9/9/9\n");
    rejected("9/9/9/9/4-4/9/9/9/9");
    rejected("9/9/9/9/4B4/9/9/9/9");
}

#[test]
fn every_digit_is_a_gap_of_its_own() {
    let zero = Bitboard::from_fen("90/0K8/9/9/9/9/9/9/9").unwrap();
    assert_eq!(zero[Piece::King], Mask(1 << 9));
    let pairs = Bitboard::from_fen("45/1233/9/9/9/9/9/9/3D32").unwrap();
    assert_eq!(pairs[Piece::Defender], Mask(1 << 75));
    assert_eq!(pairs.all(), Mask(1 << 75));
    let full = Bitboard::from_fen("AAAAAAAAA/9/9/9/9/9/9/9/DDDDKDDDD").unwrap();
    assert_eq!(full[Piece::Attacker], Mask(0x1ff));
    assert_eq!(full[Piece::King], Mask(1 << 76));
    assert_eq!(full.all().0.count_ones(), 18);
}

#[test]
fn digits_and_words() {
    assert_eq!(digit_value('0'), Some(0));
    assert_eq!(digit_value('9'), Some(9));
    assert_eq!(digit_value('/'), None);
    assert_eq!(digit_value('A'), None);
    assert_eq!(word_end("ab cd", 0), 2);
    assert_eq!(word_end("ab cd", 2), 2);
    assert_eq!(word_end("ab cd", 3), 5);
    assert_eq!(word_end("", 0), 0);
    assert_eq!(word_end("ab", 7), 2);
    assert_eq!(Piece::from_letter('A'), Some(Piece::Attacker));
    assert_eq!(Piece::from_letter('D'), Some(Piece::Defender));
    assert_eq!(Piece::from_letter('K'), Some(Piece::King));
    assert_eq!(Piece::from_letter('a'), None);
    assert_eq!(Piece::PIECES, ['A', 'D', 'K']);
}

#[test]
fn piece_sides() {
    assert_eq!(Piece::King.opposite(), Piece::Attacker);
    assert_eq!(Piece::Defender.opposite(), Piece::Attacker);
    assert_eq!(Piece::Attacker.opposite(), Piece::Defender);
    assert_eq!(Piece::King.ordinal(), 0);
    assert_eq!(Piece::Defender.ordinal(), 1);
    assert_eq!(Piece::Attacker.ordinal(), 2);
    assert_eq!(Piece::COUNT, 3);
}

#[test]
fn square_conversions() {
    assert_eq!(square(4, 4).index(), 40);
    assert_eq!(square(8, 8).index(), 80);
    assert_eq!(square(0, 0).mask(), Mask(1));
    assert_eq!(square(8, 8).mask(), Mask(1 << 80));
    assert_eq!(Square::try_from(80usize), Ok(square(8, 8)));
    assert_eq!(Square::try_from(81usize), Err(VikingChessError::InvalidSquareIndex { index: 81 }));
    assert_eq!(
        Square::try_from((9u8, 0u8)),
        Err(VikingChessError::InvalidSquarePosition { col: 9, row: 0 })
    );
    assert_eq!(
        Square::try_from((0u8, 9u8)),
        Err(VikingChessError::InvalidSquarePosition { col: 0, row: 9 })
    );
    assert_eq!(Square::try_from((8u8, 0u8)), Ok(square(0, 8)));
}

#[test]
fn offsets_walk_a_five_by_five_window() {
    let center = square(4, 4);
    assert_eq!(center.try_from_offset(12), Ok(center));
    assert_eq!(center.try_from_offset(0), Ok(square(2, 2)));
    assert_eq!(center.try_from_offset(24), Ok(square(6, 6)));
    assert_eq!(center.try_from_offset(2), Ok(square(2, 4)));
    assert_eq!(center.try_from_offset(7), Ok(square(3, 4)));
    assert_eq!(center.try_from_offset(10), Ok(square(4, 2)));
    assert_eq!(center.try_from_offset(11), Ok(square(4, 3)));
    assert_eq!(center.try_from_offset(13), Ok(square(4, 5)));
    assert_eq!(center.try_from_offset(14), Ok(square(4, 6)));
    assert_eq!(center.try_from_offset(17), Ok(square(5, 4)));
    assert_eq!(center.try_from_offset(22), Ok(square(6, 4)));
    assert_eq!(center.try_from_offset(-1), Ok(square(2, 1)));
    assert_eq!(center.try_from_offset(-7), Ok(square(1, 0)));
    assert_eq!(center.try_from_offset(34), Ok(square(8, 6)));
    assert_eq!(
        center.try_from_offset(39),
        Err(VikingChessError::InvalidSquarePosition { col: 6, row: 9 })
    );
    assert_eq!(
        square(0, 0).try_from_offset(7),
        Err(VikingChessError::InvalidSquarePosition { col: 0, row: -1 })
    );
    assert_eq!(
        square(8, 8).try_from_offset(14),
        Err(VikingChessError::InvalidSquarePosition { col: 10, row: 8 })
    );
    assert_eq!(
        center.try_from_offset(127),
        Err(VikingChessError::InvalidSquarePosition { col: 4, row: 27 })
    );
    assert_eq!(
        center.try_from_offset(-128),
        Err(VikingChessError::InvalidSquarePosition { col: -1, row: -23 })
    );
    assert_eq!(capture_offsets(0), (2, 7));
    assert_eq!(capture_offsets(1), (10, 11));
    assert_eq!(capture_offsets(2), (14, 13));
    assert_eq!(capture_offsets(3), (22, 17));
}

#[test]
fn rings_are_clipped_to_the_board() {
    assert_eq!(square(4, 4).ring_mask(1), mask_of(&[31, 39, 41, 49]));
    assert_eq!(square(4, 4).ring_mask(4), mask_of(&[4, 36, 44, 76]));
    assert_eq!(square(4, 4).ring_mask(5), Mask(0));
    assert_eq!(square(0, 8).ring_mask(8), mask_of(&[0, 80]));
    assert_eq!(square(0, 8).ring_mask(9), Mask(0));
    assert_eq!(square(0, 8).ring_mask(255), Mask(0));
    assert_eq!(square(3, 3).ring_mask(0), Mask(1 << 30));
    assert_eq!(square(8, 0).adjacent_mask(), mask_of(&[63, 73]));
    assert_eq!(square(8, 0).interjacent_mask(), mask_of(&[54, 74]));
}

#[test]
fn mask_algebra_stays_on_the_board() {
    let a = mask_of(&[0, 40]);
    let b = mask_of(&[40, 80]);
    assert_eq!(a | b, mask_of(&[0, 40, 80]));
    assert_eq!(a & b, mask_of(&[40]));
    assert_eq!(a.union(b), a | b);
    assert_eq!(a.intersection(b), a & b);
    assert_eq!(a.difference(b), mask_of(&[0]));
    assert_eq!(!Mask(0), Mask((1u128 << 81) - 1));
    assert_eq!(!Mask::board(), Mask(0));
    assert_eq!(Mask(u128::MAX).complement(), Mask(0));
    assert_eq!((!a).0.count_ones(), 79);
    assert!(a.intersects(b));
    assert!(!a.intersects(mask_of(&[1])));
    assert!(Mask::empty().is_empty());
    assert!(!a.is_empty());
    assert!(a.contains(40));
    assert!(!a.contains(41));
    assert!(!a.contains(200));
    assert_eq!(Mask::from(7u128), Mask(7));
    assert_eq!(Mask::default(), Mask(0));
    assert_eq!(*a, a.0);
    let mut c = a;
    c |= b;
    assert_eq!(c, a | b);
    c &= b;
    assert_eq!(c, b);
    assert_eq!(Mask::corners(), mask_of(&[0, 8, 72, 80]));
    assert_eq!(Mask::throne(), mask_of(&[40]));
    assert_eq!(Mask::column(0), mask_of(&[0, 9, 18, 27, 36, 45, 54, 63, 72]));
    assert_eq!(Mask::column(8), mask_of(&[8, 17, 26, 35, 44, 53, 62, 71, 80]));
    assert_eq!(Mask::row(0), Mask(0x1ff));
    assert_eq!(Mask::row(8), mask_of(&[72, 73, 74, 75, 76, 77, 78, 79, 80]));
}

#[test]
fn moves_cover_row_and_column() {
    let center = Bitboard::moves(square(4, 4));
    assert_eq!(center.0.count_ones(), 16);
    assert_eq!(center, (Mask::row(4) | Mask::column(4)).difference(Mask(1 << 40)));
    let corner = Bitboard::moves(square(8, 8));
    assert_eq!(corner, (Mask::row(8) | Mask::column(8)).difference(Mask(1 << 80)));
}

#[test]
fn blockers_leave_out_the_last_square_of_each_ray() {
    assert_eq!(Bitboard::blockers(square(4, 4)), mask_of(&[13, 22, 31, 49, 58, 67, 37, 38, 39, 41, 42, 43]));
    assert_eq!(
        Bitboard::blockers(square(0, 0)),
        mask_of(&[1, 2, 3, 4, 5, 6, 7, 9, 18, 27, 36, 45, 54, 63])
    );
    assert_eq!(
        Bitboard::blockers(square(4, 0)),
        mask_of(&[37, 38, 39, 40, 41, 42, 43, 9, 18, 27, 45, 54, 63])
    );
    assert_eq!(
        Bitboard::blockers(square(8, 8)),
        mask_of(&[73, 74, 75, 76, 77, 78, 79, 17, 26, 35, 44, 53, 62, 71])
    );
    assert_eq!(
        Bitboard::blockers(square(4, 8)),
        mask_of(&[37, 38, 39, 40, 41, 42, 43, 17, 26, 35, 53, 62, 71])
    );
    for index in 0..81usize {
        let origin = Square::try_from(index).unwrap();
        let blockers = Bitboard::blockers(origin);
        assert_eq!(blockers & Bitboard::moves(origin), blockers);
        assert_eq!(blockers.0.count_ones(), MagicTable::SHIFTS[index]);
        assert_eq!(MagicTable::shift(origin), MagicTable::SHIFTS[index]);
    }
}

#[test]
fn own_square_does_not_block() {
    let origin = square(4, 4);
    let with_self = Bitboard::legal_moves(origin, origin.mask());
    assert_eq!(with_self, Bitboard::moves(origin));
    let adjacent = Bitboard::legal_moves(origin, square(4, 5).mask());
    assert!(!adjacent.contains(41));
    assert!(!adjacent.contains(42));
    assert_eq!(adjacent.0.count_ones(), 12);
}

#[test]
fn cursor_yields_pieces_in_index_order() {
    let bitboard = Bitboard::from_fen("3A5/9/4DK3/9/9/9/9/9/9").unwrap();
    let mut cursor = bitboard.iter();
    assert_eq!(cursor.next(), Some((Piece::Attacker, square(0, 3))));
    assert_eq!(cursor.next(), Some((Piece::Defender, square(2, 4))));
    assert_eq!(cursor.next(), Some((Piece::King, square(2, 5))));
    assert_eq!(cursor.next(), None);
    assert_eq!(cursor.next(), None);
    assert_eq!(bitboard.piece_at(3), Some(Piece::Attacker));
    assert_eq!(bitboard.piece_at(4), None);
    assert_eq!(bitboard.piece_at(500), None);
    let starting = Board::new();
    let mut count = 0;
    let mut pieces = starting.iter_bitboard();
    while let Some((piece, at)) = pieces.next() {
        assert!(starting.bitboard()[piece].contains(at.index()));
        count += 1;
    }
    assert_eq!(count, 25);
}

#[test]
fn drawings_show_every_square() {
    let bitboard = Bitboard::from_fen("3A5/9/4DK3/9/9/9/9/9/9").unwrap();
    let expected = "...A.....\n.........\n....DK...\n.........\n.........\n.........\n.........\n.........\n.........\n";
    assert_eq!(bitboard.to_text(), expected);
    let mask = mask_of(&[0, 80]);
    let drawn = "1........\n.........\n.........\n.........\n.........\n.........\n.........\n.........\n........1\n";
    assert_eq!(mask.to_text(), drawn);
    let empty = ".........\n".repeat(9);
    let debug = format!(
        "Bitboard:\n{}\nMask Attacker:\n{}\nMask Defender:\n{}\nMask King:\n{}\n",
        expected,
        mask_of(&[3]).to_text(),
        mask_of(&[22]).to_text(),
        mask_of(&[23]).to_text()
    );
    assert_eq!(bitboard.to_debug_text(), debug);
    assert_eq!(Board::from_fen(Board::EMPTY_FEN).unwrap().to_text(), empty);
    let mut overlap = Bitboard::new();
    overlap.set(Piece::Attacker, Mask(1));
    overlap.set(Piece::King, Mask(1));
    assert!(overlap.to_text().starts_with('K'));
    assert_eq!(overlap.piece_at(0), Some(Piece::Attacker));
}

fn draws_from(make: impl Fn(u64) -> u64) -> [u64; 243] {
    let mut draws = [0u64; 243];
    for (i, draw) in draws.iter_mut().enumerate() {
        *draw = make(i as u64);
    }
    draws
}

#[test]
fn draws_become_distinct_keys() {
    let draws = draws_from(|i| i * 1_000_003 + 17);
    let table = ZobristTable::from_draws(&draws);
    assert_eq!(table.keys(), &draws);
    let stepped = ZobristTable::from_draws(&[5u64; 243]);
    assert_eq!(stepped.keys(), &draws_from(|i| i + 5));
    let wrapped = ZobristTable::from_draws(&[u64::MAX; 243]);
    assert_eq!(wrapped.keys()[0], u64::MAX);
    assert_eq!(wrapped.keys()[1], 0);
    assert_eq!(wrapped.keys()[242], 241);
    let mixed = ZobristTable::from_draws(&draws_from(|i| i / 2));
    assert_eq!(mixed.keys()[0], 0);
    assert_eq!(mixed.keys()[1], 1);
    assert_eq!(mixed.keys()[2], 2);
    assert_eq!(mixed.keys()[3], 3);
    let taken = draws_from(|i| [1, 2, 3, 3, 1][(i % 5) as usize]);
    assert_eq!(settle(&taken, 3, 1), 4);
    assert_eq!(settle(&taken, 3, 7), 7);
    assert_eq!(settle(&taken, 0, 1), 1);
    assert_eq!(settle(&taken, 1, 1), 2);
    assert!(holds(&taken, 3, 2));
    assert!(!holds(&taken, 1, 2));
    assert!(!holds(&taken, 3, 4));
    assert!(!holds(&taken, 0, 1));
    assert_eq!(ZobristTable::TABLE_LENGTH, 243);
    assert_eq!(ZobristTable::new().keys().len(), 243);
}

#[test]
fn hash_is_the_xor_of_the_keys_of_the_pieces() {
    let table = ZobristTable::from_draws(&draws_from(|i| i + 1));
    let board = Board::from_fen_with("K2A5/9/D8/9/9/9/9/9/9 W", table).unwrap();
    let king = 1u64;
    let attacker = (2 * 81 + 3 + 1) as u64;
    let defender = (81 + 18 + 1) as u64;
    assert_eq!(board.state.zobrist_hash, king ^ attacker ^ defender);
    assert_eq!(board.zobrist_table().key(Piece::King, square(0, 0)), 1);
    assert_eq!(board.zobrist_table()[(Piece::Attacker, square(0, 3))], attacker);
    assert_eq!(
        Board::calculate_hash(board.bitboard(), board.zobrist_table()),
        board.state.zobrist_hash
    );
}

#[test]
fn a_move_updates_position_hash_turn_and_history() {
    let table = ZobristTable::from_draws(&draws_from(|i| i + 1));
    let mut board = Board::from_fen_with("3A5/9/9/9/9/9/9/9/9 B", table).unwrap();
    let before = board.state.zobrist_hash;
    let action = Action::new(Piece::Attacker, square(0, 3), square(5, 3));
    assert!(action.valid(board.bitboard()));
    assert!(action.turn_valid(board.turn_mask()));
    assert_eq!(board.move_piece(action, None), Ok(()));
    assert_eq!(board.bitboard()[Piece::Attacker], Mask(1 << 48));
    let from_key = (2 * 81 + 3 + 1) as u64;
    let to_key = (2 * 81 + 48 + 1) as u64;
    assert_eq!(board.state.zobrist_hash, before ^ from_key ^ to_key);
    assert_eq!(board.state.action, Some(action));
    assert_eq!(board.state.turn, Piece::Defender);
    assert_eq!(board.history().len(), 2);
    assert_eq!(board.history()[1], board.state);
    assert_eq!(
        Board::calculate_hash(board.bitboard(), board.zobrist_table()),
        board.state.zobrist_hash
    );
}

#[test]
fn no_square_holds_two_pieces_after_moves() {
    let mut board = Board::new();
    let steps = [
        (Piece::Attacker, 3usize, 2usize),
        (Piece::Defender, 22, 19),
        (Piece::Attacker, 13, 14),
        (Piece::Defender, 31, 30),
        (Piece::Attacker, 27, 18),
        (Piece::King, 40, 31),
    ];
    for (piece, from, to) in steps {
        let action = Action::new(piece, from.try_into().unwrap(), to.try_into().unwrap());
        assert_eq!(board.move_piece(action, None), Ok(()));
        assert!(disjoint(board.bitboard()));
        assert_eq!(board.bitboard().all().0.count_ones(), 25);
        assert_eq!(
            Board::calculate_hash(board.bitboard(), board.zobrist_table()),
            board.state.zobrist_hash
        );
    }
    assert_eq!(board.history().len(), 7);
}

fn unchanged_after(board: &mut Board, action: Action, expected: VikingChessError) {
    let masks = [board.bitboard()[Piece::King], board.bitboard()[Piece::Defender], board.bitboard()[Piece::Attacker]];
    let state = board.state;
    let saved = board.history().len();
    assert_eq!(board.move_piece(action, None), Err(expected));
    assert_eq!(
        [board.bitboard()[Piece::King], board.bitboard()[Piece::Defender], board.bitboard()[Piece::Attacker]],
        masks
    );
    assert_eq!(board.state, state);
    assert_eq!(board.history().len(), saved);
}

#[test]
fn forbidden_destinations_are_rejected_and_change_nothing() {
    let mut board = Board::from_fen("A3D4/9/9/9/AK7/9/9/9/9 B").unwrap();
    unchanged_after(
        &mut board,
        Action::new(Piece::Attacker, square(0, 0), square(8, 0)),
        VikingChessError::CornerRestricted,
    );
    board.state.turn = Piece::Defender;
    unchanged_after(
        &mut board,
        Action::new(Piece::Defender, square(0, 4), square(0, 8)),
        VikingChessError::CornerRestricted,
    );
    unchanged_after(
        &mut board,
        Action::new(Piece::Defender, square(0, 4), square(4, 4)),
        VikingChessError::ThroneRestricted,
    );
    unchanged_after(
        &mut board,
        Action::new(Piece::King, square(4, 1), square(4, 4)),
        VikingChessError::ThroneRestricted,
    );
    let mut free = Board::from_fen("K8/9/9/9/9/9/9/9/9 W").unwrap();
    free.state.turn = Piece::Defender;
    let to_corner = Action::new(Piece::King, square(0, 0), square(0, 8));
    assert_eq!(free.move_piece(to_corner, None), Ok(()));
    assert_eq!(free.bitboard()[Piece::King], Mask(1 << 8));
}

#[test]
fn wrong_turn_and_unreachable_squares_are_rejected() {
    let mut board = Board::from_fen("A3D4/9/9/9/AK7/9/9/9/9 B").unwrap();
    unchanged_after(
        &mut board,
        Action::new(Piece::Defender, square(0, 4), square(0, 5)),
        VikingChessError::WrongTurn { piece: Piece::Defender },
    );
    unchanged_after(
        &mut board,
        Action::new(Piece::King, square(4, 1), square(4, 4)),
        VikingChessError::WrongTurn { piece: Piece::King },
    );
    unchanged_after(
        &mut board,
        Action::new(Piece::Attacker, square(0, 0), square(1, 1)),
        VikingChessError::IllegalMove,
    );
    unchanged_after(
        &mut board,
        Action::new(Piece::Attacker, square(0, 0), square(0, 4)),
        VikingChessError::IllegalMove,
    );
    unchanged_after(
        &mut board,
        Action::new(Piece::Attacker, square(0, 0), square(0, 5)),
        VikingChessError::IllegalMove,
    );
    unchanged_after(
        &mut board,
        Action::new(Piece::Attacker, square(4, 0), square(4, 0)),
        VikingChessError::IllegalMove,
    );
    unchanged_after(
        &mut board,
        Action::new(Piece::Attacker, square(4, 0), square(4, 1)),
        VikingChessError::IllegalMove,
    );
    unchanged_after(
        &mut board,
        Action::new(Piece::Attacker, square(0, 0), square(5, 0)),
        VikingChessError::IllegalMove,
    );
    assert_eq!(board.move_piece(Action::new(Piece::Attacker, square(0, 0), square(3, 0)), None), Ok(()));
}

fn captures(board: &Board) -> Vec<(Piece, Square)> {
    let mut found = Vec::new();
    let mut cursor = board.eliminated_pieces_iter();
    while let Some(capture) = cursor.next() {
        found.push(capture);
    }
    assert_eq!(cursor.next(), None);
    found
}

#[test]
fn attacker_captures_a_flanked_defender() {
    let mut board = Board::from_fen("3A5/9/4DA3/9/9/9/9/9/9 B").unwrap();
    let action = Action::new(Piece::Attacker, square(0, 3), square(2, 3));
    assert_eq!(board.move_piece(action, None), Ok(()));
    assert_eq!(captures(&board), vec![(Piece::Defender, square(2, 4))]);

    let mut lone = Board::from_fen("3A5/9/4D4/9/9/9/9/9/9 B").unwrap();
    assert_eq!(lone.move_piece(action, None), Ok(()));
    assert_eq!(captures(&lone), Vec::new());
}

#[test]
fn captures_are_found_in_every_direction() {
    let mut board = Board::from_fen("4A4/4D4/1A3DA2/4K4/4A4/9/9/9/9 B").unwrap();
    let action = Action::new(Piece::Attacker, square(2, 1), square(2, 4));
    assert_eq!(board.move_piece(action, None), Ok(()));
    assert_eq!(
        captures(&board),
        vec![
            (Piece::Defender, square(1, 4)),
            (Piece::Defender, square(2, 5)),
            (Piece::King, square(3, 4)),
        ]
    );
    assert_eq!(captures(&board).len(), 3);
}

#[test]
fn captures_can_be_asked_one_direction_at_a_time() {
    let bitboard = Bitboard::from_fen("4A4/4D4/2AKA4/9/9/9/9/9/9").unwrap();
    let landing = square(2, 4);
    assert_eq!(capture(&bitboard, Piece::Attacker, landing, 0), Some((Piece::Defender, square(1, 4))));
    assert_eq!(capture(&bitboard, Piece::Attacker, landing, 1), Some((Piece::King, square(2, 3))));
    assert_eq!(capture(&bitboard, Piece::Attacker, landing, 2), None);
    assert_eq!(capture(&bitboard, Piece::Attacker, landing, 3), None);
    assert_eq!(capture(&bitboard, Piece::Defender, landing, 0), None);
    assert_eq!(capture(&bitboard, Piece::Attacker, square(0, 4), 3), Some((Piece::Defender, square(1, 4))));
    assert_eq!(capture(&bitboard, Piece::Attacker, square(0, 4), 0), None);
    let again = capture(&bitboard, Piece::Attacker, landing, 0);
    assert_eq!(again, Some((Piece::Defender, square(1, 4))));
    let mut overlap = Bitboard::from_fen("D8/A8/D8/9/9/9/9/9/9").unwrap();
    overlap[Piece::Defender] |= Mask(1 << 9);
    assert_eq!(capture(&overlap, Piece::Defender, square(0, 0), 3), Some((Piece::Attacker, square(1, 0))));
}

#[test]
fn defenders_capture_attackers_and_edges_are_skipped() {
    let mut board = Board::from_fen("D8/9/A8/D8/9/9/9/9/9 W").unwrap();
    let action = Action::new(Piece::Defender, square(0, 0), square(1, 0));
    assert_eq!(board.move_piece(action, None), Ok(()));
    assert_eq!(captures(&board), vec![(Piece::Attacker, square(2, 0))]);

    let mut king = Board::from_fen("K8/9/A8/D8/9/9/9/9/9 W").unwrap();
    let action = Action::new(Piece::King, square(0, 0), square(1, 0));
    assert_eq!(king.move_piece(action, None), Ok(()));
    assert_eq!(captures(&king), vec![(Piece::Attacker, square(2, 0))]);

    let mut edge = Board::from_fen("AD7/9/9/9/9/9/9/9/A8 B").unwrap();
    let action = Action::new(Piece::Attacker, square(8, 0), square(8, 2));
    assert_eq!(edge.move_piece(action, None), Ok(()));
    assert_eq!(captures(&edge), Vec::new());
}

#[test]
fn well_formedness_can_be_tested() {
    assert!(Mask::board().is_well_formed());
    assert!(!Mask(1 << 81).is_well_formed());
    let mut board = Board::new();
    assert_eq!(board.state(), board.state);
    assert!(board.is_well_formed());
    assert!(board.bitboard().is_well_formed());
    board.state.turn = Piece::King;
    assert!(!board.is_well_formed());
    board.state.turn = Piece::Defender;
    board.add_piece(Piece::Defender, square(0, 3));
    assert!(!board.is_well_formed());
    let mut off = Bitboard::new();
    off.set(Piece::King, Mask(1 << 100));
    assert!(!off.is_well_formed());
}

#[test]
fn turn_and_history_helpers() {
    let mut board = Board::new();
    assert_eq!(board.turn_mask(), mask_of(&ATTACKERS));
    board.toggle_turn();
    assert_eq!(board.state.turn, Piece::Defender);
    let mut defenders = mask_of(&DEFENDERS);
    defenders |= Mask(1 << 40);
    assert_eq!(board.turn_mask(), defenders);
    board.save();
    assert_eq!(board.history().len(), 2);
    assert_eq!(board.history()[1].turn, Piece::Defender);
    board.toggle_turn();
    assert_eq!(board.state.turn, Piece::Attacker);
    let hash = board.state.zobrist_hash;
    board.add_piece(Piece::Attacker, square(1, 1));
    assert_ne!(board.state.zobrist_hash, hash);
    assert!(board.bitboard()[Piece::Attacker].contains(10));
    board.remove_piece(Piece::Attacker, square(1, 1));
    assert_eq!(board.state.zobrist_hash, hash);
    assert_eq!(board.bitboard()[Piece::Attacker], mask_of(&ATTACKERS));
}

fn key_for(origin: Square, occupancy: Mask, magic: u128) -> u128 {
    let relevant = MagicTable::relevant(origin, occupancy);
    relevant.0.wrapping_mul(magic) >> (128 - MagicTable::shift(origin))
}

#[test]
fn keys_are_the_top_bits_of_the_product() {
    let origin = square(4, 4);
    let magic: u128 = 0x9e37_79b9_7f4a_7c15_f39c_c060_5ced_c835;
    let table = table_for(origin, magic, &[]);
    let occupancy = mask_of(&[13, 41, 44, 80]);
    assert_eq!(MagicTable::relevant(origin, occupancy), mask_of(&[13, 41]));
    let product = ((1u128 << 13) | (1u128 << 41)).wrapping_mul(magic);
    assert_eq!(table.key(origin, occupancy), product >> 116);
    assert_eq!(table.key(origin, occupancy), key_for(origin, occupancy, magic));
    assert_eq!(table.key(origin, Mask(0)), 0);
}

fn table_for(origin: Square, magic: u128, occupancies: &[Mask]) -> MagicTable {
    let mut entries = Vec::new();
    for index in 0..81usize {
        let mut map = HashMap::new();
        if index == origin.index() {
            for &occupancy in occupancies {
                let relevant = MagicTable::relevant(origin, occupancy);
                let reach = Bitboard::legal_moves(origin, relevant);
                let earlier = map.insert(key_for(origin, occupancy, magic), reach);
                assert!(earlier.is_none() || earlier == Some(reach));
            }
        }
        entries.push((Mask(magic), map));
    }
    MagicTable::from_entries(entries)
}

#[test]
fn table_lookup_equals_ray_casting() {
    let magic: u128 = 0x9e37_79b9_7f4a_7c15_f39c_c060_5ced_c835;
    for origin in [square(4, 4), square(0, 0), square(8, 8), square(4, 8), square(8, 3), square(2, 6)] {
        let mut occupancies = Vec::new();
        let mut seed: u128 = 0x1234_5678_9abc_def0_0fed_cba9_8765_4321;
        for _ in 0..40 {
            seed = seed.wrapping_mul(0x5851_f42d_4c95_7f2d_1405_7b7e_f767_814f).wrapping_add(99);
            let next = seed.rotate_left(17) & seed;
            occupancies.push(Mask(next & Mask::BOARD_MASK).difference(origin.mask()));
        }
        occupancies.push(Mask(0));
        occupancies.push(Mask::board().difference(origin.mask()));
        let table = table_for(origin, magic, &occupancies);
        assert_eq!(table.magics.len(), 81);
        assert_eq!(table.moves.len(), 81);
        for &occupancy in &occupancies {
            assert!(table.verifies(origin, occupancy));
            let walked = Bitboard::legal_moves(origin, Bitboard::moves(origin) & occupancy);
            assert_eq!(table.lookup(origin, occupancy), Some(walked));
        }
    }
}

#[test]
fn board_moves_agree_with_and_without_a_table() {
    let board = Board::new();
    let magic: u128 = 0x9e37_79b9_7f4a_7c15_f39c_c060_5ced_c835;
    for index in [3usize, 13, 22, 40, 36, 44, 77] {
        let origin = Square::try_from(index).unwrap();
        let table = table_for(origin, magic, &[board.bitboard().all()]);
        let slow = board.moves(origin, None);
        let fast = board.moves(origin, Some(&table));
        assert_eq!(fast, slow);
        assert_eq!(slow & board.bitboard().all(), Mask(0));
    }
    let from_edge = board.moves(square(0, 3), None);
    assert_eq!(from_edge, mask_of(&[0, 1, 2, 12, 21, 30]));
}

#[test]
fn a_move_can_be_checked_against_a_table() {
    let mut board = Board::new();
    let origin = square(0, 3);
    let magic: u128 = 0x9e37_79b9_7f4a_7c15_f39c_c060_5ced_c835;
    let table = table_for(origin, magic, &[board.bitboard().all()]);
    let blocked = Action::new(Piece::Attacker, origin, square(0, 4));
    assert_eq!(board.move_piece(blocked, Some(&table)), Err(VikingChessError::IllegalMove));
    let open = Action::new(Piece::Attacker, origin, square(3, 3));
    assert_eq!(board.move_piece(open, Some(&table)), Ok(()));
    assert!(board.bitboard()[Piece::Attacker].contains(30));
}

#[test]
fn missing_and_wrong_entries_are_told_apart() {
    let origin = square(4, 4);
    let magic: u128 = 0x9e37_79b9_7f4a_7c15_f39c_c060_5ced_c835;
    let known = square(4, 6).mask();
    let mut table = table_for(origin, magic, &[known]);
    assert!(table.verifies(origin, known));
    let unknown = square(4, 2).mask();
    assert_eq!(table.lookup(origin, unknown), None);
    assert!(!table.verifies(origin, unknown));
    assert_eq!(table.lookup(square(0, 0), known), None);
    let key = key_for(origin, known, magic);
    table.moves[40].insert(key, Mask(0));
    assert_eq!(table.lookup(origin, known), Some(Mask(0)));
    assert!(!table.verifies(origin, known));
    let short = MagicTable::from_entries(Vec::new());
    assert_eq!(short.lookup(origin, known), None);
    assert!(!short.verifies(origin, known));
    assert_eq!(MagicTable::MAGICS_PATH, "./assets/magics.ron");
    let edge = square(4, 7).mask() | square(4, 8).mask();
    assert_eq!(MagicTable::relevant(origin, edge), square(4, 7).mask());
    assert_eq!(MagicTable::relevant(origin, square(4, 8).mask()), Mask(0));
}
