use std::collections::HashMap;

use viking_chess::prelude::Action;
use viking_chess::prelude::Bitboard;
use viking_chess::prelude::Board;
use viking_chess::prelude::MagicTable;
use viking_chess::prelude::Mask;
use viking_chess::prelude::Piece;
use viking_chess::prelude::Square;

const MAGICS: [u128; 81] = [
    0x0240_0002_0081_0200_8000_4000_0001_5100,
    0x0220_0008_00a0_8000_4000_0400_0002_0424,
    0x1100_0408_008c_0084_0004_0200_004a_a020,
    0x8080_0200_9000_8000_4002_0500_2013_0010,
    0x40c0_0100_0210_4000_0480_1001_0208_c102,
    0x4080_0041_0020_2000_2100_4081_9000_0000,
    0x0040_0110_0010_0008_0000_a100_0180_020c,
    0x0600_0020_1840_3020_0041_0040_0004_4002,
    0x0280_0040_0802_0081_2d00_0069_0100_0400,
    0x1020_6000_1400_018a_2080_0081_4023_0200,
    0x0002_1000_0200_0102_2004_0099_0012_0010,
    0x0400_2004_0004_0021_2000_0000_4110_1002,
    0x9204_8000_8081_0104_0010_8844_0020_0468,
    0x0000_4000_4100_2400_1000_0004_4104_0080,
    0x4602_8000_2000_4050_a012_0200_2080_404a,
    0x0004_8000_c281_2022_0200_0010_3400_0100,
    0x0018_8000_4034_1800_8904_1000_8041_0c08,
    0x0020_8000_4110_0a02_8020_8000_0040_0000,
    0x0020_0010_0001_0348_8281_9020_0804_0006,
    0x2120_0088_0100_0300_4009_0000_0000_a040,
    0x8009_0210_0100_0080_0080_0000_0002_0008,
    0x0848_0008_0080_0090_00c1_4100_8001_0800,
    0x1201_0940_0051_8084_0028_6410_0801_0208,
    0x0040_c020_0040_0004_0c48_2101_1100_00c0,
    0xe100_a010_0010_0048_0010_9241_0008_4000,
    0x0028_0080_0041_4004_0940_4220_2000_0081,
    0xa00c_0040_0020_2102_0520_4200_2008_4c00,
    0x8400_0802_1800_0224_8001_4000_0880_4072,
    0x2080_0400_0400_0900_4000_0120_8004_0220,
    0x0020_0800_0800_8000_1280_0102_2010_4000,
    0x1400_8001_2000_8100_4024_8100_2822_0100,
    0x0000_0080_9000_8020_0100_0200_4000_4480,
    0x4028_8000_6000_4008_2044_0004_0000_0854,
    0x02c0_8000_2000_2460_8802_0850_0401_4016,
    0x1002_0208_4000_1801_0504_0000_4102_0010,
    0x8400_000c_2000_0a00_8408_8402_4800_0800,
    0x1093_b000_0104_0004_4080_0080_20dc_0024,
    0x1200_a008_0034_0080_0014_0001_0100_010c,
    0x0110_3a06_1018_0080_0040_3002_0020_c006,
    0x0188_4042_0008_0010_1020_0000_1000_0001,
    0x3004_0020_1088_0018_2810_0300_5061_0082,
    0x080d_0880_0014_0010_0080_0000_4000_0000,
    0x0049_2000_4004_0002_0200_0420_0040_0200,
    0x0100_8000_4210_0030_2494_8a00_0404_9260,
    0x0860_5004_8810_0020_8902_0000_0000_0424,
    0x0040_00ac_0000_b100_0040_0800_0108_2010,
    0x0008_0184_0082_0500_0110_0000_8008_8080,
    0xa001_0430_0a02_0800_1200_0800_0002_0048,
    0x0000_0104_1000_4400_6000_0080_0100_0202,
    0x8204_0004_8004_0200_1002_c040_4100_2200,
    0x0a00_8005_0500_0800_0942_0003_8002_4084,
    0x4040_8002_8020_0800_3000_8204_0100_0c00,
    0x0000_4041_8080_9000_0500_6400_0412_0210,
    0x0080_0930_4043_1800_0100_2400_1009_6000,
    0x0205_0684_1802_0001_0000_0240_0118_0441,
    0x8020_0400_9411_0005_8001_4040_0015_0008,
    0x8000_6002_0005_0001_0028_2104_1000_1800,
    0x0000_0204_1000_8002_0004_1200_0002_0000,
    0xd000_4041_0000_800a_0004_0540_2020_8000,
    0x2500_8003_0823_8004_0004_2012_0000_0818,
    0x0600_4008_6020_0202_0004_1000_8010_0000,
    0x1100_0170_8080_0408_0001_0004_2200_3800,
    0x0000_0020_0401_3004_0000_4008_0240_0800,
    0x0100_2001_3002_0040_c500_0001_8a10_4181,
    0x0000_4400_5400_0080_1040_0000_0000_5002,
    0x0830_c09a_2c00_5080_0100_0690_0020_0080,
    0x0854_4102_0008_0424_4300_0080_808a_0000,
    0x0004_0048_0020_0410_0040_0000_1c31_0800,
    0x1e40_4001_0121_0910_0100_0000_d000_0064,
    0x0008_4018_2020_0090_0100_0000_9280_1000,
    0x2000_8025_012d_1810_0400_0000_0000_2180,
    0x4000_4420_820c_5002_8200_0020_0200_0080,
    0x4017_2808_0011_80a1_0000_4000_0422_0000,
    0x4548_0082_0c00_0480_0208_6000_0840_0002,
    0x8009_0101_0c11_8080_0100_8000_0000_0800,
    0x5000_0101_0004_0009_2000_4000_0f00_8084,
    0x4000_4100_0080_000d_0032_4000_0004_1409,
    0x902c_8010_4100_4110_011b_0000_0018_010c,
    0x0114_6003_1090_0018_0000_4000_1000_0040,
    0x0008_8040_1882_4002_0806_0000_8111_0211,
    0x4148_0080_1224_0402_8091_0002_09a4_0084,
];

fn entry(index: usize) -> (Mask, HashMap<u128, Mask>) {
    let origin = Square::try_from(index).unwrap();
    let blockers = Bitboard::blockers(origin).0;
    let shift = MagicTable::SHIFTS[index];
    let mut map = HashMap::new();
    let mut pattern: u128 = 0;
    loop {
        let key = pattern.wrapping_mul(MAGICS[index]) >> (128 - shift);
        let reach = Bitboard::legal_moves(origin, Mask(pattern));
        let earlier = map.insert(key, reach);
        assert!(earlier.is_none() || earlier == Some(reach));
        pattern = pattern.wrapping_sub(blockers) & blockers;
        if pattern == 0 {
            break;
        }
    }
    (Mask(MAGICS[index]), map)
}

fn full_table() -> MagicTable {
    MagicTable::from_entries((0..81).map(entry).collect())
}

#[test]
fn a_complete_table_passes_validation() {
    let table = full_table();
    assert!(table.validate());
}

#[test]
fn a_table_with_one_wrong_answer_fails_validation() {
    let mut entries: Vec<(Mask, HashMap<u128, Mask>)> = (0..81)
        .map(|index| if index == 40 { entry(index) } else { (Mask(MAGICS[index]), HashMap::new()) })
        .collect();
    let partial = MagicTable::from_entries(entries.clone());
    let centre = Square::new(4, 4);
    assert!(partial.validates_square(centre));
    assert!(!partial.validates_square(Square::new(4, 5)));
    assert!(!partial.validate());

    let key = *entries[40].1.keys().next().unwrap();
    let stored = entries[40].1[&key];
    entries[40].1.insert(key, Mask(stored.0 ^ (1 << 41)));
    let wrong = MagicTable::from_entries(entries.clone());
    assert!(!wrong.validates_square(centre));

    entries[40].1.remove(&key);
    let holed = MagicTable::from_entries(entries);
    assert!(!holed.validates_square(centre));
}

#[test]
fn a_complete_table_answers_like_ray_casting_on_every_square() {
    let table = full_table();
    let mut seed: u128 = 0x0123_4567_89ab_cdef_fedc_ba98_7654_3210;
    for round in 0..60 {
        seed = seed.wrapping_mul(0x5851_f42d_4c95_7f2d_1405_7b7e_f767_814f).wrapping_add(round);
        let occupancy = Mask((seed.rotate_left(29) & seed) & Mask::BOARD_MASK);
        for index in 0..81usize {
            let origin = Square::try_from(index).unwrap();
            let walked = Bitboard::legal_moves(origin, Bitboard::moves(origin) & occupancy);
            assert_eq!(table.lookup(origin, occupancy), Some(walked));
            assert!(table.verifies(origin, occupancy));
        }
    }
}

#[test]
fn a_game_plays_the_same_with_and_without_a_table() {
    let table = full_table();
    let mut fast = Board::new();
    let mut slow = Board::new();
    let steps = [
        (Piece::Attacker, 3usize, 2usize),
        (Piece::Defender, 22, 19),
        (Piece::Attacker, 13, 14),
        (Piece::Defender, 31, 30),
        (Piece::Attacker, 27, 18),
        (Piece::King, 40, 31),
        (Piece::Attacker, 77, 80),
        (Piece::Attacker, 77, 78),
        (Piece::King, 31, 13),
        (Piece::Attacker, 5, 8),
        (Piece::Attacker, 18, 19),
    ];
    for (piece, from, to) in steps {
        let action = Action::new(piece, from.try_into().unwrap(), to.try_into().unwrap());
        for index in 0..81usize {
            let origin = Square::try_from(index).unwrap();
            assert_eq!(fast.moves(origin, Some(&table)), slow.moves(origin, None));
        }
        let with_table = fast.move_piece(action, Some(&table));
        let without = slow.move_piece(action, None);
        assert_eq!(with_table, without);
        assert_eq!(fast.bitboard().all(), slow.bitboard().all());
        assert_eq!(fast.state.turn, slow.state.turn);
    }
}
