use core::cmp::Ordering;
use vstd::prelude::*;
use vstd::std_specs::cmp::PartialOrdSpecImpl;
use vstd::string::StringExecFns;

verus! {

/// Whether bit `i` of `v` is set. Bits are numbered from the least significant.
pub open spec fn bit_set(v: u128, i: int) -> bool {
    0 <= i < 128 && (v >> (i as u128)) & 1 == 1
}

/// The indices of the bits that are set in `v`.
pub open spec fn bits_of(v: u128) -> Set<int> {
    Set::new(|i: int| bit_set(v, i))
}

/// The bits of a disjunction are those of either operand.
pub proof fn lemma_bits_or(a: u128, b: u128)
    ensures
        bits_of(a | b) == bits_of(a).union(bits_of(b)),
{
    assert forall|i: int| bit_set(a | b, i) == (bit_set(a, i) || bit_set(b, i)) by {
        if 0 <= i < 128 {
            let k = i as u128;
            assert((((a | b) >> k) & 1 == 1) == ((a >> k) & 1 == 1 || (b >> k) & 1 == 1))
                by (bit_vector);
        }
    }
    assert(bits_of(a | b) =~= bits_of(a).union(bits_of(b)));
}

/// The bits of a conjunction are those of both operands.
pub proof fn lemma_bits_and(a: u128, b: u128)
    ensures
        bits_of(a & b) == bits_of(a).intersect(bits_of(b)),
{
    assert forall|i: int| bit_set(a & b, i) == (bit_set(a, i) && bit_set(b, i)) by {
        if 0 <= i < 128 {
            let k = i as u128;
            assert((((a & b) >> k) & 1 == 1) == ((a >> k) & 1 == 1 && (b >> k) & 1 == 1))
                by (bit_vector);
        }
    }
    assert(bits_of(a & b) =~= bits_of(a).intersect(bits_of(b)));
}

/// The bits of a negation are the bits below 128 that the operand lacks.
pub proof fn lemma_bits_not(a: u128)
    ensures
        forall|i: int|
            0 <= i < 128 ==> (#[trigger] bits_of(!a).contains(i) == !bits_of(a).contains(i)),
{
    assert forall|i: int| 0 <= i < 128 implies (#[trigger] bits_of(!a).contains(i) == !bits_of(
        a,
    ).contains(i)) by {
        let k = i as u128;
        assert(k < 128 ==> ((((!a) >> k) & 1 == 1) == !((a >> k) & 1 == 1))) by (bit_vector);
    }
}

/// A one shifted left by `k` has bit `k` and no other.
pub proof fn lemma_bits_single(k: int)
    requires
        0 <= k < 128,
    ensures
        bits_of(1u128 << (k as u128)) == set![k],
{
    let s = k as u128;
    assert forall|i: int| bit_set(1u128 << s, i) == (i == k) by {
        if 0 <= i < 128 {
            let j = i as u128;
            assert(s < 128 && j < 128 ==> ((((1u128 << s) >> j) & 1 == 1) == (j == s)))
                by (bit_vector);
        }
    }
    assert(bits_of(1u128 << s) =~= set![k]);
}

/// Zero has no bit.
pub proof fn lemma_bits_zero()
    ensures
        bits_of(0) == Set::<int>::empty(),
{
    assert forall|i: int| !bit_set(0, i) by {
        if 0 <= i < 128 {
            let k = i as u128;
            assert((0u128 >> k) & 1 == 0) by (bit_vector);
        }
    }
    assert(bits_of(0) =~= Set::<int>::empty());
}

/// A value other than zero has a bit.
pub proof fn lemma_nonzero_has_bit(v: u128) -> (i: int)
    requires
        v != 0,
    ensures
        bit_set(v, i),
    decreases v,
{
    if v & 1 == 1 {
        assert(v & 1 == 1 ==> (v >> 0) & 1 == 1) by (bit_vector);
        0
    } else {
        let half = v >> 1;
        assert(v != 0 && v & 1 != 1 ==> (v >> 1) != 0 && (v >> 1) < v) by (bit_vector);
        let j = lemma_nonzero_has_bit(half);
        let k = j as u128;
        assert(((v >> 1) >> k) & 1 == 1 ==> k < 127 && (v >> ((k + 1) as u128)) & 1 == 1)
            by (bit_vector);
        j + 1
    }
}

/// Two values with the same bits are the same value.
pub proof fn lemma_bits_injective(a: u128, b: u128)
    requires
        bits_of(a) == bits_of(b),
    ensures
        a == b,
{
    if a != b {
        let d = a ^ b;
        assert(a != b ==> a ^ b != 0) by (bit_vector);
        let i = lemma_nonzero_has_bit(d);
        let k = i as u128;
        assert(((a ^ b) >> k) & 1 == 1 ==> ((a >> k) & 1 == 1) != ((b >> k) & 1 == 1))
            by (bit_vector);
        assert(bits_of(a).contains(i) == bit_set(a, i));
        assert(bits_of(b).contains(i) == bit_set(b, i));
    }
}

/// A value is below two to the power 81 exactly when it has no bit from 81 up.
pub proof fn lemma_bits_in_range(v: u128)
    ensures
        v < 0x2_0000_0000_0000_0000_0000 <==> (forall|i: int| bits_of(v).contains(i) ==> i < 81),
{
    if v < 0x2_0000_0000_0000_0000_0000 {
        assert forall|i: int| bits_of(v).contains(i) implies i < 81 by {
            let k = i as u128;
            assert(v < 0x2_0000_0000_0000_0000_0000 && 81 <= k < 128 ==> (v >> k) & 1 == 0)
                by (bit_vector);
        }
    } else {
        let high = v >> 81;
        assert(v >= 0x2_0000_0000_0000_0000_0000 ==> (v >> 81) != 0) by (bit_vector);
        let j = lemma_nonzero_has_bit(high);
        let k = j as u128;
        assert(((v >> 81) >> k) & 1 == 1 ==> k < 47 && (v >> ((k + 81) as u128)) & 1 == 1)
            by (bit_vector);
        assert(bits_of(v).contains(j + 81));
    }
}

/// A set of board squares, one bit per square: bit `row * 9 + col` stands for
/// the square in that row and column. Only the low 81 bits are meaningful; a
/// mask that keeps the others clear is well formed.
#[derive(Debug, PartialEq, Eq, Structural, Hash, Clone, Copy)]
pub struct Mask(pub u128);

impl View for Mask {
    type V = Set<int>;

    /// The indices of the squares in the mask.
    open spec fn view(&self) -> Set<int> {
        bits_of(self.0)
    }
}

impl Mask {
    /// Bit pattern of all 81 squares.
    pub const BOARD_MASK: u128 = 0x1_ffff_ffff_ffff_ffff_ffff;

    /// Bit pattern of the first column.
    pub const FIRST_COLUMN: u128 = 0x1008040201008040201;

    /// Bit pattern of the first row.
    pub const FIRST_ROW: u128 = 0x1ff;

    /// Bit pattern of the four corner squares.
    pub const CORNER_MASK: u128 = 0x1_0100_0000_0000_0000_0101;

    /// Bit pattern of the centre square.
    pub const THRONE_MASK: u128 = 0x100_0000_0000;

    /// No bit outside the 81 squares of the board is set.
    pub open spec fn wf(self) -> bool {
        self.0 < 0x2_0000_0000_0000_0000_0000
    }

    /// The indices of all squares of the board.
    pub open spec fn board_set() -> Set<int> {
        Set::new(|i: int| 0 <= i < 81)
    }

    /// The mask with no square.
    pub fn empty() -> (m: Mask)
        ensures
            m.0 == 0,
            m@ == Set::<int>::empty(),
            m.wf(),
    {
        proof {
            lemma_bits_zero();
        }
        Mask(0)
    }

    /// The mask of all 81 squares.
    pub fn board() -> (m: Mask)
        ensures
            m.0 == Mask::BOARD_MASK,
            m@ == Mask::board_set(),
            m.wf(),
    {
        proof {
            lemma_board_bits();
        }
        Mask(Mask::BOARD_MASK)
    }

    /// The four corner squares.
    pub fn corners() -> (m: Mask)
        ensures
            m.0 == Mask::CORNER_MASK,
            m@ == set![0int, 8, 72, 80],
    {
        proof {
            lemma_special_bits();
        }
        Mask(Mask::CORNER_MASK)
    }

    /// The centre square.
    pub fn throne() -> (m: Mask)
        ensures
            m.0 == Mask::THRONE_MASK,
            m@ == set![40int],
    {
        proof {
            lemma_special_bits();
        }
        Mask(Mask::THRONE_MASK)
    }

    /// The squares of one column.
    pub fn column(col: u8) -> (m: Mask)
        requires
            col < 9,
        ensures
            m.0 == Mask::FIRST_COLUMN << (col as u128),
            m@ == Set::new(|i: int| 0 <= i < 81 && i % 9 == col as int),
            m.wf(),
    {
        proof {
            lemma_column_bits(col);
            lemma_bits_in_range(Mask::FIRST_COLUMN << (col as u128));
        }
        Mask(Mask::FIRST_COLUMN << (col as u128))
    }

    /// The squares of one row.
    pub fn row(row: u8) -> (m: Mask)
        requires
            row < 9,
        ensures
            m.0 == Mask::FIRST_ROW << ((9 * row) as u128),
            m@ == Set::new(|i: int| 0 <= i < 81 && i / 9 == row as int),
            m.wf(),
    {
        proof {
            lemma_row_bits(row);
            lemma_bits_in_range(Mask::FIRST_ROW << ((9 * row) as u128));
        }
        Mask(Mask::FIRST_ROW << ((9 * row) as u128))
    }

    /// Whether no bit outside the 81 squares of the board is set.
    pub fn is_well_formed(self) -> (ok: bool)
        ensures
            ok == self.wf(),
    {
        self.0 <= Mask::BOARD_MASK
    }

    /// Whether the mask holds no square.
    pub fn is_empty(self) -> (b: bool)
        ensures
            b == (self.0 == 0),
            b == (self@ == Set::<int>::empty()),
    {
        proof {
            lemma_bits_zero();
            if self@ == Set::<int>::empty() {
                lemma_bits_injective(self.0, 0);
            }
        }
        self.0 == 0
    }

    /// The squares that are in either mask.
    pub fn union(self, rhs: Mask) -> (m: Mask)
        ensures
            m.0 == self.0 | rhs.0,
            m@ == self@.union(rhs@),
            self.wf() && rhs.wf() ==> m.wf(),
    {
        proof {
            lemma_bits_or(self.0, rhs.0);
            lemma_bits_in_range(self.0);
            lemma_bits_in_range(rhs.0);
            lemma_bits_in_range(self.0 | rhs.0);
        }
        Mask(self.0 | rhs.0)
    }

    /// The squares that are in both masks.
    pub fn intersection(self, rhs: Mask) -> (m: Mask)
        ensures
            m.0 == self.0 & rhs.0,
            m@ == self@.intersect(rhs@),
            self.wf() || rhs.wf() ==> m.wf(),
    {
        proof {
            lemma_bits_and(self.0, rhs.0);
            lemma_bits_in_range(self.0);
            lemma_bits_in_range(rhs.0);
            lemma_bits_in_range(self.0 & rhs.0);
        }
        Mask(self.0 & rhs.0)
    }

    /// The squares of the board that are not in the mask.
    pub fn complement(self) -> (m: Mask)
        ensures
            m.0 == !self.0 & Mask::BOARD_MASK,
            m@ == Mask::board_set().difference(self@),
            m.wf(),
    {
        proof {
            lemma_bits_not(self.0);
            lemma_bits_and(!self.0, Mask::BOARD_MASK);
            lemma_board_bits();
            lemma_bits_in_range(!self.0 & Mask::BOARD_MASK);
            assert(bits_of(!self.0 & Mask::BOARD_MASK) =~= Mask::board_set().difference(self@));
        }
        Mask(!self.0 & Mask::BOARD_MASK)
    }

    /// The squares of the mask that are not in `rhs`.
    pub fn difference(self, rhs: Mask) -> (m: Mask)
        ensures
            m.0 == self.0 & !rhs.0,
            m@ == self@.difference(rhs@),
            self.wf() ==> m.wf(),
    {
        proof {
            lemma_bits_not(rhs.0);
            lemma_bits_and(self.0, !rhs.0);
            lemma_bits_in_range(self.0);
            lemma_bits_in_range(self.0 & !rhs.0);
            assert(bits_of(self.0 & !rhs.0) =~= self@.difference(rhs@));
        }
        Mask(self.0 & !rhs.0)
    }

    /// The masks that hold only squares of `within`, taken in the order of
    /// their numbers: the one that follows this mask, or nothing where this
    /// mask is `within` itself and so the last of them.
    pub fn next_subset(self, within: Mask) -> (next: Option<Mask>)
        requires
            self@.subset_of(within@),
        ensures
            next is None <==> self == within,
            next matches Some(n) ==> {
                &&& n@.subset_of(within@)
                &&& self.0 < n.0
                &&& forall|t: Mask| #[trigger] t@.subset_of(within@) && self.0 < t.0 ==> n.0 <= t.0
            },
    {
        let s = self.0;
        let m = within.0;
        proof {
            lemma_subset_bits(self, within);
        }
        let filled: u128 = s | !m;
        if filled == u128::MAX {
            assert(s & !m == 0 && (s | !m) == 0xffff_ffff_ffff_ffff_ffff_ffff_ffff_ffffu128 ==> s
                == m) by (bit_vector);
            None
        } else {
            let n: u128 = (filled + 1) & m;
            proof {
                assert(s & !m == 0 && (s | !m) != 0xffff_ffff_ffff_ffff_ffff_ffff_ffff_ffffu128 ==> (
                (((s | !m) + 1) as u128) & m) & !m == 0 && ((((s | !m) + 1) as u128) & m) > s)
                    by (bit_vector);
                lemma_subset_bits(Mask(n), within);
                assert forall|t: Mask| #[trigger] t@.subset_of(within@) && s < t.0 implies n
                    <= t.0 by {
                    lemma_subset_bits(t, within);
                    let v = t.0;
                    assert(s & !m == 0 && v & !m == 0 && (s | !m)
                        != 0xffff_ffff_ffff_ffff_ffff_ffff_ffff_ffffu128 && v > s ==> ((((s | !m)
                        + 1) as u128) & m) <= v) by (bit_vector);
                }
            }
            Some(Mask(n))
        }
    }

    /// Whether the two masks share a square.
    pub fn intersects(self, rhs: Mask) -> (b: bool)
        ensures
            b == (self.0 & rhs.0 != 0),
            b == !self@.disjoint(rhs@),
    {
        let both = self.intersection(rhs);
        proof {
            if self@.disjoint(rhs@) {
                assert(both@ =~= Set::<int>::empty());
            } else {
                let i = choose|i: int| self@.contains(i) && rhs@.contains(i);
                assert(both@.contains(i));
            }
        }
        !both.is_empty()
    }

    /// The mask as nine lines of nine characters, each line closed by a line
    /// feed: `1` for a square of the mask and `.` for any other.
    pub open spec fn spec_text(self) -> Seq<char> {
        Seq::new(
            90,
            |k: int|
                if k % 10 == 9 {
                    '\n'
                } else if self@.contains((k / 10) * 9 + k % 10) {
                    '1'
                } else {
                    '.'
                },
        )
    }

    /// The mask drawn as a board of `1` and `.`, row by row.
    pub fn to_text(&self) -> (text: String)
        ensures
            text@ == self.spec_text(),
    {
        let mut text = String::new();
        let mut row: usize = 0;
        proof {
            reveal_strlit("1");
            reveal_strlit(".");
            reveal_strlit("\n");
        }
        while row < 9
            invariant
                row <= 9,
                text@ == self.spec_text().take(row * 10),
                "1"@ == seq!['1'],
                "."@ == seq!['.'],
                "\n"@ == seq!['\n'],
            decreases 9 - row,
        {
            let mut col: usize = 0;
            while col < 9
                invariant
                    row < 9,
                    col <= 9,
                    text@ == self.spec_text().take(row * 10 + col),
                    "1"@ == seq!['1'],
                    "."@ == seq!['.'],
                decreases 9 - col,
            {
                if self.contains(row * 9 + col) {
                    text.append("1");
                } else {
                    text.append(".");
                }
                assert(text@ =~= self.spec_text().take(row * 10 + col + 1));
                col = col + 1;
            }
            text.append("\n");
            assert(text@ =~= self.spec_text().take((row + 1) * 10));
            row = row + 1;
        }
        assert(self.spec_text().take(90) =~= self.spec_text());
        text
    }

    /// Whether the square with the given index is in the mask.
    pub fn contains(self, index: usize) -> (b: bool)
        ensures
            b == self@.contains(index as int),
    {
        if index < 128 {
            let shifted: u128 = self.0 >> (index as u128);
            shifted & 1 == 1
        } else {
            false
        }
    }
}

/// The pattern of the board has exactly the bits below 81.
pub proof fn lemma_board_bits()
    ensures
        bits_of(Mask::BOARD_MASK) == Mask::board_set(),
        Mask(Mask::BOARD_MASK).wf(),
{
    assert forall|i: int| bit_set(0x1_ffff_ffff_ffff_ffff_ffff, i) == (0 <= i < 81) by {
        if 0 <= i < 128 {
            let k = i as u128;
            assert(k < 128 ==> (((0x1_ffff_ffff_ffff_ffff_ffffu128 >> k) & 1 == 1) == (k < 81)))
                by (bit_vector);
        }
    }
    assert(bits_of(Mask::BOARD_MASK) =~= Mask::board_set());
}

/// The pattern of the first column, shifted by `col`, has the bits of the
/// squares of column `col`.
pub proof fn lemma_column_bits(col: u8)
    requires
        col < 9,
    ensures
        bits_of(Mask::FIRST_COLUMN << (col as u128)) == Set::new(
            |i: int| 0 <= i < 81 && i % 9 == col as int,
        ),
{
    let pattern = Mask::FIRST_COLUMN << (col as u128);
    assert forall|i: int| bit_set(pattern, i) == (0 <= i < 81 && i % 9 == col as int) by {
        if 0 <= i < 128 {
            let k = i as u8;
            assert(col < 9 && k < 128 ==> (((((0x1008040201008040201u128 << (col as u128)) >> (
            k as u128)) & 1) == 1) == (k < 81 && k % 9 == col))) by (bit_vector);
        }
    }
    assert(bits_of(pattern) =~= Set::new(|i: int| 0 <= i < 81 && i % 9 == col as int));
}

/// The pattern of the first row, shifted by nine times `row`, has the bits of
/// the squares of row `row`.
pub proof fn lemma_row_bits(row: u8)
    requires
        row < 9,
    ensures
        bits_of(Mask::FIRST_ROW << ((9 * row) as u128)) == Set::new(
            |i: int| 0 <= i < 81 && i / 9 == row as int,
        ),
{
    let pattern = Mask::FIRST_ROW << ((9 * row) as u128);
    assert forall|i: int| bit_set(pattern, i) == (0 <= i < 81 && i / 9 == row as int) by {
        if 0 <= i < 128 {
            let k = i as u8;
            assert(row < 9 && k < 128 ==> (((((0x1ffu128 << ((9 * row) as u128)) >> (k as u128))
                & 1) == 1) == (k < 81 && k / 9 == row))) by (bit_vector);
        }
    }
    assert(bits_of(pattern) =~= Set::new(|i: int| 0 <= i < 81 && i / 9 == row as int));
}

/// The pattern of the corners has the bits of the four corner squares, and
/// the pattern of the throne the bit of the centre square.
pub proof fn lemma_special_bits()
    ensures
        bits_of(Mask::CORNER_MASK) == set![0int, 8, 72, 80],
        bits_of(Mask::THRONE_MASK) == set![40int],
{
    assert forall|i: int|
        bit_set(Mask::CORNER_MASK, i) == (i == 0 || i == 8 || i == 72 || i == 80) by {
        if 0 <= i < 128 {
            let k = i as u128;
            assert(k < 128 ==> (((0x1_0100_0000_0000_0000_0101u128 >> k) & 1 == 1) == (k == 0 || k
                == 8 || k == 72 || k == 80))) by (bit_vector);
        }
    }
    assert(bits_of(Mask::CORNER_MASK) =~= set![0int, 8, 72, 80]);
    assert forall|i: int| bit_set(Mask::THRONE_MASK, i) == (i == 40) by {
        if 0 <= i < 128 {
            let k = i as u128;
            assert(k < 128 ==> (((0x100_0000_0000u128 >> k) & 1 == 1) == (k == 40)))
                by (bit_vector);
        }
    }
    assert(bits_of(Mask::THRONE_MASK) =~= set![40int]);
}

/// One mask holds only squares of another exactly when its number has no
/// bit that the other lacks; its number is then not the greater one.
pub proof fn lemma_subset_bits(a: Mask, b: Mask)
    ensures
        a@.subset_of(b@) <==> a.0 & !b.0 == 0,
        a@.subset_of(b@) ==> a.0 <= b.0,
{
    lemma_bits_not(b.0);
    lemma_bits_and(a.0, !b.0);
    lemma_bits_zero();
    if a@.subset_of(b@) {
        assert(bits_of(a.0 & !b.0) =~= Set::<int>::empty());
        lemma_bits_injective(a.0 & !b.0, 0);
        let x = a.0;
        let y = b.0;
        assert(x & !y == 0 ==> x <= y) by (bit_vector);
    }
    if a.0 & !b.0 == 0 {
        assert forall|i: int| a@.contains(i) implies b@.contains(i) by {
            assert(!bits_of(a.0 & !b.0).contains(i));
        }
    }
}

/// Two masks with the same squares are the same mask.
pub proof fn lemma_mask_ext(a: Mask, b: Mask)
    requires
        a@ == b@,
    ensures
        a == b,
{
    lemma_bits_injective(a.0, b.0);
}

impl PartialOrd for Mask {
    /// Masks are ordered as their numbers are.
    fn partial_cmp(&self, other: &Mask) -> (order: Option<Ordering>) {
        if self.0 < other.0 {
            Some(Ordering::Less)
        } else if self.0 > other.0 {
            Some(Ordering::Greater)
        } else {
            Some(Ordering::Equal)
        }
    }
}

impl PartialOrdSpecImpl for Mask {
    open spec fn obeys_partial_cmp_spec() -> bool {
        true
    }

    open spec fn partial_cmp_spec(&self, other: &Mask) -> Option<Ordering> {
        if self.0 < other.0 {
            Some(Ordering::Less)
        } else if self.0 > other.0 {
            Some(Ordering::Greater)
        } else {
            Some(Ordering::Equal)
        }
    }
}

impl core::ops::BitOr for Mask {
    type Output = Mask;

    /// The squares that are in either mask.
    fn bitor(self, rhs: Mask) -> (m: Mask)
        ensures
            m@ == self@.union(rhs@),
    {
        self.union(rhs)
    }
}

impl vstd::std_specs::ops::BitOrSpecImpl for Mask {
    open spec fn obeys_bitor_spec() -> bool {
        true
    }

    open spec fn bitor_req(self, rhs: Mask) -> bool {
        true
    }

    open spec fn bitor_spec(self, rhs: Mask) -> Mask {
        Mask(self.0 | rhs.0)
    }
}

impl core::ops::BitAnd for Mask {
    type Output = Mask;

    /// The squares that are in both masks.
    fn bitand(self, rhs: Mask) -> (m: Mask)
        ensures
            m@ == self@.intersect(rhs@),
    {
        self.intersection(rhs)
    }
}

impl vstd::std_specs::ops::BitAndSpecImpl for Mask {
    open spec fn obeys_bitand_spec() -> bool {
        true
    }

    open spec fn bitand_req(self, rhs: Mask) -> bool {
        true
    }

    open spec fn bitand_spec(self, rhs: Mask) -> Mask {
        Mask(self.0 & rhs.0)
    }
}

impl core::ops::Not for Mask {
    type Output = Mask;

    /// The squares of the board that are not in the mask.
    fn not(self) -> (m: Mask)
        ensures
            m@ == Mask::board_set().difference(self@),
            m.wf(),
    {
        self.complement()
    }
}

impl vstd::std_specs::ops::NotSpecImpl for Mask {
    open spec fn obeys_not_spec() -> bool {
        true
    }

    open spec fn not_req(self) -> bool {
        true
    }

    open spec fn not_spec(self) -> Mask {
        Mask(!self.0 & Mask::BOARD_MASK)
    }
}

impl core::ops::BitOrAssign for Mask {
    /// Adds the squares of `rhs` to the mask.
    fn bitor_assign(&mut self, rhs: Mask)
        ensures
            final(self).0 == old(self).0 | rhs.0,
            final(self)@ == old(self)@.union(rhs@),
    {
        proof {
            lemma_bits_or(self.0, rhs.0);
        }
        self.0 = self.0 | rhs.0;
    }
}

impl core::ops::BitAndAssign for Mask {
    /// Keeps the squares of the mask that are also in `rhs`.
    fn bitand_assign(&mut self, rhs: Mask)
        ensures
            final(self).0 == old(self).0 & rhs.0,
            final(self)@ == old(self)@.intersect(rhs@),
    {
        proof {
            lemma_bits_and(self.0, rhs.0);
        }
        self.0 = self.0 & rhs.0;
    }
}

impl core::ops::Deref for Mask {
    type Target = u128;

    /// The number of the mask.
    fn deref(&self) -> (v: &u128)
        ensures
            *v == self.0,
    {
        &self.0
    }
}

impl core::ops::DerefMut for Mask {
    /// The number of the mask, to be changed in place.
    fn deref_mut(&mut self) -> (v: &mut u128)
        ensures
            *v == old(self).0,
            final(self).0 == *final(v),
    {
        &mut self.0
    }
}

impl From<u128> for Mask {
    /// The mask with the given number.
    fn from(value: u128) -> (m: Mask) {
        Mask(value)
    }
}

impl vstd::std_specs::convert::FromSpecImpl<u128> for Mask {
    open spec fn obeys_from_spec() -> bool {
        true
    }

    open spec fn from_spec(value: u128) -> Mask {
        Mask(value)
    }
}

impl Default for Mask {
    /// The mask with no square.
    fn default() -> (m: Mask)
        ensures
            m.0 == 0,
    {
        Mask(0)
    }
}

} // verus!
