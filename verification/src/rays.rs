use vstd::prelude::*;
use crate::square::col_of;
use crate::square::index_of;
use crate::square::lemma_index_parts;
use crate::square::lemma_index_whole;
use crate::square::row_of;

verus! {

/// The board squares on the row or the column of `origin`, without `origin`
/// itself: where a piece could slide to on an empty board.
pub open spec fn lines(origin: int) -> Set<int> {
    Set::new(
        |i: int|
            0 <= i < 81 && i != origin && (row_of(i) == row_of(origin) || col_of(i) == col_of(
                origin,
            )),
    )
}

/// Whether a piece that slides from `origin` to `target` enters `via`: the
/// square lies on the straight way between them, `target` included and
/// `origin` not.
pub open spec fn passes(origin: int, target: int, via: int) -> bool {
    ||| row_of(via) == row_of(origin) && row_of(origin) == row_of(target) && (col_of(origin)
        < col_of(via) <= col_of(target) || col_of(target) <= col_of(via) < col_of(origin))
    ||| col_of(via) == col_of(origin) && col_of(origin) == col_of(target) && (row_of(origin)
        < row_of(via) <= row_of(target) || row_of(target) <= row_of(via) < row_of(origin))
}

/// The squares that a piece on `origin` can slide to when the squares of
/// `blockers` are occupied: those of its row and column that it reaches
/// without entering an occupied square.
pub open spec fn slide(origin: int, blockers: Set<int>) -> Set<int> {
    Set::new(
        |t: int|
            lines(origin).contains(t) && forall|u: int|
                0 <= u < 81 && passes(origin, t, u) ==> !blockers.contains(u),
    )
}

/// The squares of `lines(origin)` behind which the board goes on: a piece there
/// can stop a slide short of a further square. The last square of each of the
/// four rays is not among them.
pub open spec fn inner(origin: int) -> Set<int> {
    Set::new(
        |i: int|
            lines(origin).contains(i) && ((row_of(i) == row_of(origin) && 1 <= col_of(i) <= 7) || (
            col_of(i) == col_of(origin) && 1 <= row_of(i) <= 7)),
    )
}

/// Sliding past the occupied squares of `inner(origin)` alone, and then
/// leaving out every occupied square, gives the same squares as sliding with
/// all occupied squares as blockers.
pub proof fn lemma_slide_by_inner(origin: int, occupied: Set<int>)
    requires
        0 <= origin < 81,
    ensures
        slide(origin, occupied.intersect(inner(origin))).difference(occupied) == slide(
            origin,
            occupied,
        ),
        slide(origin, occupied.intersect(lines(origin))) == slide(origin, occupied),
{
    let relevant = occupied.intersect(inner(origin));
    let fast = slide(origin, relevant).difference(occupied);
    let exact = slide(origin, occupied);
    lemma_index_whole(origin);
    assert forall|t: int| fast.contains(t) == exact.contains(t) by {
        lemma_index_whole(t);
        if fast.contains(t) {
            assert(slide(origin, relevant).contains(t));
            assert(!occupied.contains(t));
            assert forall|u: int| 0 <= u < 81 && passes(origin, t, u) implies !occupied.contains(
                u,
            ) by {
                lemma_index_whole(u);
                if u != t {
                    assert(u != origin);
                    assert(lines(origin).contains(u));
                    assert(inner(origin).contains(u));
                    assert(!relevant.contains(u));
                }
            }
            assert(exact.contains(t));
        }
        if exact.contains(t) {
            assert(passes(origin, t, t));
            assert(!occupied.contains(t));
            assert forall|u: int| 0 <= u < 81 && passes(origin, t, u) implies !relevant.contains(
                u,
            ) by {
                assert(!occupied.contains(u));
            }
            assert(slide(origin, relevant).contains(t));
            assert(fast.contains(t));
        }
    }
    assert(fast =~= exact);
    let on_lines = slide(origin, occupied.intersect(lines(origin)));
    assert forall|t: int| on_lines.contains(t) == exact.contains(t) by {
        lemma_index_whole(t);
        if on_lines.contains(t) {
            assert forall|u: int| 0 <= u < 81 && passes(origin, t, u) implies !occupied.contains(
                u,
            ) by {
                lemma_index_whole(u);
                assert(u != origin);
                assert(lines(origin).contains(u));
                assert(!occupied.intersect(lines(origin)).contains(u));
            }
            assert(exact.contains(t));
        }
        if exact.contains(t) {
            assert forall|u: int| 0 <= u < 81 && passes(origin, t, u) implies !occupied.intersect(
                lines(origin),
            ).contains(u) by {
                assert(!occupied.contains(u));
            }
            assert(on_lines.contains(t));
        }
    }
    assert(on_lines =~= exact);
}

/// The slide from the square in `row` and `col`, told by where each of the
/// four rays stops: a ray stops at the edge of the board or in front of the
/// first blocker.
pub proof fn lemma_slide_by_stops(
    row: int,
    col: int,
    blockers: Set<int>,
    north: int,
    south: int,
    west: int,
    east: int,
)
    requires
        0 <= row < 9,
        0 <= col < 9,
        -1 <= north < row < south <= 9,
        -1 <= west < col < east <= 9,
        north == -1 || blockers.contains(index_of(north, col)),
        south == 9 || blockers.contains(index_of(south, col)),
        west == -1 || blockers.contains(index_of(row, west)),
        east == 9 || blockers.contains(index_of(row, east)),
        forall|r: int|
            north < r < south && r != row ==> !blockers.contains(#[trigger] index_of(r, col)),
        forall|c: int|
            west < c < east && c != col ==> !blockers.contains(#[trigger] index_of(row, c)),
    ensures
        forall|i: int| #[trigger]
            slide(index_of(row, col), blockers).contains(i) <==> 0 <= i < 81 && i != index_of(
                row,
                col,
            ) && ((col_of(i) == col && north < row_of(i) < south) || (row_of(i) == row && west
                < col_of(i) < east)),
{
    let origin = index_of(row, col);
    lemma_index_parts(row, col);
    assert forall|i: int| #[trigger]
        slide(origin, blockers).contains(i) <==> 0 <= i < 81 && i != origin && ((col_of(i) == col
            && north < row_of(i) < south) || (row_of(i) == row && west < col_of(i) < east)) by {
        lemma_index_whole(i);
        if 0 <= i < 81 && i != origin {
            if col_of(i) == col {
                if north < row_of(i) < south {
                    assert forall|u: int| 0 <= u < 81 && passes(origin, i, u) implies 
                        !blockers.contains(u) by {
                        lemma_index_whole(u);
                        assert(u == index_of(row_of(u), col));
                    }
                } else if row_of(i) >= south {
                    lemma_index_parts(south, col);
                    assert(passes(origin, i, index_of(south, col)));
                } else {
                    lemma_index_parts(north, col);
                    assert(passes(origin, i, index_of(north, col)));
                }
            } else if row_of(i) == row {
                if west < col_of(i) < east {
                    assert forall|u: int| 0 <= u < 81 && passes(origin, i, u) implies 
                        !blockers.contains(u) by {
                        lemma_index_whole(u);
                        assert(u == index_of(row, col_of(u)));
                    }
                } else if col_of(i) >= east {
                    lemma_index_parts(row, east);
                    assert(passes(origin, i, index_of(row, east)));
                } else {
                    lemma_index_parts(row, west);
                    assert(passes(origin, i, index_of(row, west)));
                }
            }
        }
    }
}

} // verus!
