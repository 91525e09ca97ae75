//! The geometry of the board as plain mathematics: coordinates, the lines
//! through a coordinate and the two diagonals through it.

use vstd::prelude::*;

verus! {

/// A place given by the number of its file and the number of its rank.
pub type Coordinate = (int, int);

/// Number of files, and of ranks, as a mathematical integer.
pub open spec fn board_size() -> int {
    8
}

/// The coordinate names a square of the board.
pub open spec fn on_board(c: Coordinate) -> bool {
    0 <= c.0 < board_size() && 0 <= c.1 < board_size()
}

/// The smaller of two integers.
pub open spec fn min(a: int, b: int) -> int {
    if a <= b {
        a
    } else {
        b
    }
}

/// The coordinates of a rank, in file order.
pub open spec fn rank_line(rank: int) -> Seq<Coordinate> {
    Seq::new(board_size() as nat, |i: int| (i, rank))
}

/// The coordinates of a file, in rank order.
pub open spec fn file_line(file: int) -> Seq<Coordinate> {
    Seq::new(board_size() as nat, |i: int| (file, i))
}

/// The diagonal through `c` along which file and rank grow together, from
/// its low corner to its high corner.
pub open spec fn rising_diagonal(c: Coordinate) -> Seq<Coordinate> {
    let back = min(c.0, c.1);
    let ahead = min(board_size() - 1 - c.0, board_size() - 1 - c.1);
    Seq::new((back + ahead + 1) as nat, |i: int| (c.0 - back + i, c.1 - back + i))
}

/// The diagonal through `c` along which the rank falls as the file grows,
/// from its upper left end to its lower right end.
pub open spec fn falling_diagonal(c: Coordinate) -> Seq<Coordinate> {
    let back = min(c.0, board_size() - 1 - c.1);
    let ahead = min(board_size() - 1 - c.0, c.1);
    Seq::new((back + ahead + 1) as nat, |i: int| (c.0 - back + i, c.1 + back - i))
}

/// Both diagonals through `c`: the rising one first, then the falling one.
/// `c` itself stands once in each.
pub open spec fn diagonals(c: Coordinate) -> Seq<Coordinate> {
    rising_diagonal(c) + falling_diagonal(c)
}

/// A rank and a file each have eight coordinates, all on the board, and the
/// lines through a coordinate hold it at the place its numbers give.
pub proof fn lemma_lines_hold_source(c: Coordinate)
    requires
        on_board(c),
    ensures
        rank_line(c.1).len() == 8,
        file_line(c.0).len() == 8,
        rank_line(c.1)[c.0] == c,
        file_line(c.0)[c.1] == c,
        forall|i: int| 0 <= i < 8 ==> on_board(#[trigger] rank_line(c.1)[i]),
        forall|i: int| 0 <= i < 8 ==> on_board(#[trigger] file_line(c.0)[i]),
{
}

/// The rising diagonal through a coordinate of the board is the list, by
/// growing file, of the coordinates of the board whose file and rank differ
/// as those of `c` do.
pub proof fn lemma_rising_diagonal(c: Coordinate)
    requires
        on_board(c),
    ensures
        forall|i: int|
            0 <= i < rising_diagonal(c).len() ==> {
                let d = #[trigger] rising_diagonal(c)[i];
                on_board(d) && d.0 - d.1 == c.0 - c.1
            },
        forall|i: int, j: int|
            0 <= i < j < rising_diagonal(c).len() ==> (#[trigger] rising_diagonal(c)[i]).0 < (
            #[trigger] rising_diagonal(c)[j]).0,
        forall|d: Coordinate|
            on_board(d) && d.0 - d.1 == c.0 - c.1 ==> #[trigger] rising_diagonal(c).contains(d),
        rising_diagonal(c)[min(c.0, c.1)] == c,
{
    let back = min(c.0, c.1);
    assert forall|d: Coordinate| on_board(d) && d.0 - d.1 == c.0 - c.1 implies #[trigger]
        rising_diagonal(c).contains(d) by {
        assert(rising_diagonal(c)[d.0 - (c.0 - back)] == d);
    }
}

/// The falling diagonal through a coordinate of the board is the list, by
/// growing file, of the coordinates of the board whose file and rank add up
/// as those of `c` do.
pub proof fn lemma_falling_diagonal(c: Coordinate)
    requires
        on_board(c),
    ensures
        forall|i: int|
            0 <= i < falling_diagonal(c).len() ==> {
                let d = #[trigger] falling_diagonal(c)[i];
                on_board(d) && d.0 + d.1 == c.0 + c.1
            },
        forall|i: int, j: int|
            0 <= i < j < falling_diagonal(c).len() ==> (#[trigger] falling_diagonal(c)[i]).0 < (
            #[trigger] falling_diagonal(c)[j]).0,
        forall|d: Coordinate|
            on_board(d) && d.0 + d.1 == c.0 + c.1 ==> #[trigger] falling_diagonal(c).contains(d),
        falling_diagonal(c)[min(c.0, 7 - c.1)] == c,
{
    let back = min(c.0, board_size() - 1 - c.1);
    assert forall|d: Coordinate| on_board(d) && d.0 + d.1 == c.0 + c.1 implies #[trigger]
        falling_diagonal(c).contains(d) by {
        assert(falling_diagonal(c)[d.0 - (c.0 - back)] == d);
    }
}

/// In a corner one of the two diagonals shrinks to the corner itself: the
/// falling one where file and rank are equal, the rising one in the other
/// two corners. The other diagonal crosses the whole board.
pub proof fn lemma_corner_diagonals(c: Coordinate)
    requires
        c.0 == 0 || c.0 == 7,
        c.1 == 0 || c.1 == 7,
    ensures
        c.0 == c.1 ==> falling_diagonal(c) == seq![c] && rising_diagonal(c).len() == 8,
        c.0 != c.1 ==> rising_diagonal(c) == seq![c] && falling_diagonal(c).len() == 8,
{
    if c.0 == c.1 {
        assert(falling_diagonal(c) =~= seq![c]);
    } else {
        assert(rising_diagonal(c) =~= seq![c]);
    }
}

} // verus!
