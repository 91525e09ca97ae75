//! The knight.

use crate::board::Board;
use crate::board::Occupancy;
use crate::geometry::on_board;
use crate::geometry::Coordinate;
use crate::piece::filter::consider;
use crate::piece::filter::keep_open;
use crate::piece::filter::lemma_filter_one_more;
use crate::piece::filter::lemma_open_squares;
use crate::piece::filter::open_to;
use crate::piece::filter::those_on_board;
use crate::piece::Color;
use crate::square::coordinates_of;
use crate::square::squares_of;
use crate::square::Square;
use vstd::prelude::*;

verus! {

/// The four places that lie `by_file` files and `by_rank` ranks away from
/// `from`, on the board or off it: both to the left, then both to the
/// right, each time the lower one first.
pub open spec fn jumps_by(from: Coordinate, by_file: int, by_rank: int) -> Seq<Coordinate> {
    seq![
        (from.0 - by_file, from.1 - by_rank),
        (from.0 - by_file, from.1 + by_rank),
        (from.0 + by_file, from.1 - by_rank),
        (from.0 + by_file, from.1 + by_rank),
    ]
}

/// The eight places a knight's jump away from `from`, on the board or off
/// it: two files and one rank away first, then one file and two ranks.
pub open spec fn knight_jumps(from: Coordinate) -> Seq<Coordinate> {
    jumps_by(from, 2, 1) + jumps_by(from, 1, 2)
}

/// Where a knight of side `color` at `from` may go: to the squares of the
/// board a knight's jump away that its own side does not hold.
pub open spec fn knight_targets(occupancy: Occupancy, from: Coordinate, color: Color) -> Seq<
    Coordinate,
> {
    open_to(occupancy, those_on_board(knight_jumps(from)), from, color)
}

/// A knight's jump changes the file by one and the rank by two, or the file
/// by two and the rank by one, and every such place is among the jumps.
pub proof fn lemma_knight_jumps(from: Coordinate)
    ensures
        knight_jumps(from).len() == 8,
        knight_jumps(from).no_duplicates(),
        forall|c: Coordinate| #[trigger]
            knight_jumps(from).contains(c) <==> {
                let by_file = if c.0 < from.0 {
                    from.0 - c.0
                } else {
                    c.0 - from.0
                };
                let by_rank = if c.1 < from.1 {
                    from.1 - c.1
                } else {
                    c.1 - from.1
                };
                (by_file == 1 && by_rank == 2) || (by_file == 2 && by_rank == 1)
            },
{
    let jumps = knight_jumps(from);
    assert(jumps =~= seq![
        (from.0 - 2, from.1 - 1),
        (from.0 - 2, from.1 + 1),
        (from.0 + 2, from.1 - 1),
        (from.0 + 2, from.1 + 1),
        (from.0 - 1, from.1 - 2),
        (from.0 - 1, from.1 + 2),
        (from.0 + 1, from.1 - 2),
        (from.0 + 1, from.1 + 2),
    ]);
    assert forall|c: Coordinate| #[trigger]
        jumps.contains(c) <==> {
            let by_file = if c.0 < from.0 {
                from.0 - c.0
            } else {
                c.0 - from.0
            };
            let by_rank = if c.1 < from.1 {
                from.1 - c.1
            } else {
                c.1 - from.1
            };
            (by_file == 1 && by_rank == 2) || (by_file == 2 && by_rank == 1)
        } by {
        if jumps.contains(c) {
            let i = choose|i: int| 0 <= i < jumps.len() && jumps[i] == c;
            assert(jumps[i] == c);
        } else {
            assert(jumps[0] != c);
            assert(jumps[1] != c);
            assert(jumps[2] != c);
            assert(jumps[3] != c);
            assert(jumps[4] != c);
            assert(jumps[5] != c);
            assert(jumps[6] != c);
            assert(jumps[7] != c);
        }
    }
}

/// Adds to `found` the squares of the board that lie `by_file` files and
/// `by_rank` ranks away from `square`.
fn consider_jumps<'a>(
    board: &'a Board,
    square: &Square,
    by_file: u8,
    by_rank: u8,
    found: &mut Vec<&'a Square>,
)
    requires
        board.holds(old(found)@),
    ensures
        board.holds(final(found)@),
        coordinates_of(final(found)@) == coordinates_of(old(found)@) + those_on_board(
            jumps_by(square.coordinate(), by_file as int, by_rank as int),
        ),
{
    let file = square.file.value();
    let rank = square.rank.value();
    let ghost from = square.coordinate();
    let ghost jumps = jumps_by(from, by_file as int, by_rank as int);
    let ghost keep = |c: Coordinate| on_board(c);
    let ghost start = coordinates_of(found@);
    proof {
        lemma_filter_one_more(jumps, keep, 0);
        lemma_filter_one_more(jumps, keep, 1);
        lemma_filter_one_more(jumps, keep, 2);
        lemma_filter_one_more(jumps, keep, 3);
    }
    consider(board, file.checked_sub(by_file), rank.checked_sub(by_rank), found);
    assert(coordinates_of(found@) =~= start + jumps.take(1).filter(keep));
    consider(board, file.checked_sub(by_file), rank.checked_add(by_rank), found);
    assert(coordinates_of(found@) =~= start + jumps.take(2).filter(keep));
    consider(board, file.checked_add(by_file), rank.checked_sub(by_rank), found);
    assert(coordinates_of(found@) =~= start + jumps.take(3).filter(keep));
    consider(board, file.checked_add(by_file), rank.checked_add(by_rank), found);
    assert(coordinates_of(found@) =~= start + jumps.take(4).filter(keep));
}

/// A knight.
#[derive(Debug, Clone, Copy)]
pub struct Knight {
    pub color: Color,
}

impl Knight {
    /// The squares of `board` that this knight may go to from the coordinate
    /// of `square`.
    pub fn get_moves<'a>(&self, board: &'a Board, square: &Square) -> (res: Vec<&'a Square>)
        ensures
            squares_of(res@) == board.squares_at(
                knight_targets(board@, square.coordinate(), self.color),
            ),
            coordinates_of(res@) == knight_targets(board@, square.coordinate(), self.color),
            board.holds(res@),
            forall|i: int|
                0 <= i < res@.len() ==> !(#[trigger] res@[i]).piece_matches_color(self.color),
    {
        let ghost from = square.coordinate();
        let mut candidates: Vec<&'a Square> = Vec::new();
        assert(coordinates_of(candidates@) =~= Seq::<Coordinate>::empty());
        consider_jumps(board, square, 2, 1, &mut candidates);
        consider_jumps(board, square, 1, 2, &mut candidates);
        proof {
            Seq::filter_distributes_over_add(
                jumps_by(from, 2, 1),
                jumps_by(from, 1, 2),
                |c: Coordinate| on_board(c),
            );
            assert(coordinates_of(candidates@) =~= those_on_board(knight_jumps(from)));
        }
        let moves = keep_open(board, &candidates, square, self.color);
        proof {
            lemma_open_squares(
                board,
                moves@,
                those_on_board(knight_jumps(from)),
                from,
                self.color,
            );
        }
        moves
    }

    pub fn get_color(&self) -> (res: Color)
        ensures
            res == self.color,
    {
        return self.color;
    }
}

} // verus!
