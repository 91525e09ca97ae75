//! The king.

use crate::board::Board;
use crate::board::Occupancy;
use crate::geometry::Coordinate;
use crate::piece::filter::consider;
use crate::piece::filter::keep_open;
use crate::piece::filter::lemma_filter_one_more;
use crate::piece::filter::lemma_open_squares;
use crate::piece::filter::open_to;
use crate::piece::filter::those_on_board;
use crate::piece::Color;
use crate::geometry::on_board;
use crate::square::coordinates_of;
use crate::square::squares_of;
use crate::square::Square;
use vstd::prelude::*;

verus! {

/// The nine places of the three by three block around `from`, on the board
/// or off it, rank by rank from the lowest, each rank from the left. `from`
/// itself is the fifth.
pub open spec fn king_block(from: Coordinate) -> Seq<Coordinate> {
    Seq::new(9, |k: int| (from.0 - 1 + k % 3, from.1 - 1 + k / 3))
}

/// Where a king of side `color` at `from` may go: to the squares of the
/// board next to its own that its own side does not hold.
pub open spec fn king_targets(occupancy: Occupancy, from: Coordinate, color: Color) -> Seq<
    Coordinate,
> {
    open_to(occupancy, those_on_board(king_block(from)), from, color)
}

/// The block around a place holds just the places at most one file and at
/// most one rank away, each once.
pub proof fn lemma_king_block(from: Coordinate)
    ensures
        king_block(from).len() == 9,
        king_block(from).no_duplicates(),
        king_block(from)[4] == from,
        forall|c: Coordinate| #[trigger]
            king_block(from).contains(c) <==> from.0 - 1 <= c.0 <= from.0 + 1 && from.1 - 1 <= c.1
                <= from.1 + 1,
{
    let block = king_block(from);
    assert forall|c: Coordinate| #[trigger]
        block.contains(c) <==> from.0 - 1 <= c.0 <= from.0 + 1 && from.1 - 1 <= c.1 <= from.1
            + 1 by {
        if block.contains(c) {
            let i = choose|i: int| 0 <= i < block.len() && block[i] == c;
            assert(block[i] == c);
        }
        if from.0 - 1 <= c.0 <= from.0 + 1 && from.1 - 1 <= c.1 <= from.1 + 1 {
            let k = 3 * (c.1 - from.1 + 1) + (c.0 - from.0 + 1);
            assert(block[k] == c);
        }
    }
}

/// A king.
#[derive(Debug, Clone, Copy)]
pub struct King {
    pub color: Color,
}

impl King {
    /// The squares of `board` that this king may go to from the coordinate
    /// of `square`.
    pub fn get_moves<'a>(&self, board: &'a Board, square: &Square) -> (res: Vec<&'a Square>)
        ensures
            squares_of(res@) == board.squares_at(
                king_targets(board@, square.coordinate(), self.color),
            ),
            coordinates_of(res@) == king_targets(board@, square.coordinate(), self.color),
            board.holds(res@),
            forall|i: int|
                0 <= i < res@.len() ==> !(#[trigger] res@[i]).piece_matches_color(self.color),
    {
        let rank_val = square.rank().value();
        let file_val = square.file().value();
        let ghost from = square.coordinate();
        let ghost block = king_block(from);
        let ghost keep = |c: Coordinate| on_board(c);

        let mut candidates: Vec<&'a Square> = Vec::new();
        let mut rank = rank_val.saturating_sub(1);
        proof {
            lemma_filter_one_more(block, keep, 0);
            lemma_filter_one_more(block, keep, 1);
            lemma_filter_one_more(block, keep, 2);
            assert(coordinates_of(candidates@) =~= Seq::<Coordinate>::empty());
        }
        while rank <= rank_val + 1
            invariant
                from == (file_val as int, rank_val as int),
                file_val < 8,
                rank_val < 8,
                block == king_block(from),
                keep == (|c: Coordinate| on_board(c)),
                rank_val - 1 <= rank <= rank_val + 2,
                board.holds(candidates@),
                coordinates_of(candidates@) == block.take(3 * (rank - rank_val + 1)).filter(keep),
            decreases rank_val + 2 - rank,
        {
            let ghost row = 3 * (rank - rank_val + 1);
            let mut file = file_val.saturating_sub(1);
            proof {
                lemma_filter_one_more(block, keep, row);
            }
            while file <= file_val + 1
                invariant
                    from == (file_val as int, rank_val as int),
                    file_val < 8,
                    rank_val < 8,
                    block == king_block(from),
                    keep == (|c: Coordinate| on_board(c)),
                    rank_val - 1 <= rank <= rank_val + 1,
                    row == 3 * (rank - rank_val + 1),
                    file_val - 1 <= file <= file_val + 2,
                    board.holds(candidates@),
                    coordinates_of(candidates@) == block.take(row + (file - file_val + 1)).filter(
                        keep,
                    ),
                decreases file_val + 2 - file,
            {
                proof {
                    let k = row + (file - file_val + 1);
                    lemma_filter_one_more(block, keep, k);
                    assert(block[k] == (file as int, rank as int));
                }
                consider(board, Some(file), Some(rank), &mut candidates);
                file += 1;
            }
            rank += 1;
        }
        proof {
            assert(block.take(9) =~= block);
        }
        let moves = keep_open(board, &candidates, square, self.color);
        proof {
            lemma_open_squares(board, moves@, those_on_board(block), from, self.color);
        }
        moves
    }

    pub fn get_color(&self) -> (res: Color)
        ensures
            res == self.color,
    {
        return self.color;
    }
}

} // verus!
