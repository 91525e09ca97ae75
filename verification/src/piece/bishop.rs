//! The bishop.

use crate::board::Board;
use crate::board::Occupancy;
use crate::geometry::diagonals;
use crate::geometry::Coordinate;
use crate::piece::filter::keep_open;
use crate::piece::filter::lemma_open_squares;
use crate::piece::filter::open_to;
use crate::piece::Color;
use crate::square::coordinates_of;
use crate::square::squares_of;
use crate::square::Square;
use vstd::prelude::*;

verus! {

/// Where a bishop of side `color` at `from` may go: along the rising
/// diagonal, then along the falling one, to every square but its own and
/// those of its own side. Pieces in between do not stop it.
pub open spec fn bishop_targets(occupancy: Occupancy, from: Coordinate, color: Color) -> Seq<
    Coordinate,
> {
    open_to(occupancy, diagonals(from), from, color)
}

/// A bishop.
#[derive(Debug, Clone, Copy)]
pub struct Bishop {
    pub color: Color,
}

impl Bishop {
    /// The squares of `board` that this bishop may go to from the coordinate
    /// of `square`.
    pub fn get_moves<'a>(&self, board: &'a Board, square: &Square) -> (res: Vec<&'a Square>)
        ensures
            squares_of(res@) == board.squares_at(
                bishop_targets(board@, square.coordinate(), self.color),
            ),
            coordinates_of(res@) == bishop_targets(board@, square.coordinate(), self.color),
            board.holds(res@),
            forall|i: int|
                0 <= i < res@.len() ==> !(#[trigger] res@[i]).piece_matches_color(self.color),
    {
        let candidates = board.get_diagonals(square);
        let moves = keep_open(board, &candidates, square, self.color);
        proof {
            lemma_open_squares(
                board,
                moves@,
                diagonals(square.coordinate()),
                square.coordinate(),
                self.color,
            );
        }
        moves
    }

    pub fn get_color(&self) -> (res: Color)
        ensures
            res == self.color,
    {
        return self.color;
    }
}

} // verus!
