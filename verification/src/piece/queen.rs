//! The queen.

use crate::board::Board;
use crate::board::Occupancy;
use crate::geometry::diagonals;
use crate::geometry::file_line;
use crate::geometry::rank_line;
use crate::geometry::Coordinate;
use crate::piece::filter::keep_open;
use crate::piece::filter::lemma_open_squares;
use crate::piece::filter::open_to;
use crate::piece::Color;
use crate::square::coordinates_of;
use crate::square::squares_of;
use crate::square::Square;
use vstd::prelude::*;

verus! {

/// Where a queen of side `color` at `from` may go: along both diagonals,
/// then along its file, then along its rank, to every square but its own
/// and those of its own side. Pieces in between do not stop it.
pub open spec fn queen_targets(occupancy: Occupancy, from: Coordinate, color: Color) -> Seq<
    Coordinate,
> {
    open_to(occupancy, diagonals(from) + file_line(from.0) + rank_line(from.1), from, color)
}

/// A queen.
#[derive(Debug, Clone, Copy)]
pub struct Queen {
    pub color: Color,
}

impl Queen {
    /// The squares of `board` that this queen may go to from the coordinate
    /// of `square`.
    pub fn get_moves<'a>(&self, board: &'a Board, square: &Square) -> (res: Vec<&'a Square>)
        ensures
            squares_of(res@) == board.squares_at(
                queen_targets(board@, square.coordinate(), self.color),
            ),
            coordinates_of(res@) == queen_targets(board@, square.coordinate(), self.color),
            board.holds(res@),
            forall|i: int|
                0 <= i < res@.len() ==> !(#[trigger] res@[i]).piece_matches_color(self.color),
    {
        let mut candidates = board.get_diagonals(square);
        let mut along_file = board.get_file(square.file);
        let mut along_rank = board.get_rank(square.rank);
        let ghost diagonal_refs = candidates@;
        let ghost file_refs = along_file@;
        let ghost rank_refs = along_rank@;
        candidates.append(&mut along_file);
        candidates.append(&mut along_rank);
        assert(coordinates_of(candidates@) =~= coordinates_of(diagonal_refs) + coordinates_of(
            file_refs,
        ) + coordinates_of(rank_refs));
        let moves = keep_open(board, &candidates, square, self.color);
        proof {
            lemma_open_squares(
                board,
                moves@,
                diagonals(square.coordinate()) + file_line(square.file@) + rank_line(square.rank@),
                square.coordinate(),
                self.color,
            );
        }
        moves
    }

    pub fn get_color(&self) -> (res: Color)
        ensures
            res == self.color,
    {
        return self.color;
    }
}

} // verus!
