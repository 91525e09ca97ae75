//! The rook.

use crate::board::Board;
use crate::board::Occupancy;
use crate::geometry::file_line;
use crate::geometry::rank_line;
use crate::geometry::Coordinate;
use crate::piece::filter::keep_open;
use crate::piece::filter::lemma_open_squares;
use crate::piece::filter::open_to;
use crate::piece::Color;
use crate::square::coordinates_of;
use crate::square::squares_of;
use crate::square::Square;
use vstd::prelude::*;

verus! {

/// Where a rook of side `color` at `from` may go: along its file, then along
/// its rank, to every square but its own and those of its own side. Pieces
/// in between do not stop it.
pub open spec fn rook_targets(occupancy: Occupancy, from: Coordinate, color: Color) -> Seq<
    Coordinate,
> {
    open_to(occupancy, file_line(from.0) + rank_line(from.1), from, color)
}

/// A rook.
#[derive(Debug, Clone, Copy)]
pub struct Rook {
    pub color: Color,
}

impl Rook {
    /// The squares of `board` that this rook may go to from the coordinate of
    /// `square`.
    pub fn get_moves<'a>(&self, board: &'a Board, square: &Square) -> (res: Vec<&'a Square>)
        ensures
            squares_of(res@) == board.squares_at(
                rook_targets(board@, square.coordinate(), self.color),
            ),
            coordinates_of(res@) == rook_targets(board@, square.coordinate(), self.color),
            board.holds(res@),
            forall|i: int| 0 <= i < res@.len() ==> !(#[trigger] res@[i]).piece_matches_color(self.color),
    {
        let mut candidates = board.get_file(square.file);
        let mut along_rank = board.get_rank(square.rank);
        let ghost file_refs = candidates@;
        let ghost rank_refs = along_rank@;
        candidates.append(&mut along_rank);
        assert(coordinates_of(candidates@) =~= coordinates_of(file_refs) + coordinates_of(
            rank_refs,
        ));
        let moves = keep_open(board, &candidates, square, self.color);
        proof {
            lemma_open_squares(
                board,
                moves@,
                file_line(square.file@) + rank_line(square.rank@),
                square.coordinate(),
                self.color,
            );
        }
        moves
    }

    pub fn get_color(&self) -> (res: Color)
        ensures
            res == self.color,
    {
        return self.color;
    }
}

} // verus!
