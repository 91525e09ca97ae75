//! Squares: a coordinate of the board and what stands on it.

use crate::file::File;
use crate::geometry::Coordinate;
use crate::piece::Color;
use crate::piece::Piece;
use crate::rank::Rank;
use vstd::prelude::*;
use vstd::std_specs::cmp::PartialEqSpecImpl;

verus! {

/// A square of the board with the piece on it, if any.
#[derive(Debug, Clone, Copy)]
pub struct Square {
    pub file: File,
    pub rank: Rank,
    pub piece: Option<Piece>,
}

/// The squares that a list of references points at.
pub open spec fn squares_of(refs: Seq<&Square>) -> Seq<Square> {
    refs.map_values(|s: &Square| *s)
}

/// The coordinates of a list of squares.
pub open spec fn coordinates_of(refs: Seq<&Square>) -> Seq<Coordinate> {
    refs.map_values(|s: &Square| s.coordinate())
}

impl Square {
    /// Where the square lies.
    pub open spec fn coordinate(&self) -> Coordinate {
        (self.file@, self.rank@)
    }

    pub open spec fn spec_is_empty(&self) -> bool {
        self.piece is None
    }

    pub open spec fn spec_piece_matches_color(&self, color: Color) -> bool {
        self.piece matches Some(piece) && piece.color == color
    }

    /// The empty square at (`file`, `rank`). The rank is looked at first, so
    /// where both numbers are off the board the error names the rank.
    pub fn build(file: u8, rank: u8) -> (res: Result<Square, &'static str>)
        ensures
            file < 8 && rank < 8 ==> res is Ok && res->Ok_0.coordinate() == (file as int, rank as int)
                && res->Ok_0.piece is None,
            rank >= 8 ==> res is Err && res->Err_0@ == "Rank outside allowable bounds"@,
            rank < 8 && file >= 8 ==> res is Err && res->Err_0@
                == "File outside allowable bounds"@,
    {
        let rank = Rank::build(rank)?;
        let file = File::build(file)?;
        let piece: Option<Piece> = None;
        Ok(Square { file, rank, piece })
    }

    pub fn rank(&self) -> (res: Rank)
        ensures
            res == self.rank,
    {
        self.rank
    }

    pub fn file(&self) -> (res: File)
        ensures
            res == self.file,
    {
        self.file
    }

    /// No piece stands on the square.
    #[verifier::when_used_as_spec(spec_is_empty)]
    pub fn is_empty(&self) -> (res: bool)
        ensures
            res == self.spec_is_empty(),
    {
        self.piece.is_none()
    }

    /// A piece of the given side stands on the square.
    #[verifier::when_used_as_spec(spec_piece_matches_color)]
    pub fn piece_matches_color(&self, color: Color) -> (res: bool)
        ensures
            res == self.spec_piece_matches_color(color),
    {
        match &self.piece {
            Some(piece) => piece.get_color() == color,
            None => false,
        }
    }
}

impl PartialEq for Square {
    /// Two squares are equal when they lie at the same coordinate, whatever
    /// stands on them.
    fn eq(&self, other: &Square) -> (res: bool) {
        self.rank.value() == other.rank.value() && self.file.value() == other.file.value()
    }
}

impl PartialEqSpecImpl for Square {
    open spec fn obeys_eq_spec() -> bool {
        true
    }

    open spec fn eq_spec(&self, other: &Square) -> bool {
        self.coordinate() == other.coordinate()
    }
}

} // verus!
