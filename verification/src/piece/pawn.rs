//! The pawn.

use crate::board::friendly;
use crate::board::Board;
use crate::board::Occupancy;
use crate::geometry::on_board;
use crate::geometry::Coordinate;
use crate::piece::Color;
use crate::square::coordinates_of;
use crate::square::squares_of;
use crate::square::Square;
use vstd::prelude::*;

verus! {

/// The direction in which the pawns of a side advance: white pawns toward
/// the higher ranks, black pawns toward the lower ones.
pub open spec fn forward(color: Color) -> int {
    match color {
        Color::White => 1,
        Color::Black => -1,
    }
}

/// `c` is a square of the board on which nothing stands.
pub open spec fn vacant(occupancy: Occupancy, c: Coordinate) -> bool {
    on_board(c) && occupancy[c] is None
}

/// `c` is a square of the board on which a piece of the other side stands.
pub open spec fn hostile(occupancy: Occupancy, c: Coordinate, color: Color) -> bool {
    on_board(c) && (occupancy[c] matches Some(piece) && piece.color != color)
}

/// The square one step ahead of `from`.
pub open spec fn one_ahead(from: Coordinate, direction: int) -> Coordinate {
    (from.0, from.1 + direction)
}

/// The square two steps ahead of `from`.
pub open spec fn two_ahead(from: Coordinate, direction: int) -> Coordinate {
    (from.0, from.1 + 2 * direction)
}

/// The square ahead of `from` on the file to the left.
pub open spec fn ahead_left(from: Coordinate, direction: int) -> Coordinate {
    (from.0 - 1, from.1 + direction)
}

/// The square ahead of `from` on the file to the right.
pub open spec fn ahead_right(from: Coordinate, direction: int) -> Coordinate {
    (from.0 + 1, from.1 + direction)
}

/// The steps straight ahead: one step where that square is vacant, and then
/// a second one where the pawn has not moved yet and that square is vacant
/// too.
pub open spec fn pawn_advances(
    occupancy: Occupancy,
    from: Coordinate,
    has_moved: bool,
    direction: int,
) -> Seq<Coordinate> {
    if !vacant(occupancy, one_ahead(from, direction)) {
        seq![]
    } else if !has_moved && vacant(occupancy, two_ahead(from, direction)) {
        seq![one_ahead(from, direction), two_ahead(from, direction)]
    } else {
        seq![one_ahead(from, direction)]
    }
}

/// `c` alone where a piece of the other side stands on it, else nothing.
pub open spec fn capture_at(occupancy: Occupancy, c: Coordinate, color: Color) -> Seq<
    Coordinate,
> {
    if hostile(occupancy, c, color) {
        seq![c]
    } else {
        seq![]
    }
}

/// The captures: ahead to the left, then ahead to the right, each where a
/// piece of the other side stands.
pub open spec fn pawn_captures(
    occupancy: Occupancy,
    from: Coordinate,
    color: Color,
    direction: int,
) -> Seq<Coordinate> {
    capture_at(occupancy, ahead_left(from, direction), color) + capture_at(
        occupancy,
        ahead_right(from, direction),
        color,
    )
}

/// Where a pawn of side `color` at `from` may go when it advances in
/// `direction`: its steps straight ahead, then its captures.
pub open spec fn pawn_targets_toward(
    occupancy: Occupancy,
    from: Coordinate,
    color: Color,
    has_moved: bool,
    direction: int,
) -> Seq<Coordinate> {
    pawn_advances(occupancy, from, has_moved, direction) + pawn_captures(
        occupancy,
        from,
        color,
        direction,
    )
}

/// Where a pawn of side `color` at `from` may go.
pub open spec fn pawn_targets(
    occupancy: Occupancy,
    from: Coordinate,
    color: Color,
    has_moved: bool,
) -> Seq<Coordinate> {
    pawn_targets_toward(occupancy, from, color, has_moved, forward(color))
}

/// A pawn whose square ahead is taken, by either side, does not move
/// straight ahead at all: neither one step nor two, whatever stands beyond.
pub proof fn lemma_blocked_pawn_stays_on_file(
    occupancy: Occupancy,
    from: Coordinate,
    color: Color,
    has_moved: bool,
)
    requires
        occupancy[one_ahead(from, forward(color))] is Some,
    ensures
        pawn_advances(occupancy, from, has_moved, forward(color)) == Seq::<Coordinate>::empty(),
        !pawn_targets(occupancy, from, color, has_moved).contains(
            one_ahead(from, forward(color)),
        ),
        !pawn_targets(occupancy, from, color, has_moved).contains(
            two_ahead(from, forward(color)),
        ),
        forall|i: int|
            0 <= i < pawn_targets(occupancy, from, color, has_moved).len() ==> (
            #[trigger] pawn_targets(occupancy, from, color, has_moved)[i]).0 != from.0,
{
    let targets = pawn_targets(occupancy, from, color, has_moved);
    assert(targets =~= pawn_captures(occupancy, from, color, forward(color)));
    assert forall|i: int| 0 <= i < targets.len() implies (#[trigger] targets[i]).0 != from.0 by {}
}

/// A pawn goes to a square diagonally ahead exactly when a piece of the
/// other side stands there: never when the square is empty, never when its
/// own side holds it.
pub proof fn lemma_pawn_captures_only_enemies(
    occupancy: Occupancy,
    from: Coordinate,
    color: Color,
    has_moved: bool,
)
    ensures
        pawn_targets(occupancy, from, color, has_moved).contains(
            ahead_left(from, forward(color)),
        ) <==> hostile(occupancy, ahead_left(from, forward(color)), color),
        pawn_targets(occupancy, from, color, has_moved).contains(
            ahead_right(from, forward(color)),
        ) <==> hostile(occupancy, ahead_right(from, forward(color)), color),
{
    let direction = forward(color);
    let targets = pawn_targets(occupancy, from, color, has_moved);
    let advances = pawn_advances(occupancy, from, has_moved, direction);
    let left = capture_at(occupancy, ahead_left(from, direction), color);
    let right = capture_at(occupancy, ahead_right(from, direction), color);
    assert(targets =~= advances + left + right);
    assert forall|i: int| 0 <= i < advances.len() implies (#[trigger] advances[i]).0
        == from.0 by {}
    if hostile(occupancy, ahead_left(from, direction), color) {
        assert(targets[advances.len() as int] == ahead_left(from, direction));
    }
    if hostile(occupancy, ahead_right(from, direction), color) {
        assert(targets[(advances.len() + left.len()) as int] == ahead_right(from, direction));
    }
    assert forall|i: int| 0 <= i < targets.len() && (targets[i] == ahead_left(from, direction)
        || targets[i] == ahead_right(from, direction)) implies hostile(
        occupancy,
        #[trigger] targets[i],
        color,
    ) by {
        if i < advances.len() {
            assert(targets[i] == advances[i]);
        }
    }
}

/// A pawn never goes where a piece of its own side stands, and every square
/// it goes to lies on the board.
pub proof fn lemma_pawn_targets(
    occupancy: Occupancy,
    from: Coordinate,
    color: Color,
    has_moved: bool,
    direction: int,
)
    ensures
        forall|i: int|
            0 <= i < pawn_targets_toward(occupancy, from, color, has_moved, direction).len() ==> {
                let c = #[trigger] pawn_targets_toward(
                    occupancy,
                    from,
                    color,
                    has_moved,
                    direction,
                )[i];
                on_board(c) && !friendly(occupancy, c, color)
            },
{
    let targets = pawn_targets_toward(occupancy, from, color, has_moved, direction);
    let advances = pawn_advances(occupancy, from, has_moved, direction);
    let left = capture_at(occupancy, ahead_left(from, direction), color);
    let right = capture_at(occupancy, ahead_right(from, direction), color);
    assert(targets =~= advances + left + right);
    assert forall|i: int| 0 <= i < targets.len() implies {
        let c = #[trigger] targets[i];
        on_board(c) && !friendly(occupancy, c, color)
    } by {
        if i < advances.len() {
            assert(targets[i] == advances[i]);
        } else if i < advances.len() + left.len() {
            assert(targets[i] == left[i - advances.len()]);
        } else {
            assert(targets[i] == right[i - advances.len() - left.len()]);
        }
    }
}

/// A pawn.
#[derive(Debug, Clone, Copy)]
pub struct Pawn {
    pub color: Color,
    pub has_moved: bool,
}

impl Pawn {
    /// The squares that this pawn may go to when it advances toward the
    /// higher ranks, as the white pawns do.
    pub(crate) fn get_white_moves<'a>(&self, board: &'a Board, square: &Square) -> (res: Vec<&'a Square>)
        ensures
            coordinates_of(res@) == pawn_targets_toward(
                board@,
                square.coordinate(),
                self.color,
                self.has_moved,
                1,
            ),
            board.holds(res@),
    {
        let ghost from = square.coordinate();
        let mut res: Vec<&Square> = Vec::new();
        assert(coordinates_of(res@) =~= Seq::<Coordinate>::empty());

        if let Ok(rank_one) = square.rank.next_by(1) {
            // All pawn moves require at least one forward step

            // To move forward, square in front of pawn must be free
            if board.get_square(square.file, rank_one).is_empty() {
                res.push(board.get_square(square.file, rank_one));

                // Check second move forward only if can move one forward
                if !self.has_moved {
                    if let Ok(rank_two) = rank_one.next_by(1) {
                        if board.get_square(square.file, rank_two).is_empty() {
                            res.push(board.get_square(square.file, rank_two));
                        }
                    }
                }
            }
            assert(coordinates_of(res@) =~= pawn_advances(board@, from, self.has_moved, 1));
            let ghost advances = res@;

            // To capture, must have enemy piece diagonal from pawn
            if let Ok(file_left) = square.file.previous_by(1) {
                if !board.get_square(file_left, rank_one).is_empty() && !board.get_square(
                    file_left,
                    rank_one,
                ).piece_matches_color(self.color) {
                    res.push(board.get_square(file_left, rank_one));
                }
            }
            assert(coordinates_of(res@) =~= coordinates_of(advances) + capture_at(
                board@,
                ahead_left(from, 1),
                self.color,
            ));
            let ghost with_left = res@;
            if let Ok(file_right) = square.file.next_by(1) {
                if !board.get_square(file_right, rank_one).is_empty() && !board.get_square(
                    file_right,
                    rank_one,
                ).piece_matches_color(self.color) {
                    res.push(board.get_square(file_right, rank_one));
                }
            }
            assert(coordinates_of(res@) =~= coordinates_of(with_left) + capture_at(
                board@,
                ahead_right(from, 1),
                self.color,
            ));
        }
        assert(coordinates_of(res@) =~= pawn_targets_toward(
            board@,
            from,
            self.color,
            self.has_moved,
            1,
        ));
        res
    }

    /// The squares that this pawn may go to when it advances toward the
    /// lower ranks, as the black pawns do.
    pub(crate) fn get_black_moves<'a>(&self, board: &'a Board, square: &Square) -> (res: Vec<&'a Square>)
        ensures
            coordinates_of(res@) == pawn_targets_toward(
                board@,
                square.coordinate(),
                self.color,
                self.has_moved,
                -1,
            ),
            board.holds(res@),
    {
        let ghost from = square.coordinate();
        let mut res: Vec<&Square> = Vec::new();
        assert(coordinates_of(res@) =~= Seq::<Coordinate>::empty());

        // Forward moves
        if let Ok(rank_one) = square.rank.previous_by(1) {
            // All pawn moves require at least one forward step

            // To move forward, square in front of pawn must be free
            if board.get_square(square.file, rank_one).is_empty() {
                res.push(board.get_square(square.file, rank_one));

                // Check second move forward only if can move one forward
                if !self.has_moved {
                    if let Ok(rank_two) = rank_one.previous_by(1) {
                        if board.get_square(square.file, rank_two).is_empty() {
                            res.push(board.get_square(square.file, rank_two));
                        }
                    }
                }
            }
            assert(coordinates_of(res@) =~= pawn_advances(board@, from, self.has_moved, -1));
            let ghost advances = res@;

            // To capture, must have enemy piece diagonal from pawn
            if let Ok(file_left) = square.file.previous_by(1) {
                if !board.get_square(file_left, rank_one).is_empty() && !board.get_square(
                    file_left,
                    rank_one,
                ).piece_matches_color(self.color) {
                    res.push(board.get_square(file_left, rank_one));
                }
            }
            assert(coordinates_of(res@) =~= coordinates_of(advances) + capture_at(
                board@,
                ahead_left(from, -1),
                self.color,
            ));
            let ghost with_left = res@;
            if let Ok(file_right) = square.file.next_by(1) {
                if !board.get_square(file_right, rank_one).is_empty() && !board.get_square(
                    file_right,
                    rank_one,
                ).piece_matches_color(self.color) {
                    res.push(board.get_square(file_right, rank_one));
                }
            }
            assert(coordinates_of(res@) =~= coordinates_of(with_left) + capture_at(
                board@,
                ahead_right(from, -1),
                self.color,
            ));
        }
        assert(coordinates_of(res@) =~= pawn_targets_toward(
            board@,
            from,
            self.color,
            self.has_moved,
            -1,
        ));
        res
    }

    /// The squares of `board` that this pawn may go to from the coordinate
    /// of `square`.
    pub fn get_moves<'a>(&self, board: &'a Board, square: &Square) -> (res: Vec<&'a Square>)
        ensures
            squares_of(res@) == board.squares_at(
                pawn_targets(board@, square.coordinate(), self.color, self.has_moved),
            ),
            coordinates_of(res@) == pawn_targets(
                board@,
                square.coordinate(),
                self.color,
                self.has_moved,
            ),
            board.holds(res@),
            forall|i: int|
                0 <= i < res@.len() ==> !(#[trigger] res@[i]).piece_matches_color(self.color),
    {
        let moves = match self.color {
            Color::White => self.get_white_moves(board, square),
            Color::Black => self.get_black_moves(board, square),
        };
        proof {
            let targets = pawn_targets(board@, square.coordinate(), self.color, self.has_moved);
            board.lemma_held_squares(moves@);
            lemma_pawn_targets(
                board@,
                square.coordinate(),
                self.color,
                self.has_moved,
                forward(self.color),
            );
            assert forall|i: int| 0 <= i < moves@.len() implies !(
            #[trigger] moves@[i]).piece_matches_color(self.color) by {
                assert(coordinates_of(moves@)[i] == targets[i]);
                assert(moves@[i].piece == board@[moves@[i].coordinate()]);
            }
        }
        moves
    }

    pub fn get_color(&self) -> (res: Color)
        ensures
            res == self.color,
    {
        return self.color;
    }
}

} // verus!
