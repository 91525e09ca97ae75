//! Pieces and the squares they may go to.

use crate::board::friendly;
use crate::board::Board;
use crate::board::Occupancy;
use crate::geometry::diagonals;
use crate::geometry::file_line;
use crate::geometry::lemma_falling_diagonal;
use crate::geometry::lemma_rising_diagonal;
use crate::geometry::on_board;
use crate::geometry::rank_line;
use crate::geometry::Coordinate;
use crate::piece::bishop::bishop_targets;
use crate::piece::bishop::Bishop;
use crate::piece::distinct::lemma_leaping_targets_distinct;
use crate::piece::distinct::lemma_pawn_targets_distinct;
use crate::piece::distinct::lemma_sliding_targets_distinct;
use crate::piece::filter::lemma_open_to;
use crate::piece::filter::those_on_board;
use crate::piece::king::king_block;
use crate::piece::king::king_targets;
use crate::piece::king::King;
use crate::piece::knight::knight_jumps;
use crate::piece::knight::knight_targets;
use crate::piece::knight::Knight;
use crate::piece::pawn::forward;
use crate::piece::pawn::lemma_pawn_targets;
use crate::piece::pawn::pawn_targets;
use crate::piece::pawn::pawn_targets_toward;
use crate::piece::pawn::Pawn;
use crate::piece::queen::queen_targets;
use crate::piece::queen::Queen;
use crate::piece::rook::rook_targets;
use crate::piece::rook::Rook;
use crate::square::coordinates_of;
use crate::square::squares_of;
use crate::square::Square;
use vstd::prelude::*;
use vstd::std_specs::convert::FromSpecImpl;

pub mod bishop;
pub mod distinct;
pub mod filter;
pub mod king;
pub mod knight;
pub mod pawn;
pub mod queen;
pub mod rook;

verus! {

/// The side a piece plays for.
#[derive(Debug, Clone, Copy, PartialEq, Eq, Structural)]
pub enum Color {
    White,
    Black,
}

/// The kind of a piece.
#[derive(Debug, Clone, Copy, PartialEq, Eq, Structural)]
pub enum PieceType {
    Pawn,
    Knight,
    Bishop,
    Rook,
    Queen,
    King,
}

/// A piece: its side, its kind, and whether it has moved yet.
#[derive(Debug, Clone, Copy, PartialEq, Eq, Structural)]
pub struct Piece {
    pub color: Color,
    pub piece_type: PieceType,
    pub has_moved: bool,
}

impl Piece {
    pub fn new(color: Color, piece_type: PieceType, has_moved: bool) -> (res: Piece)
        ensures
            res == (Piece { color, piece_type, has_moved }),
    {
        Piece { color: color, has_moved: has_moved, piece_type: piece_type }
    }

    pub fn get_color(&self) -> (res: Color)
        ensures
            res == self.color,
    {
        self.color
    }

    pub fn has_moved(&self) -> (res: bool)
        ensures
            res == self.has_moved,
    {
        self.has_moved
    }

    /// Records that the piece has moved. The flag is never cleared again.
    pub fn set_moved(&mut self)
        ensures
            *final(self) == (Piece { has_moved: true, ..*old(self) }),
    {
        self.has_moved = true
    }

    pub fn piece_type(&self) -> (res: PieceType)
        ensures
            res == self.piece_type,
    {
        self.piece_type
    }

    /// Where this piece may go from `from` on a board with the given
    /// occupancy, in the order in which `get_moves` lists the squares.
    pub open spec fn targets(&self, occupancy: Occupancy, from: Coordinate) -> Seq<Coordinate> {
        match self.piece_type {
            PieceType::Pawn => pawn_targets(occupancy, from, self.color, self.has_moved),
            PieceType::Knight => knight_targets(occupancy, from, self.color),
            PieceType::Bishop => bishop_targets(occupancy, from, self.color),
            PieceType::Rook => rook_targets(occupancy, from, self.color),
            PieceType::Queen => queen_targets(occupancy, from, self.color),
            PieceType::King => king_targets(occupancy, from, self.color),
        }
    }

    /// Whatever its kind, a piece on the board goes only to squares of the
    /// board, never stays where it is, and never goes where a piece of its
    /// own side stands.
    pub proof fn lemma_targets_avoid_own_side(&self, occupancy: Occupancy, from: Coordinate)
        requires
            on_board(from),
        ensures
            forall|i: int|
                0 <= i < self.targets(occupancy, from).len() ==> {
                    let c = #[trigger] self.targets(occupancy, from)[i];
                    on_board(c) && c != from && !friendly(occupancy, c, self.color)
                },
    {
        let targets = self.targets(occupancy, from);
        let on = |c: Coordinate| on_board(c);
        match self.piece_type {
            PieceType::Pawn => {
                lemma_pawn_targets(occupancy, from, self.color, self.has_moved, forward(self.color));
                assert forall|i: int| 0 <= i < targets.len() implies (#[trigger] targets[i])
                    != from by {
                    lemma_pawn_rank_changes(occupancy, from, self.color, self.has_moved, i);
                }
            },
            PieceType::Knight => {
                let candidates = those_on_board(knight_jumps(from));
                lemma_open_to(occupancy, candidates, from, self.color);
                assert forall|i: int| 0 <= i < targets.len() implies on_board(
                    #[trigger] targets[i],
                ) by {
                    lemma_on_board_if_kept(knight_jumps(from), targets[i]);
                }
            },
            PieceType::King => {
                let candidates = those_on_board(king_block(from));
                lemma_open_to(occupancy, candidates, from, self.color);
                assert forall|i: int| 0 <= i < targets.len() implies on_board(
                    #[trigger] targets[i],
                ) by {
                    lemma_on_board_if_kept(king_block(from), targets[i]);
                }
            },
            PieceType::Bishop => {
                lemma_open_to(occupancy, diagonals(from), from, self.color);
                assert forall|i: int| 0 <= i < targets.len() implies on_board(
                    #[trigger] targets[i],
                ) by {
                    lemma_lines_on_board(from, targets[i]);
                }
            },
            PieceType::Rook => {
                lemma_open_to(occupancy, file_line(from.0) + rank_line(from.1), from, self.color);
                assert forall|i: int| 0 <= i < targets.len() implies on_board(
                    #[trigger] targets[i],
                ) by {
                    vstd::seq_lib::lemma_seq_concat_contains_all_elements(
                        file_line(from.0),
                        rank_line(from.1),
                        targets[i],
                    );
                    lemma_lines_on_board(from, targets[i]);
                }
            },
            PieceType::Queen => {
                lemma_open_to(
                    occupancy,
                    diagonals(from) + file_line(from.0) + rank_line(from.1),
                    from,
                    self.color,
                );
                assert forall|i: int| 0 <= i < targets.len() implies on_board(
                    #[trigger] targets[i],
                ) by {
                    vstd::seq_lib::lemma_seq_concat_contains_all_elements(
                        diagonals(from) + file_line(from.0),
                        rank_line(from.1),
                        targets[i],
                    );
                    vstd::seq_lib::lemma_seq_concat_contains_all_elements(
                        diagonals(from),
                        file_line(from.0),
                        targets[i],
                    );
                    lemma_lines_on_board(from, targets[i]);
                }
            },
        }
    }

    /// Whatever its kind, a piece on the board goes to no square twice.
    pub proof fn lemma_targets_distinct(&self, occupancy: Occupancy, from: Coordinate)
        requires
            on_board(from),
        ensures
            self.targets(occupancy, from).no_duplicates(),
    {
        lemma_sliding_targets_distinct(occupancy, from, self.color);
        lemma_leaping_targets_distinct(occupancy, from, self.color);
        lemma_pawn_targets_distinct(
            occupancy,
            from,
            self.color,
            self.has_moved,
            forward(self.color),
        );
    }

    /// The squares of `board` that this piece may go to from the coordinate
    /// of `square`. What stands on `square` itself is not read: the piece
    /// moves as if it stood there.
    pub fn get_moves<'a>(&self, board: &'a Board, square: &Square) -> (res: Vec<&'a Square>)
        ensures
            squares_of(res@) == board.squares_at(self.targets(board@, square.coordinate())),
            coordinates_of(res@) == self.targets(board@, square.coordinate()),
            board.holds(res@),
            forall|i: int|
                0 <= i < res@.len() ==> !(#[trigger] res@[i]).piece_matches_color(self.color),
    {
        match self.piece_type {
            PieceType::Pawn => self.get_pawn_moves(board, square),
            PieceType::Knight => self.get_knight_moves(board, square),
            PieceType::Bishop => self.get_bishop_moves(board, square),
            PieceType::Rook => self.get_rook_moves(board, square),
            PieceType::Queen => self.get_queen_moves(board, square),
            PieceType::King => self.get_king_moves(board, square),
        }
    }

    fn get_pawn_moves<'a>(&self, board: &'a Board, square: &Square) -> (res: Vec<&'a Square>)
        ensures
            squares_of(res@) == board.squares_at(
                pawn_targets(board@, square.coordinate(), self.color, self.has_moved),
            ),
            coordinates_of(res@) == pawn_targets(
                board@,
                square.coordinate(),
                self.color,
                self.has_moved,
            ),
            board.holds(res@),
            forall|i: int|
                0 <= i < res@.len() ==> !(#[trigger] res@[i]).piece_matches_color(self.color),
    {
        let moves = match self.color {
            Color::White => self.get_white_pawn_moves(board, square),
            Color::Black => self.get_black_pawn_moves(board, square),
        };
        proof {
            let targets = pawn_targets(board@, square.coordinate(), self.color, self.has_moved);
            board.lemma_held_squares(moves@);
            lemma_pawn_targets(
                board@,
                square.coordinate(),
                self.color,
                self.has_moved,
                forward(self.color),
            );
            assert forall|i: int| 0 <= i < moves@.len() implies !(
            #[trigger] moves@[i]).piece_matches_color(self.color) by {
                assert(coordinates_of(moves@)[i] == targets[i]);
                assert(moves@[i].piece == board@[moves@[i].coordinate()]);
            }
        }
        moves
    }

    fn get_white_pawn_moves<'a>(&self, board: &'a Board, square: &Square) -> (res: Vec<
        &'a Square,
    >)
        ensures
            coordinates_of(res@) == pawn_targets_toward(
                board@,
                square.coordinate(),
                self.color,
                self.has_moved,
                1,
            ),
            board.holds(res@),
    {
        Pawn { color: self.color, has_moved: self.has_moved }.get_white_moves(board, square)
    }

    fn get_black_pawn_moves<'a>(&self, board: &'a Board, square: &Square) -> (res: Vec<
        &'a Square,
    >)
        ensures
            coordinates_of(res@) == pawn_targets_toward(
                board@,
                square.coordinate(),
                self.color,
                self.has_moved,
                -1,
            ),
            board.holds(res@),
    {
        Pawn { color: self.color, has_moved: self.has_moved }.get_black_moves(board, square)
    }

    fn get_knight_moves<'a>(&self, board: &'a Board, square: &Square) -> (res: Vec<&'a Square>)
        ensures
            squares_of(res@) == board.squares_at(
                knight_targets(board@, square.coordinate(), self.color),
            ),
            coordinates_of(res@) == knight_targets(board@, square.coordinate(), self.color),
            board.holds(res@),
            forall|i: int|
                0 <= i < res@.len() ==> !(#[trigger] res@[i]).piece_matches_color(self.color),
    {
        Knight { color: self.color }.get_moves(board, square)
    }

    fn get_bishop_moves<'a>(&self, board: &'a Board, square: &Square) -> (res: Vec<&'a Square>)
        ensures
            squares_of(res@) == board.squares_at(
                bishop_targets(board@, square.coordinate(), self.color),
            ),
            coordinates_of(res@) == bishop_targets(board@, square.coordinate(), self.color),
            board.holds(res@),
            forall|i: int|
                0 <= i < res@.len() ==> !(#[trigger] res@[i]).piece_matches_color(self.color),
    {
        Bishop { color: self.color }.get_moves(board, square)
    }

    fn get_rook_moves<'a>(&self, board: &'a Board, square: &Square) -> (res: Vec<&'a Square>)
        ensures
            squares_of(res@) == board.squares_at(
                rook_targets(board@, square.coordinate(), self.color),
            ),
            coordinates_of(res@) == rook_targets(board@, square.coordinate(), self.color),
            board.holds(res@),
            forall|i: int|
                0 <= i < res@.len() ==> !(#[trigger] res@[i]).piece_matches_color(self.color),
    {
        Rook { color: self.color }.get_moves(board, square)
    }

    fn get_queen_moves<'a>(&self, board: &'a Board, square: &Square) -> (res: Vec<&'a Square>)
        ensures
            squares_of(res@) == board.squares_at(
                queen_targets(board@, square.coordinate(), self.color),
            ),
            coordinates_of(res@) == queen_targets(board@, square.coordinate(), self.color),
            board.holds(res@),
            forall|i: int|
                0 <= i < res@.len() ==> !(#[trigger] res@[i]).piece_matches_color(self.color),
    {
        Queen { color: self.color }.get_moves(board, square)
    }

    fn get_king_moves<'a>(&self, board: &'a Board, square: &Square) -> (res: Vec<&'a Square>)
        ensures
            squares_of(res@) == board.squares_at(
                king_targets(board@, square.coordinate(), self.color),
            ),
            coordinates_of(res@) == king_targets(board@, square.coordinate(), self.color),
            board.holds(res@),
            forall|i: int|
                0 <= i < res@.len() ==> !(#[trigger] res@[i]).piece_matches_color(self.color),
    {
        King { color: self.color }.get_moves(board, square)
    }
}

/// A pawn's move changes its rank.
proof fn lemma_pawn_rank_changes(
    occupancy: Occupancy,
    from: Coordinate,
    color: Color,
    has_moved: bool,
    i: int,
)
    requires
        0 <= i < pawn_targets(occupancy, from, color, has_moved).len(),
    ensures
        pawn_targets(occupancy, from, color, has_moved)[i].1 != from.1,
{
    let direction = forward(color);
    let targets = pawn_targets(occupancy, from, color, has_moved);
    let advances = crate::piece::pawn::pawn_advances(occupancy, from, has_moved, direction);
    let left = crate::piece::pawn::capture_at(
        occupancy,
        crate::piece::pawn::ahead_left(from, direction),
        color,
    );
    let right = crate::piece::pawn::capture_at(
        occupancy,
        crate::piece::pawn::ahead_right(from, direction),
        color,
    );
    assert(targets =~= advances + left + right);
    if i < advances.len() {
        assert(targets[i] == advances[i]);
    } else if i < advances.len() + left.len() {
        assert(targets[i] == left[i - advances.len()]);
    } else {
        assert(targets[i] == right[i - advances.len() - left.len()]);
    }
}

/// What the filter for the board keeps lies on the board.
proof fn lemma_on_board_if_kept(places: Seq<Coordinate>, c: Coordinate)
    requires
        those_on_board(places).contains(c),
    ensures
        on_board(c),
{
    let keep = |c: Coordinate| on_board(c);
    let kept = places.filter(keep);
    let i = choose|i: int| 0 <= i < kept.len() && kept[i] == c;
    places.lemma_filter_pred(keep, i);
}

/// The file, the rank and the diagonals through a square of the board lie
/// on the board.
proof fn lemma_lines_on_board(from: Coordinate, c: Coordinate)
    requires
        on_board(from),
        diagonals(from).contains(c) || file_line(from.0).contains(c) || rank_line(
            from.1,
        ).contains(c),
    ensures
        on_board(c),
{
    lemma_rising_diagonal(from);
    lemma_falling_diagonal(from);
    let rising = crate::geometry::rising_diagonal(from);
    let falling = crate::geometry::falling_diagonal(from);
    if diagonals(from).contains(c) {
        let i = choose|i: int| 0 <= i < diagonals(from).len() && diagonals(from)[i] == c;
        if i < rising.len() {
            assert(diagonals(from)[i] == rising[i]);
        } else {
            assert(diagonals(from)[i] == falling[i - rising.len()]);
        }
    } else if file_line(from.0).contains(c) {
        let i = choose|i: int| 0 <= i < 8 && file_line(from.0)[i] == c;
        assert(file_line(from.0)[i] == c);
    } else {
        let i = choose|i: int| 0 <= i < 8 && rank_line(from.1)[i] == c;
        assert(rank_line(from.1)[i] == c);
    }
}

impl From<Knight> for Piece {
    /// The knight as a piece that has not moved yet.
    fn from(knight: Knight) -> (res: Piece) {
        Piece { color: knight.color, piece_type: PieceType::Knight, has_moved: false }
    }
}

impl FromSpecImpl<Knight> for Piece {
    open spec fn obeys_from_spec() -> bool {
        true
    }

    open spec fn from_spec(knight: Knight) -> Piece {
        Piece { color: knight.color, piece_type: PieceType::Knight, has_moved: false }
    }
}

impl From<Bishop> for Piece {
    /// The bishop as a piece that has not moved yet.
    fn from(bishop: Bishop) -> (res: Piece) {
        Piece { color: bishop.color, piece_type: PieceType::Bishop, has_moved: false }
    }
}

impl FromSpecImpl<Bishop> for Piece {
    open spec fn obeys_from_spec() -> bool {
        true
    }

    open spec fn from_spec(bishop: Bishop) -> Piece {
        Piece { color: bishop.color, piece_type: PieceType::Bishop, has_moved: false }
    }
}

impl From<Rook> for Piece {
    /// The rook as a piece that has not moved yet.
    fn from(rook: Rook) -> (res: Piece) {
        Piece { color: rook.color, piece_type: PieceType::Rook, has_moved: false }
    }
}

impl FromSpecImpl<Rook> for Piece {
    open spec fn obeys_from_spec() -> bool {
        true
    }

    open spec fn from_spec(rook: Rook) -> Piece {
        Piece { color: rook.color, piece_type: PieceType::Rook, has_moved: false }
    }
}

impl From<Queen> for Piece {
    /// The queen as a piece that has not moved yet.
    fn from(queen: Queen) -> (res: Piece) {
        Piece { color: queen.color, piece_type: PieceType::Queen, has_moved: false }
    }
}

impl FromSpecImpl<Queen> for Piece {
    open spec fn obeys_from_spec() -> bool {
        true
    }

    open spec fn from_spec(queen: Queen) -> Piece {
        Piece { color: queen.color, piece_type: PieceType::Queen, has_moved: false }
    }
}

impl From<King> for Piece {
    /// The king as a piece that has not moved yet.
    fn from(king: King) -> (res: Piece) {
        Piece { color: king.color, piece_type: PieceType::King, has_moved: false }
    }
}

impl FromSpecImpl<King> for Piece {
    open spec fn obeys_from_spec() -> bool {
        true
    }

    open spec fn from_spec(king: King) -> Piece {
        Piece { color: king.color, piece_type: PieceType::King, has_moved: false }
    }
}

impl From<Pawn> for Piece {
    /// The pawn as a piece.
    fn from(pawn: Pawn) -> (res: Piece) {
        Piece { color: pawn.color, piece_type: PieceType::Pawn, has_moved: pawn.has_moved }
    }
}

impl FromSpecImpl<Pawn> for Piece {
    open spec fn obeys_from_spec() -> bool {
        true
    }

    open spec fn from_spec(pawn: Pawn) -> Piece {
        Piece { color: pawn.color, piece_type: PieceType::Pawn, has_moved: pawn.has_moved }
    }
}

} // verus!
