//! The board: sixty-four squares, each at its own coordinate, and the
//! castling rights of the two sides.

use crate::file::File;
use crate::file::MAX_NUMBER_OF_FILES;
use crate::geometry::diagonals;
use crate::geometry::falling_diagonal;
use crate::geometry::file_line;
use crate::geometry::lemma_falling_diagonal;
use crate::geometry::lemma_rising_diagonal;
use crate::geometry::min;
use crate::geometry::on_board;
use crate::geometry::rank_line;
use crate::geometry::rising_diagonal;
use crate::geometry::Coordinate;
use crate::piece::Color;
use crate::piece::Piece;
use crate::rank::Rank;
use crate::rank::MAX_NUMBER_OF_RANKS;
use crate::square::coordinates_of;
use crate::square::squares_of;
use crate::square::Square;
use vstd::prelude::*;

verus! {

/// What stands at each coordinate of the board.
pub type Occupancy = Map<Coordinate, Option<Piece>>;

/// A piece of side `color` stands at `c`.
pub open spec fn friendly(occupancy: Occupancy, c: Coordinate, color: Color) -> bool {
    occupancy[c] matches Some(piece) && piece.color == color
}

/// What one side has lost of its right to castle: which of its king and its
/// two rooks have moved. A flag that is set stays set.
#[derive(Debug, Clone, Copy, PartialEq, Eq, Structural)]
pub struct CastlingState {
    king_has_moved: bool,
    queenside_rook_has_moved: bool,
    kingside_rook_has_moved: bool,
}

impl CastlingState {
    /// The king has moved.
    pub closed spec fn king_moved(&self) -> bool {
        self.king_has_moved
    }

    /// The rook on the queen's side has moved.
    pub closed spec fn queenside_rook_moved(&self) -> bool {
        self.queenside_rook_has_moved
    }

    /// The rook on the king's side has moved.
    pub closed spec fn kingside_rook_moved(&self) -> bool {
        self.kingside_rook_has_moved
    }

    /// The three flags determine the state.
    pub proof fn lemma_flags_determine_state(a: CastlingState, b: CastlingState)
        requires
            a.king_moved() == b.king_moved(),
            a.queenside_rook_moved() == b.queenside_rook_moved(),
            a.kingside_rook_moved() == b.kingside_rook_moved(),
        ensures
            a == b,
    {
    }

    /// The state at the start of a game: nothing has moved.
    pub fn new() -> (res: CastlingState)
        ensures
            !res.king_moved(),
            !res.queenside_rook_moved(),
            !res.kingside_rook_moved(),
    {
        CastlingState {
            king_has_moved: false,
            queenside_rook_has_moved: false,
            kingside_rook_has_moved: false,
        }
    }

    /// Records that the king has moved.
    pub fn mark_king_moved(&mut self)
        ensures
            final(self).king_moved(),
            final(self).queenside_rook_moved() == old(self).queenside_rook_moved(),
            final(self).kingside_rook_moved() == old(self).kingside_rook_moved(),
    {
        self.king_has_moved = true;
    }

    /// Records that the rook on the queen's side has moved.
    pub fn mark_queenside_rook_moved(&mut self)
        ensures
            final(self).queenside_rook_moved(),
            final(self).king_moved() == old(self).king_moved(),
            final(self).kingside_rook_moved() == old(self).kingside_rook_moved(),
    {
        self.queenside_rook_has_moved = true;
    }

    /// Records that the rook on the king's side has moved.
    pub fn mark_kingside_rook_moved(&mut self)
        ensures
            final(self).kingside_rook_moved(),
            final(self).king_moved() == old(self).king_moved(),
            final(self).queenside_rook_moved() == old(self).queenside_rook_moved(),
    {
        self.kingside_rook_has_moved = true;
    }

    /// Neither the king nor the rook on the king's side has moved.
    pub fn has_kingside_castling_rights(&self) -> (res: bool)
        ensures
            res == (!self.king_moved() && !self.kingside_rook_moved()),
    {
        !self.king_has_moved && !self.kingside_rook_has_moved
    }

    /// Neither the king nor the rook on the queen's side has moved.
    pub fn has_queenside_castling_rights(&self) -> (res: bool)
        ensures
            res == (!self.king_moved() && !self.queenside_rook_moved()),
    {
        !self.king_has_moved && !self.queenside_rook_has_moved
    }
}

/// The board. Its view says what stands at each of the sixty-four
/// coordinates.
pub struct Board {
    squares: [[Square; 8]; 8],
    white_castling_rights: CastlingState,
    black_castling_rights: CastlingState,
}

impl View for Board {
    type V = Occupancy;

    open spec fn view(&self) -> Occupancy {
        Map::new(|c: Coordinate| on_board(c), |c: Coordinate| self.square_at(c).piece)
    }
}

impl Board {
    /// The square that the board holds for the coordinate `c`.
    pub closed spec fn square_at(&self, c: Coordinate) -> Square {
        self.squares[c.0][c.1]
    }

    /// The squares that the board holds for a list of coordinates.
    pub open spec fn squares_at(&self, cs: Seq<Coordinate>) -> Seq<Square> {
        cs.map_values(|c: Coordinate| self.square_at(c))
    }

    /// The castling rights of one side.
    pub closed spec fn rights(&self, color: Color) -> CastlingState {
        match color {
            Color::White => self.white_castling_rights,
            Color::Black => self.black_castling_rights,
        }
    }

    /// The invariant of the type: each square lies where the board holds it.
    #[verifier::type_invariant]
    pub open spec fn wf(&self) -> bool {
        forall|c: Coordinate| on_board(c) ==> (#[trigger] self.square_at(c)).coordinate() == c
    }

    /// The invariant, said of the grid itself.
    proof fn lemma_grid(&self)
        requires
            self.wf(),
        ensures
            forall|f: int, r: int|
                0 <= f < 8 && 0 <= r < 8 ==> (#[trigger] self.squares[f][r]).coordinate() == (f, r),
    {
        assert forall|f: int, r: int| 0 <= f < 8 && 0 <= r < 8 implies (
        #[trigger] self.squares[f][r]).coordinate() == (f, r) by {
            assert(self.square_at((f, r)).coordinate() == (f, r));
        }
    }

    /// `refs` are squares of this board, each the one that the board holds
    /// for its own coordinate.
    pub open spec fn holds(&self, refs: Seq<&Square>) -> bool {
        forall|i: int|
            0 <= i < refs.len() ==> on_board((#[trigger] refs[i]).coordinate()) && *refs[i]
                == self.square_at(refs[i].coordinate())
    }

    /// A list of squares of the board is known by its coordinates.
    pub proof fn lemma_held_squares(&self, refs: Seq<&Square>)
        requires
            self.holds(refs),
        ensures
            squares_of(refs) == self.squares_at(coordinates_of(refs)),
    {
        assert(squares_of(refs) =~= self.squares_at(coordinates_of(refs)));
    }

    /// On two boards with the same view the same squares are found.
    pub proof fn lemma_view_determines_squares(&self, other: &Board, c: Coordinate)
        requires
            self.wf(),
            other.wf(),
            self@ == other@,
            on_board(c),
        ensures
            self.square_at(c) == other.square_at(c),
    {
        let a = self.square_at(c);
        let b = other.square_at(c);
        assert(self@[c] == a.piece);
        assert(other@[c] == b.piece);
        File::lemma_number_determines_file(a.file, b.file);
        Rank::lemma_number_determines_rank(a.rank, b.rank);
    }

    /// A board with all sixty-four squares empty and all castling rights
    /// intact.
    pub fn build() -> (res: Result<Board, &'static str>)
        ensures
            res is Ok,
            forall|c: Coordinate| on_board(c) ==> (#[trigger] res->Ok_0@[c]) is None,
            res->Ok_0.rights(Color::White) == res->Ok_0.rights(Color::Black),
            !res->Ok_0.rights(Color::White).king_moved(),
            !res->Ok_0.rights(Color::White).queenside_rook_moved(),
            !res->Ok_0.rights(Color::White).kingside_rook_moved(),
    {
        let corner = Square::build(0, 0)?;
        let mut squares = [[corner; 8]; 8];
        let mut file: u8 = 0;
        while file < 8
            invariant
                file <= 8,
                forall|f: int, r: int|
                    0 <= f < file && 0 <= r < 8 ==> (#[trigger] squares[f][r]).coordinate() == (
                        f,
                        r,
                    ) && squares[f][r].piece is None,
            decreases 8 - file,
        {
            let mut rank: u8 = 0;
            while rank < 8
                invariant
                    file < 8,
                    rank <= 8,
                    forall|f: int, r: int|
                        0 <= f < file && 0 <= r < 8 ==> (#[trigger] squares[f][r]).coordinate()
                            == (f, r) && squares[f][r].piece is None,
                    forall|r: int|
                        0 <= r < rank ==> (#[trigger] squares[file as int][r]).coordinate() == (
                            file as int,
                            r,
                        ) && squares[file as int][r].piece is None,
                decreases 8 - rank,
            {
                squares[file as usize][rank as usize] = Square::build(file, rank)?;
                rank += 1;
            }
            file += 1;
        }
        Ok(
            Board {
                squares: squares,
                white_castling_rights: CastlingState::new(),
                black_castling_rights: CastlingState::new(),
            },
        )
    }

    /// An empty board: the same as `build`.
    pub fn build_empty() -> (res: Result<Board, &'static str>)
        ensures
            res is Ok,
            forall|c: Coordinate| on_board(c) ==> (#[trigger] res->Ok_0@[c]) is None,
            res->Ok_0.rights(Color::White) == res->Ok_0.rights(Color::Black),
            !res->Ok_0.rights(Color::White).king_moved(),
            !res->Ok_0.rights(Color::White).queenside_rook_moved(),
            !res->Ok_0.rights(Color::White).kingside_rook_moved(),
    {
        Board::build()
    }

    /// The square at (`file`, `rank`).
    pub fn get_square(&self, file: File, rank: Rank) -> (res: &Square)
        ensures
            *res == self.square_at((file@, rank@)),
            res.file == file,
            res.rank == rank,
            res.piece == self@[(file@, rank@)],
            on_board((file@, rank@)),
    {
        proof {
            use_type_invariant(self);
            use_type_invariant(file);
            use_type_invariant(rank);
            let held = self.square_at((file@, rank@));
            assert(on_board((file@, rank@)));
            File::lemma_number_determines_file(held.file, file);
            Rank::lemma_number_determines_rank(held.rank, rank);
        }
        let file = usize::from(file.value());
        let rank = usize::from(rank.value());
        &self.squares[file][rank]
    }

    /// The eight squares of a rank, in file order.
    pub fn get_rank(&self, rank: Rank) -> (res: Vec<&Square>)
        ensures
            squares_of(res@) == self.squares_at(rank_line(rank@)),
            coordinates_of(res@) == rank_line(rank@),
            res@.len() == 8,
            self.holds(res@),
    {
        let mut squares: Vec<&Square> = Vec::new();
        let mut file: u8 = 0;
        while file < MAX_NUMBER_OF_FILES
            invariant
                file <= MAX_NUMBER_OF_FILES,
                squares@.len() == file,
                forall|i: int|
                    0 <= i < file ==> *(#[trigger] squares@[i]) == self.square_at((i, rank@)),
            decreases MAX_NUMBER_OF_FILES - file,
        {
            squares.push(self.get_square(File::new(file), rank));
            file += 1;
        }
        proof {
            use_type_invariant(self);
            use_type_invariant(rank);
            assert(squares_of(squares@) =~= self.squares_at(rank_line(rank@)));
            assert forall|i: int| 0 <= i < 8 implies (#[trigger] squares@[i]).coordinate() == (
                i,
                rank@,
            ) by {
                assert(on_board((i, rank@)));
            }
            assert(coordinates_of(squares@) =~= rank_line(rank@));
            assert forall|i: int| 0 <= i < squares@.len() implies on_board(
                (#[trigger] squares@[i]).coordinate(),
            ) && *squares@[i] == self.square_at(squares@[i].coordinate()) by {
                assert(on_board((i, rank@)));
            }
        }
        squares
    }

    /// The eight squares of a file, in rank order.
    pub fn get_file(&self, file: File) -> (res: Vec<&Square>)
        ensures
            squares_of(res@) == self.squares_at(file_line(file@)),
            coordinates_of(res@) == file_line(file@),
            res@.len() == 8,
            self.holds(res@),
    {
        let mut squares: Vec<&Square> = Vec::new();
        let mut rank: u8 = 0;
        while rank < MAX_NUMBER_OF_RANKS
            invariant
                rank <= MAX_NUMBER_OF_RANKS,
                squares@.len() == rank,
                forall|i: int|
                    0 <= i < rank ==> *(#[trigger] squares@[i]) == self.square_at((file@, i)),
            decreases MAX_NUMBER_OF_RANKS - rank,
        {
            squares.push(self.get_square(file, Rank::new(rank)));
            rank += 1;
        }
        proof {
            use_type_invariant(self);
            use_type_invariant(file);
            assert(squares_of(squares@) =~= self.squares_at(file_line(file@)));
            assert forall|i: int| 0 <= i < 8 implies (#[trigger] squares@[i]).coordinate() == (
                file@,
                i,
            ) by {
                assert(on_board((file@, i)));
            }
            assert(coordinates_of(squares@) =~= file_line(file@));
            assert forall|i: int| 0 <= i < squares@.len() implies on_board(
                (#[trigger] squares@[i]).coordinate(),
            ) && *squares@[i] == self.square_at(squares@[i].coordinate()) by {
                assert(on_board((file@, i)));
            }
        }
        squares
    }

    /// The squares of both diagonals through `square`: the rising diagonal
    /// from its low corner to its high corner, then the falling diagonal
    /// from its upper left end to its lower right end. The square at the
    /// coordinate of `square` stands once in each of the two.
    pub fn get_diagonals(&self, square: &Square) -> (res: Vec<&Square>)
        ensures
            squares_of(res@) == self.squares_at(diagonals(square.coordinate())),
            coordinates_of(res@) == diagonals(square.coordinate()),
            self.holds(res@),
    {
        // Distance is the number of steps to the edge square.
        let distance_to_left = square.file.value();
        let distance_to_floor = square.rank.value();
        let distance_to_right = MAX_NUMBER_OF_FILES - square.file.value() - 1;
        let distance_to_ceiling = MAX_NUMBER_OF_RANKS - square.rank.value() - 1;
        let ghost source = square.coordinate();
        proof {
            use_type_invariant(self);
        }

        let rising_left = min_steps(distance_to_left, distance_to_floor);
        let rising_right = min_steps(distance_to_right, distance_to_ceiling);
        let falling_left = min_steps(distance_to_left, distance_to_ceiling);
        let falling_right = min_steps(distance_to_right, distance_to_floor);

        let mut squares: Vec<&Square> = Vec::new();
        let mut step: u8 = 0;
        while step <= rising_left + rising_right
            invariant
                self.wf(),
                source == (distance_to_left as int, distance_to_floor as int),
                distance_to_left + distance_to_right == 7,
                distance_to_floor + distance_to_ceiling == 7,
                rising_left == min(distance_to_left as int, distance_to_floor as int),
                rising_right == min(distance_to_right as int, distance_to_ceiling as int),
                step <= rising_left + rising_right + 1,
                squares@.len() == step,
                forall|i: int|
                    0 <= i < step ==> *(#[trigger] squares@[i]) == self.square_at(
                        rising_diagonal(source)[i],
                    ),
            decreases rising_left + rising_right + 1 - step,
        {
            let file = File::new(distance_to_left - rising_left + step);
            let rank = Rank::new(distance_to_floor - rising_left + step);
            squares.push(self.get_square(file, rank));
            step += 1;
        }
        let ghost rising = squares@;
        assert(squares_of(rising) =~= self.squares_at(rising_diagonal(source)));

        let mut step: u8 = 0;
        while step <= falling_left + falling_right
            invariant
                self.wf(),
                source == (distance_to_left as int, distance_to_floor as int),
                distance_to_left + distance_to_right == 7,
                distance_to_floor + distance_to_ceiling == 7,
                falling_left == min(distance_to_left as int, distance_to_ceiling as int),
                falling_right == min(distance_to_right as int, distance_to_floor as int),
                step <= falling_left + falling_right + 1,
                squares@.len() == rising.len() + step,
                squares@.take(rising.len() as int) == rising,
                forall|i: int|
                    0 <= i < step ==> *(#[trigger] squares@[rising.len() + i]) == self.square_at(
                        falling_diagonal(source)[i],
                    ),
            decreases falling_left + falling_right + 1 - step,
        {
            let ghost before = squares@;
            let file = File::new(distance_to_left - falling_left + step);
            let rank = Rank::new(distance_to_floor + falling_left - step);
            squares.push(self.get_square(file, rank));
            assert(squares@.take(rising.len() as int) =~= before.take(rising.len() as int));
            step += 1;
        }
        proof {
            let falling = squares@.skip(rising.len() as int);
            assert(squares@ =~= rising + falling);
            assert forall|i: int| 0 <= i < falling.len() implies *(#[trigger] falling[i])
                == self.square_at(falling_diagonal(source)[i]) by {
                assert(falling[i] == squares@[rising.len() + i]);
            }
            assert(squares_of(falling) =~= self.squares_at(falling_diagonal(source)));
            assert(squares_of(squares@) =~= squares_of(rising) + squares_of(falling));
            assert(self.squares_at(diagonals(source)) =~= self.squares_at(rising_diagonal(source))
                + self.squares_at(falling_diagonal(source)));
            lemma_rising_diagonal(source);
            lemma_falling_diagonal(source);
            assert forall|i: int| 0 <= i < squares@.len() implies on_board(
                (#[trigger] squares@[i]).coordinate(),
            ) && *squares@[i] == self.square_at(squares@[i].coordinate()) by {
                if i < rising.len() {
                    assert(squares@[i] == rising[i]);
                    assert(*rising[i] == squares_of(rising)[i]);
                    assert(on_board(rising_diagonal(source)[i]));
                } else {
                    assert(squares@[i] == falling[i - rising.len()]);
                    assert(on_board(falling_diagonal(source)[i - rising.len()]));
                }
            }
            assert forall|i: int| 0 <= i < squares@.len() implies (
            #[trigger] squares@[i]).coordinate() == diagonals(source)[i] by {
                if i < rising.len() {
                    assert(squares@[i] == rising[i]);
                    assert(*rising[i] == squares_of(rising)[i]);
                    assert(on_board(rising_diagonal(source)[i]));
                } else {
                    assert(squares@[i] == falling[i - rising.len()]);
                    assert(on_board(falling_diagonal(source)[i - rising.len()]));
                }
            }
            assert(coordinates_of(squares@) =~= diagonals(source));
        }
        squares
    }

    /// Puts `piece` on the square at (`file`, `rank`), which must be empty.
    pub fn add_piece(&mut self, piece: Piece, file: File, rank: Rank)
        requires
            old(self)@[(file@, rank@)] is None,
        ensures
            final(self)@ == old(self)@.insert((file@, rank@), Some(piece)),
            final(self).rights(Color::White) == old(self).rights(Color::White),
            final(self).rights(Color::Black) == old(self).rights(Color::Black),
    {
        proof {
            use_type_invariant(&*self);
            self.lemma_grid();
        }
        let f = usize::from(file.value());
        let r = usize::from(rank.value());
        self.squares[f][r].piece = Some(piece);
        proof {
            assert(final(self)@ =~= old(self)@.insert((file@, rank@), Some(piece)));
        }
    }

    /// Moves the piece that stands at the coordinate of `source`, if any, to
    /// the coordinate of `destination`, where it replaces what stood there,
    /// and leaves the source empty. With no piece at the source nothing
    /// changes. Only the coordinates of the two squares are read.
    pub fn move_piece(&mut self, source: &Square, destination: &Square)
        ensures
            old(self)@[source.coordinate()] is Some ==> final(self)@ == old(self)@.insert(
                destination.coordinate(),
                old(self)@[source.coordinate()],
            ).insert(source.coordinate(), None),
            old(self)@[source.coordinate()] is None ==> final(self)@ == old(self)@,
            final(self).rights(Color::White) == old(self).rights(Color::White),
            final(self).rights(Color::Black) == old(self).rights(Color::Black),
    {
        proof {
            use_type_invariant(&*self);
            self.lemma_grid();
        }
        let sf = usize::from(source.file.value());
        let sr = usize::from(source.rank.value());
        let df = usize::from(destination.file.value());
        let dr = usize::from(destination.rank.value());
        let moved = self.squares[sf][sr].piece;
        if moved.is_some() {
            self.squares[df][dr].piece = moved;
            self.squares[sf][sr].piece = None;
            proof {
                assert(final(self)@ =~= old(self)@.insert(
                    destination.coordinate(),
                    old(self)@[source.coordinate()],
                ).insert(source.coordinate(), None));
            }
        }
    }

    /// The castling rights of one side.
    pub fn castling_rights(&self, color: Color) -> (res: &CastlingState)
        ensures
            *res == self.rights(color),
    {
        match color {
            Color::White => &self.white_castling_rights,
            Color::Black => &self.black_castling_rights,
        }
    }

    /// Records that the king of one side has moved.
    pub fn mark_king_moved(&mut self, color: Color)
        ensures
            final(self).rights(color).king_moved(),
            final(self).rights(color).queenside_rook_moved() == old(self).rights(
                color,
            ).queenside_rook_moved(),
            final(self).rights(color).kingside_rook_moved() == old(self).rights(
                color,
            ).kingside_rook_moved(),
            forall|other: Color|
                other != color ==> final(self).rights(other) == old(self).rights(other),
            final(self)@ == old(self)@,
    {
        let mut state = *self.castling_rights(color);
        state.mark_king_moved();
        self.put_castling_rights(color, state);
    }

    /// Records that the rook of one side on the queen's side has moved.
    pub fn mark_queenside_rook_moved(&mut self, color: Color)
        ensures
            final(self).rights(color).queenside_rook_moved(),
            final(self).rights(color).king_moved() == old(self).rights(color).king_moved(),
            final(self).rights(color).kingside_rook_moved() == old(self).rights(
                color,
            ).kingside_rook_moved(),
            forall|other: Color|
                other != color ==> final(self).rights(other) == old(self).rights(other),
            final(self)@ == old(self)@,
    {
        let mut state = *self.castling_rights(color);
        state.mark_queenside_rook_moved();
        self.put_castling_rights(color, state);
    }

    /// Records that the rook of one side on the king's side has moved.
    pub fn mark_kingside_rook_moved(&mut self, color: Color)
        ensures
            final(self).rights(color).kingside_rook_moved(),
            final(self).rights(color).king_moved() == old(self).rights(color).king_moved(),
            final(self).rights(color).queenside_rook_moved() == old(self).rights(
                color,
            ).queenside_rook_moved(),
            forall|other: Color|
                other != color ==> final(self).rights(other) == old(self).rights(other),
            final(self)@ == old(self)@,
    {
        let mut state = *self.castling_rights(color);
        state.mark_kingside_rook_moved();
        self.put_castling_rights(color, state);
    }

    fn put_castling_rights(&mut self, color: Color, state: CastlingState)
        ensures
            final(self).rights(color) == state,
            forall|other: Color|
                other != color ==> final(self).rights(other) == old(self).rights(other),
            final(self)@ == old(self)@,
    {
        proof {
            use_type_invariant(&*self);
            self.lemma_grid();
        }
        match color {
            Color::White => {
                self.white_castling_rights = state;
            },
            Color::Black => {
                self.black_castling_rights = state;
            },
        }
        proof {
            assert(final(self)@ =~= old(self)@);
        }
    }
}

/// The smaller of two step counts.
fn min_steps(a: u8, b: u8) -> (res: u8)
    ensures
        res == min(a as int, b as int),
{
    if a <= b {
        a
    } else {
        b
    }
}

} // verus!
