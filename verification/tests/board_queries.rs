use chessboard::board::Board;
use chessboard::board::CastlingState;
use chessboard::file::File;
use chessboard::piece::Color;
use chessboard::piece::Piece;
use chessboard::piece::PieceType;
use chessboard::rank::Rank;
use chessboard::square::Square;

fn coordinates(squares: &[&Square]) -> Vec<(u8, u8)> {
    squares.iter().map(|s| (s.file.value(), s.rank.value())).collect()
}

fn file(v: u8) -> File {
    File::build(v).unwrap()
}

fn rank(v: u8) -> Rank {
    Rank::build(v).unwrap()
}

#[test]
fn get_square_returns_the_square_asked_for() {
    let board = Board::build().unwrap();
    for f in 0..8u8 {
        for r in 0..8u8 {
            let sq = board.get_square(file(f), rank(r));
            assert_eq!(sq.file.value(), f);
            assert_eq!(sq.rank.value(), r);
            assert!(sq.is_empty());
        }
    }
}

#[test]
fn build_and_build_empty_agree() {
    let a = Board::build().unwrap();
    let b = Board::build_empty().unwrap();
    for f in 0..8u8 {
        for r in 0..8u8 {
            assert!(a.get_square(file(f), rank(r)).piece.is_none());
            assert!(b.get_square(file(f), rank(r)).piece.is_none());
        }
    }
}

#[test]
fn get_rank_lists_eight_squares_in_file_order() {
    let board = Board::build().unwrap();
    for r in 0..8u8 {
        let squares = board.get_rank(rank(r));
        let expected: Vec<(u8, u8)> = (0..8u8).map(|f| (f, r)).collect();
        assert_eq!(coordinates(&squares), expected);
    }
}

#[test]
fn get_file_lists_eight_squares_in_rank_order() {
    let board = Board::build().unwrap();
    for f in 0..8u8 {
        let squares = board.get_file(file(f));
        let expected: Vec<(u8, u8)> = (0..8u8).map(|r| (f, r)).collect();
        assert_eq!(coordinates(&squares), expected);
    }
}

#[test]
fn rank_and_file_hold_the_source_square() {
    let board = Board::build().unwrap();
    for f in 0..8u8 {
        for r in 0..8u8 {
            let source = Square::build(f, r).unwrap();
            let along_rank = board.get_rank(source.rank);
            let along_file = board.get_file(source.file);
            assert_eq!(along_rank.len(), 8);
            assert_eq!(along_file.len(), 8);
            assert!(along_rank.contains(&&source));
            assert!(along_file.contains(&&source));
        }
    }
}

#[test]
fn diagonals_from_the_center_rising_first_then_falling() {
    let board = Board::build().unwrap();
    let source = Square::build(4, 4).unwrap();
    assert_eq!(
        coordinates(&board.get_diagonals(&source)),
        vec![
            (0, 0), (1, 1), (2, 2), (3, 3), (4, 4), (5, 5), (6, 6), (7, 7),
            (1, 7), (2, 6), (3, 5), (4, 4), (5, 3), (6, 2), (7, 1),
        ]
    );
}

#[test]
fn diagonals_off_the_center() {
    let board = Board::build().unwrap();
    let source = Square::build(2, 5).unwrap();
    assert_eq!(
        coordinates(&board.get_diagonals(&source)),
        vec![
            (0, 3), (1, 4), (2, 5), (3, 6), (4, 7),
            (0, 7), (1, 6), (2, 5), (3, 4), (4, 3), (5, 2), (6, 1), (7, 0),
        ]
    );
}

#[test]
fn diagonals_in_the_corners_shrink_on_one_side() {
    let board = Board::build().unwrap();
    let long_up: Vec<(u8, u8)> = (0..8u8).map(|i| (i, i)).collect();
    let long_down: Vec<(u8, u8)> = (0..8u8).map(|i| (i, 7 - i)).collect();

    let mut expected = long_up.clone();
    expected.push((0, 0));
    assert_eq!(coordinates(&board.get_diagonals(&Square::build(0, 0).unwrap())), expected);

    let mut expected = long_up.clone();
    expected.push((7, 7));
    assert_eq!(coordinates(&board.get_diagonals(&Square::build(7, 7).unwrap())), expected);

    let mut expected = vec![(0, 7)];
    expected.extend(long_down.iter());
    assert_eq!(coordinates(&board.get_diagonals(&Square::build(0, 7).unwrap())), expected);

    let mut expected = vec![(7, 0)];
    expected.extend(long_down.iter());
    assert_eq!(coordinates(&board.get_diagonals(&Square::build(7, 0).unwrap())), expected);
}

#[test]
fn diagonals_hold_the_source_once_in_each() {
    let board = Board::build().unwrap();
    for f in 0..8u8 {
        for r in 0..8u8 {
            let source = Square::build(f, r).unwrap();
            let squares = board.get_diagonals(&source);
            let hits = squares.iter().filter(|s| ***s == source).count();
            assert_eq!(hits, 2);
            let up = 8 - (f as i32 - r as i32).abs();
            let down = 8 - (f as i32 + r as i32 - 7).abs();
            assert_eq!(squares.len() as i32, up + down);
        }
    }
}

#[test]
fn add_piece_puts_the_piece_on_its_square_only() {
    let mut board = Board::build().unwrap();
    let piece = Piece::new(Color::Black, PieceType::Queen, false);
    board.add_piece(piece, file(3), rank(7));
    for f in 0..8u8 {
        for r in 0..8u8 {
            let sq = board.get_square(file(f), rank(r));
            if (f, r) == (3, 7) {
                assert_eq!(sq.piece, Some(piece));
                assert!(!sq.is_empty());
                assert!(sq.piece_matches_color(Color::Black));
                assert!(!sq.piece_matches_color(Color::White));
            } else {
                assert!(sq.is_empty());
                assert!(!sq.piece_matches_color(Color::Black));
            }
        }
    }
}

#[test]
fn move_piece_carries_the_piece_over() {
    let mut board = Board::build().unwrap();
    let piece = Piece::new(Color::White, PieceType::Rook, false);
    board.add_piece(piece, file(0), rank(0));
    board.move_piece(&Square::build(0, 0).unwrap(), &Square::build(0, 5).unwrap());
    assert!(board.get_square(file(0), rank(0)).is_empty());
    assert_eq!(board.get_square(file(0), rank(5)).piece, Some(piece));
}

#[test]
fn move_piece_captures_what_stands_on_the_destination() {
    let mut board = Board::build().unwrap();
    let mover = Piece::new(Color::White, PieceType::Bishop, true);
    let victim = Piece::new(Color::Black, PieceType::Knight, false);
    board.add_piece(mover, file(2), rank(2));
    board.add_piece(victim, file(5), rank(5));
    board.move_piece(&Square::build(2, 2).unwrap(), &Square::build(5, 5).unwrap());
    assert!(board.get_square(file(2), rank(2)).is_empty());
    assert_eq!(board.get_square(file(5), rank(5)).piece, Some(mover));
}

#[test]
fn move_piece_from_an_empty_square_changes_nothing() {
    let mut board = Board::build().unwrap();
    let bystander = Piece::new(Color::Black, PieceType::Pawn, false);
    board.add_piece(bystander, file(6), rank(6));
    board.move_piece(&Square::build(1, 1).unwrap(), &Square::build(6, 6).unwrap());
    assert!(board.get_square(file(1), rank(1)).is_empty());
    assert_eq!(board.get_square(file(6), rank(6)).piece, Some(bystander));
}

#[test]
fn move_piece_reads_the_board_not_the_squares_handed_in() {
    let mut board = Board::build().unwrap();
    let mut source = Square::build(1, 1).unwrap();
    source.piece = Some(Piece::new(Color::White, PieceType::King, false));
    board.move_piece(&source, &Square::build(2, 2).unwrap());
    assert!(board.get_square(file(2), rank(2)).is_empty());
}

#[test]
fn move_piece_onto_its_own_square_empties_it() {
    let mut board = Board::build().unwrap();
    board.add_piece(Piece::new(Color::White, PieceType::King, false), file(4), rank(0));
    let here = Square::build(4, 0).unwrap();
    board.move_piece(&here, &here);
    assert!(board.get_square(file(4), rank(0)).is_empty());
}

#[test]
fn castling_rights_start_intact() {
    let state = CastlingState::new();
    assert!(state.has_kingside_castling_rights());
    assert!(state.has_queenside_castling_rights());
    let board = Board::build().unwrap();
    for color in [Color::White, Color::Black] {
        assert!(board.castling_rights(color).has_kingside_castling_rights());
        assert!(board.castling_rights(color).has_queenside_castling_rights());
        assert_eq!(*board.castling_rights(color), state);
    }
}

#[test]
fn a_rook_move_costs_the_right_on_its_side() {
    let mut state = CastlingState::new();
    state.mark_kingside_rook_moved();
    assert!(!state.has_kingside_castling_rights());
    assert!(state.has_queenside_castling_rights());
    state.mark_queenside_rook_moved();
    assert!(!state.has_kingside_castling_rights());
    assert!(!state.has_queenside_castling_rights());

    let mut state = CastlingState::new();
    state.mark_queenside_rook_moved();
    assert!(state.has_kingside_castling_rights());
    assert!(!state.has_queenside_castling_rights());
    state.mark_queenside_rook_moved();
    assert!(state.has_kingside_castling_rights());
    assert!(!state.has_queenside_castling_rights());
}

#[test]
fn a_king_move_costs_both_rights() {
    let mut state = CastlingState::new();
    state.mark_king_moved();
    assert!(!state.has_kingside_castling_rights());
    assert!(!state.has_queenside_castling_rights());
}

#[test]
fn the_board_keeps_the_rights_of_each_side_apart() {
    let mut board = Board::build().unwrap();
    board.mark_king_moved(Color::White);
    assert!(!board.castling_rights(Color::White).has_kingside_castling_rights());
    assert!(!board.castling_rights(Color::White).has_queenside_castling_rights());
    assert!(board.castling_rights(Color::Black).has_kingside_castling_rights());
    assert!(board.castling_rights(Color::Black).has_queenside_castling_rights());
    board.mark_kingside_rook_moved(Color::Black);
    assert!(!board.castling_rights(Color::Black).has_kingside_castling_rights());
    assert!(board.castling_rights(Color::Black).has_queenside_castling_rights());
    board.mark_queenside_rook_moved(Color::Black);
    assert!(!board.castling_rights(Color::Black).has_queenside_castling_rights());
}

#[test]
fn moving_a_piece_leaves_the_rights_alone() {
    let mut board = Board::build().unwrap();
    board.add_piece(Piece::new(Color::White, PieceType::King, false), file(4), rank(0));
    board.move_piece(&Square::build(4, 0).unwrap(), &Square::build(4, 1).unwrap());
    assert!(board.castling_rights(Color::White).has_kingside_castling_rights());
    assert_eq!(
        board.get_square(file(4), rank(1)).piece,
        Some(Piece::new(Color::White, PieceType::King, false))
    );
}

#[test]
fn squares_are_equal_by_coordinate_alone() {
    let mut a = Square::build(3, 3).unwrap();
    let b = Square::build(3, 3).unwrap();
    a.piece = Some(Piece::new(Color::White, PieceType::Pawn, false));
    assert!(a == b);
    assert!(a != Square::build(3, 4).unwrap());
    assert!(a != Square::build(4, 3).unwrap());
}

#[test]
fn a_piece_remembers_that_it_moved() {
    let mut piece = Piece::new(Color::Black, PieceType::Pawn, false);
    assert_eq!(piece.get_color(), Color::Black);
    assert!(matches!(piece.piece_type(), PieceType::Pawn));
    assert!(!piece.has_moved());
    piece.set_moved();
    assert!(piece.has_moved());
    piece.set_moved();
    assert!(piece.has_moved());
    assert_eq!(piece, Piece { color: Color::Black, piece_type: PieceType::Pawn, has_moved: true });
}
