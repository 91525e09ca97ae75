use chessboard::board::Board;
use chessboard::piece::Color;
use chessboard::piece::Piece;
use chessboard::piece::queen::Queen;
use chessboard::square::Square;

#[test]
fn queen_central_pice_empty_board() {
    let board = Board::build().unwrap();
    let square = Square::build(4,4).unwrap();
    let queen = Queen{color: Color::White};

    let valid_moves = vec!(
        Square::build(0, 4).unwrap(),
        Square::build(1, 4).unwrap(),
        Square::build(2, 4).unwrap(),
        Square::build(3, 4).unwrap(),
        Square::build(5, 4).unwrap(),
        Square::build(6, 4).unwrap(),
        Square::build(7, 4).unwrap(),
        Square::build(4, 0).unwrap(),
        Square::build(4, 1).unwrap(),
        Square::build(4, 2).unwrap(),
        Square::build(4, 3).unwrap(),
        Square::build(4, 5).unwrap(),
        Square::build(4, 6).unwrap(),
        Square::build(4, 7).unwrap(),
        Square::build(0, 0).unwrap(),
        Square::build(1, 1).unwrap(),
        Square::build(2, 2).unwrap(),
        Square::build(3, 3).unwrap(),
        Square::build(5, 5).unwrap(),
        Square::build(6, 6).unwrap(),
        Square::build(7, 7).unwrap(),
        Square::build(1, 7).unwrap(),
        Square::build(2, 6).unwrap(),
        Square::build(3, 5).unwrap(),
        Square::build(5, 3).unwrap(),
        Square::build(6, 2).unwrap(),
        Square::build(7, 1).unwrap(),
    );

    let queen_moves = queen.get_moves(&board, &square);

    assert_eq!(valid_moves.len(), queen_moves.len());

    assert!(
        valid_moves.iter().all(|m| {
            queen_moves.contains(&m)
        })
    );
}

#[test]
fn queen_edge_pice_empty_board() {
    let board = Board::build().unwrap();
    let square = Square::build(0,4).unwrap();
    let queen = Queen{color: Color::White};

    let valid_moves = vec!(
        Square::build(1, 4).unwrap(),
        Square::build(2, 4).unwrap(),
        Square::build(3, 4).unwrap(),
        Square::build(4, 4).unwrap(),
        Square::build(5, 4).unwrap(),
        Square::build(6, 4).unwrap(),
        Square::build(7, 4).unwrap(),
        Square::build(0, 0).unwrap(),
        Square::build(0, 1).unwrap(),
        Square::build(0, 2).unwrap(),
        Square::build(0, 3).unwrap(),
        Square::build(0, 5).unwrap(),
        Square::build(0, 6).unwrap(),
        Square::build(0, 7).unwrap(),
        Square::build(1, 5).unwrap(),
        Square::build(2, 6).unwrap(),
        Square::build(3, 7).unwrap(),
        Square::build(1, 3).unwrap(),
        Square::build(2, 2).unwrap(),
        Square::build(3, 1).unwrap(),
        Square::build(4, 0).unwrap(),
    );

    let queen_moves = queen.get_moves(&board, &square);

    assert_eq!(valid_moves.len(), queen_moves.len());

    assert!(
        valid_moves.iter().all(|m| {
            queen_moves.contains(&m)
        })
    );
}

#[test]
fn queen_corner_pice_empty_board() {
    let board = Board::build().unwrap();
    let square = Square::build(0,0).unwrap();
    let queen = Queen{color: Color::White};

    let valid_moves = vec!(
        Square::build(1, 0).unwrap(),
        Square::build(2, 0).unwrap(),
        Square::build(3, 0).unwrap(),
        Square::build(4, 0).unwrap(),
        Square::build(5, 0).unwrap(),
        Square::build(6, 0).unwrap(),
        Square::build(7, 0).unwrap(),
        Square::build(0, 1).unwrap(),
        Square::build(0, 2).unwrap(),
        Square::build(0, 3).unwrap(),
        Square::build(0, 4).unwrap(),
        Square::build(0, 5).unwrap(),
        Square::build(0, 6).unwrap(),
        Square::build(0, 7).unwrap(),
        Square::build(1, 1).unwrap(),
        Square::build(2, 2).unwrap(),
        Square::build(3, 3).unwrap(),
        Square::build(4, 4).unwrap(),
        Square::build(5, 5).unwrap(),
        Square::build(6, 6).unwrap(),
        Square::build(7, 7).unwrap(),
    );

    let queen_moves = queen.get_moves(&board, &square);

    assert_eq!(valid_moves.len(), queen_moves.len());

    assert!(
        valid_moves.iter().all(|m| {
            queen_moves.contains(&m)
        })
    );
}

#[test]
fn queen_central_pice_near_friendly_piece() {
    let mut board = Board::build().unwrap();
    let color = Color::White;

    let square_bad = Square::build(4, 7).unwrap();
    board.add_piece(Piece::from(Queen{color}), square_bad.file, square_bad.rank);

    let square = Square::build(4,4).unwrap();
    let queen = Queen{color};

    let queen_moves = queen.get_moves(&board, &square);

    assert!(!queen_moves.contains(&&square_bad));
}
