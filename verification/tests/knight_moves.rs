use chessboard::board::Board;
use chessboard::piece::Color;
use chessboard::piece::knight::Knight;
use chessboard::square::Square;

#[test]
fn knight_central_square_empty_board() {
    let board = Board::build().unwrap();
    let square = Square::build(4,4).unwrap();
    let knight = Knight{color: Color::White};

    let valid_moves = vec!(
        Square::build(3, 6).unwrap(),
        Square::build(5, 6).unwrap(),
        Square::build(6, 5).unwrap(),
        Square::build(6, 3).unwrap(),
        Square::build(5, 2).unwrap(),
        Square::build(3, 2).unwrap(),
        Square::build(2, 3).unwrap(),
        Square::build(2, 5).unwrap()
    );

    let knight_moves = knight.get_moves(&board, &square);

    assert!(valid_moves.len() == knight_moves.len());

    assert!(
        valid_moves.iter().all(|m| {
            knight_moves.contains(&m)
        })
    );
}

#[test]
fn knight_edge_square_empty_board() {
    let board = Board::build().unwrap();
    let square = Square::build(0,4).unwrap();
    let knight = Knight{color: Color::White};

    let valid_moves = vec!(
        Square::build(1, 6).unwrap(),
        Square::build(2, 5).unwrap(),
        Square::build(2, 3).unwrap(),
        Square::build(1, 2).unwrap(),
    );

    let knight_moves = knight.get_moves(&board, &square);

    assert!(valid_moves.len() == knight_moves.len());

    assert!(
        valid_moves.iter().all(|m| {
            knight_moves.contains(&m)
        })
    );
}

#[test]
fn knight_corner_square_empty_board() {
    let board = Board::build().unwrap();
    let square = Square::build(0,0).unwrap();
    let knight = Knight{color: Color::White};

    let valid_moves = vec!(
        Square::build(1, 2).unwrap(),
        Square::build(2, 1).unwrap(),
    );

    let knight_moves = knight.get_moves(&board, &square);

    assert!(valid_moves.len() == knight_moves.len());

    assert!(
        valid_moves.iter().all(|m| {
            knight_moves.contains(&m)
        })
    );
}
