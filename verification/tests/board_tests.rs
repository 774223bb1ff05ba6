use chess_core::board::{Board, GameState, MoveError};
use chess_core::pieces::{Piece, PieceType, Side, Square};

fn sq(x: u8, y: u8) -> Square {
    Square::new(x, y)
}

fn boards_equal(a: &Board, b: &Board) -> bool {
    for x in 0..8u8 {
        for y in 0..8u8 {
            if a.get_piece_at_pos(sq(x, y)) != b.get_piece_at_pos(sq(x, y)) {
                return false;
            }
        }
    }
    true
}

#[test]
fn starting_position_layout() {
    let b = Board::new();
    assert_eq!(
        b.get_piece_at_pos(sq(0, 0)),
        Some(Piece { ty: PieceType::Rook, side: Side::Black })
    );
    assert_eq!(
        b.get_piece_at_pos(sq(4, 0)),
        Some(Piece { ty: PieceType::King, side: Side::Black })
    );
    assert_eq!(
        b.get_piece_at_pos(sq(3, 7)),
        Some(Piece { ty: PieceType::Queen, side: Side::White })
    );
    for x in 0..8u8 {
        assert_eq!(
            b.get_piece_at_pos(sq(x, 1)),
            Some(Piece { ty: PieceType::Pawn, side: Side::Black })
        );
        assert_eq!(
            b.get_piece_at_pos(sq(x, 6)),
            Some(Piece { ty: PieceType::Pawn, side: Side::White })
        );
        for y in 2..6u8 {
            assert_eq!(b.get_piece_at_pos(sq(x, y)), None);
        }
    }
    // off the board there is no piece
    assert_eq!(b.get_piece_at_pos(sq(8, 0)), None);
}

#[test]
fn twenty_opening_moves_for_white() {
    let mut b = Board::new();
    b.calculate_valid_moves(Side::White);
    assert_eq!(b.valid_moves.len(), 20);
    for (src, _) in &b.valid_moves {
        let p = b.get_piece_at_pos(*src).expect("source must be occupied");
        assert_eq!(p.side, Side::White);
    }
}

#[test]
fn legal_move_transfers_piece() {
    // the destination holds the moved piece and the source is empty
    let mut b = Board::new();
    let r = b.make_move(sq(4, 6), sq(4, 4), Side::White);
    assert_eq!(r, Ok(GameState::Running));
    assert_eq!(b.get_piece_at_pos(sq(4, 6)), None);
    assert_eq!(
        b.get_piece_at_pos(sq(4, 4)),
        Some(Piece { ty: PieceType::Pawn, side: Side::White })
    );
    // the move cache is stale and therefore cleared
    assert_eq!(b.valid_moves.len(), 0);
}

#[test]
fn capture_removes_opposing_piece() {
    let mut b = Board::empty();
    b.set_piece(sq(0, 0), Some(Piece { ty: PieceType::King, side: Side::Black }));
    b.set_piece(sq(7, 7), Some(Piece { ty: PieceType::King, side: Side::White }));
    b.set_piece(sq(3, 3), Some(Piece { ty: PieceType::Rook, side: Side::White }));
    b.set_piece(sq(3, 5), Some(Piece { ty: PieceType::Pawn, side: Side::Black }));
    let r = b.make_move(sq(3, 3), sq(3, 5), Side::White);
    assert_eq!(r, Ok(GameState::Running));
    assert_eq!(
        b.get_piece_at_pos(sq(3, 5)),
        Some(Piece { ty: PieceType::Rook, side: Side::White })
    );
    assert_eq!(b.get_piece_at_pos(sq(3, 3)), None);
}

#[test]
fn illegal_destination_leaves_board_unchanged() {
    let mut b = Board::new();
    let before = b.clone();
    // a pawn cannot jump three ranks
    let r = b.make_move(sq(4, 6), sq(4, 3), Side::White);
    assert_eq!(r, Err(MoveError::IllegalDestination));
    assert!(boards_equal(&before, &b));
    // the cache is untouched too
    assert_eq!(b.valid_moves.len(), before.valid_moves.len());
}

#[test]
fn empty_source_is_rejected_unchanged() {
    let mut b = Board::new();
    let before = b.clone();
    let r = b.make_move(sq(4, 4), sq(4, 3), Side::White);
    assert_eq!(r, Err(MoveError::NoFriendlyPiece));
    assert!(boards_equal(&before, &b));
}

#[test]
fn moving_opponents_piece_is_rejected() {
    let mut b = Board::new();
    let r = b.make_move(sq(4, 1), sq(4, 3), Side::White);
    assert_eq!(r, Err(MoveError::NoFriendlyPiece));
}

#[test]
fn king_capture_wins() {
    let mut b = Board::empty();
    b.set_piece(sq(0, 0), Some(Piece { ty: PieceType::King, side: Side::Black }));
    b.set_piece(sq(7, 7), Some(Piece { ty: PieceType::King, side: Side::White }));
    b.set_piece(sq(0, 5), Some(Piece { ty: PieceType::Rook, side: Side::White }));
    let r = b.make_move(sq(0, 5), sq(0, 0), Side::White);
    assert_eq!(r, Ok(GameState::Winner(Side::White)));
}

#[test]
fn bare_kings_draw() {
    let mut b = Board::empty();
    b.set_piece(sq(0, 0), Some(Piece { ty: PieceType::King, side: Side::Black }));
    b.set_piece(sq(7, 7), Some(Piece { ty: PieceType::King, side: Side::White }));
    b.set_piece(sq(6, 6), Some(Piece { ty: PieceType::Pawn, side: Side::Black }));
    // the white king captures the last pawn: only kings remain
    let r = b.make_move(sq(7, 7), sq(6, 6), Side::White);
    assert_eq!(r, Ok(GameState::Draw));
}

#[test]
fn sliding_pieces_are_blocked() {
    let mut b = Board::new();
    b.calculate_valid_moves(Side::White);
    // the rook on a1 is walled in
    assert!(!b.valid_moves.iter().any(|(s, _)| *s == sq(0, 7)));
    // the bishop on c1 too
    assert!(!b.valid_moves.iter().any(|(s, _)| *s == sq(2, 7)));
    // the knight on b1 has exactly two destinations
    let knight_moves: Vec<_> = b.valid_moves.iter().filter(|(s, _)| *s == sq(1, 7)).collect();
    assert_eq!(knight_moves.len(), 2);
}

#[test]
fn pawn_rules() {
    let mut b = Board::new();
    // blocked double step: put a black piece in front of the c2 pawn
    b.set_piece(sq(2, 5), Some(Piece { ty: PieceType::Knight, side: Side::Black }));
    let r = b.make_move(sq(2, 6), sq(2, 4), Side::White);
    assert_eq!(r, Err(MoveError::IllegalDestination));
    // the pawn may capture that knight diagonally
    let r2 = b.make_move(sq(1, 6), sq(2, 5), Side::White);
    assert_eq!(r2, Ok(GameState::Running));
    // a pawn may not capture straight ahead
    let mut c = Board::new();
    c.set_piece(sq(3, 5), Some(Piece { ty: PieceType::Rook, side: Side::Black }));
    let r3 = c.make_move(sq(3, 6), sq(3, 5), Side::White);
    assert_eq!(r3, Err(MoveError::IllegalDestination));
}

#[test]
fn evaluation_is_material_balance() {
    let b = Board::new();
    assert_eq!(b.evaluate(Side::White), 0);
    assert_eq!(b.evaluate(Side::Black), 0);
    let mut c = Board::empty();
    c.set_piece(sq(0, 0), Some(Piece { ty: PieceType::King, side: Side::Black }));
    c.set_piece(sq(7, 7), Some(Piece { ty: PieceType::King, side: Side::White }));
    c.set_piece(sq(3, 3), Some(Piece { ty: PieceType::Queen, side: Side::White }));
    c.set_piece(sq(4, 4), Some(Piece { ty: PieceType::Pawn, side: Side::Black }));
    assert_eq!(c.evaluate(Side::White), 900 - 100);
    assert_eq!(c.evaluate(Side::Black), 100 - 900);
}

#[test]
fn evaluation_is_antisymmetric() {
    // evaluate(B, s) == -evaluate(B, !s) on a handful of positions
    let positions = ["rnbqkbnr/pppppppp/8/8/8/8/PPPPPPPP/RNBQKBNR w KQkq - 0 1",
        "8/8/8/3k4/8/2QK4/8/8 w - - 0 1", "r3k3/8/8/8/8/8/8/4K2R b - - 0 1"];
    for fen in positions {
        let (b, _) = Board::from_fen(fen).expect("fixed position must parse");
        assert_eq!(b.evaluate(Side::White), -b.evaluate(Side::Black));
        assert_eq!(b.evaluate(Side::Black), -b.evaluate(Side::White));
    }
}
