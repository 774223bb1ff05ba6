use chess_core::board::{Board, GameState};
use chess_core::pieces::{Piece, PieceType, Side, Square};
use chess_core::search::{compute_best_move, SCORE_MAX, SCORE_MIN};

fn sq(x: u8, y: u8) -> Square {
    Square::new(x, y)
}

fn grids_equal(a: &Board, b: &Board) -> bool {
    for x in 0..8u8 {
        for y in 0..8u8 {
            if a.get_piece_at_pos(sq(x, y)) != b.get_piece_at_pos(sq(x, y)) {
                return false;
            }
        }
    }
    true
}

#[test]
fn depth_zero_picks_best_immediate_evaluation() {
    // a white rook can capture a black pawn; the capture is the best
    // single-ply gain and must be chosen with exactly that evaluation
    let mut b = Board::empty();
    b.set_piece(sq(0, 0), Some(Piece { ty: PieceType::King, side: Side::Black }));
    b.set_piece(sq(7, 7), Some(Piece { ty: PieceType::King, side: Side::White }));
    b.set_piece(sq(3, 3), Some(Piece { ty: PieceType::Rook, side: Side::White }));
    b.set_piece(sq(3, 5), Some(Piece { ty: PieceType::Pawn, side: Side::Black }));
    b.calculate_valid_moves(Side::White);
    let ((src, dst), score) = compute_best_move(&b, 0, Side::White, true);
    assert_eq!((src, dst), (sq(3, 3), sq(3, 5)));
    assert_eq!(score, 500);
}

#[test]
fn depth_zero_ties_break_to_first_enumerated() {
    // from the start every move leaves the material balance at zero, so
    // the first enumerated candidate wins: the a2 pawn (cell index 6),
    // and its lowest-indexed destination a4 before a3
    let mut b = Board::new();
    b.calculate_valid_moves(Side::White);
    let ((src, dst), score) = compute_best_move(&b, 0, Side::White, true);
    assert_eq!(src, sq(0, 6));
    assert_eq!(dst, sq(0, 4));
    assert_eq!(score, 0);
}

#[test]
fn opening_depth_one_keeps_material_even() {
    // starting position, depth 1, White: no opening move gains material,
    // so the chosen move scores zero — as good as any single-ply gain
    let mut b = Board::new();
    b.calculate_valid_moves(Side::White);
    let ((src, dst), score) = compute_best_move(&b, 1, Side::White, true);
    assert_eq!(score, 0);
    // and it must be an actually legal move
    assert!(b.valid_moves.contains(&(src, dst)));
}

#[test]
fn immediate_king_capture_scores_max() {
    // White can take the black king: chosen at any depth, at maximum score
    let mut b = Board::empty();
    b.set_piece(sq(3, 3), Some(Piece { ty: PieceType::Queen, side: Side::White }));
    b.set_piece(sq(3, 1), Some(Piece { ty: PieceType::King, side: Side::Black }));
    b.set_piece(sq(7, 7), Some(Piece { ty: PieceType::King, side: Side::White }));
    for depth in 0..3usize {
        let mut c = b.clone();
        c.calculate_valid_moves(Side::White);
        let ((src, dst), score) = compute_best_move(&c, depth, Side::White, true);
        assert_eq!((src, dst), (sq(3, 3), sq(3, 1)));
        assert_eq!(score, SCORE_MAX);
    }
}

#[test]
fn search_never_mutates_the_given_board() {
    // every candidate is explored on a clone; the original is untouched
    let mut b = Board::new();
    b.calculate_valid_moves(Side::White);
    let before = b.clone();
    let _ = compute_best_move(&b, 2, Side::White, true);
    assert!(grids_equal(&before, &b));
    assert_eq!(before.valid_moves, b.valid_moves);
}

#[test]
fn no_moves_returns_sentinel() {
    // the side to move has no pieces at all: the sentinel comes back
    let mut b = Board::empty();
    b.set_piece(sq(0, 0), Some(Piece { ty: PieceType::King, side: Side::Black }));
    b.calculate_valid_moves(Side::White);
    let ((src, dst), score) = compute_best_move(&b, 3, Side::White, true);
    assert_eq!((src, dst), (sq(0, 0), sq(0, 0)));
    assert_eq!(score, SCORE_MIN);
}

#[test]
fn draw_is_as_bad_as_losing() {
    // the white king may capture the last black pawn, but the resulting
    // bare-kings draw scores SCORE_MIN, worse than staying a pawn down
    let mut b = Board::empty();
    b.set_piece(sq(0, 0), Some(Piece { ty: PieceType::King, side: Side::Black }));
    b.set_piece(sq(7, 7), Some(Piece { ty: PieceType::King, side: Side::White }));
    b.set_piece(sq(6, 6), Some(Piece { ty: PieceType::Pawn, side: Side::Black }));
    b.calculate_valid_moves(Side::White);
    let ((src, dst), score) = compute_best_move(&b, 0, Side::White, true);
    assert_eq!(score, -100);
    assert!(!(src == sq(7, 7) && dst == sq(6, 6)));
}

#[test]
fn deeper_search_sees_a_hanging_piece() {
    // a white queen stands where a black rook can take it; at depth 1
    // White sees the threat: moving the queen to safety or taking the
    // rook must score no worse than losing the queen
    let (mut b, _) = Board::from_fen("8/8/8/3r4/8/3Q4/8/K6k w - - 0 1").expect("parse");
    b.calculate_valid_moves(Side::White);
    let ((src, dst), score) = compute_best_move(&b, 1, Side::White, true);
    // the queen takes the rook: up a rook, and out of danger
    assert_eq!((src, dst), (sq(3, 5), sq(3, 3)));
    assert_eq!(score, 900);
}
