use chess_core::board::Board;
use chess_core::fen::FenError;
use chess_core::pieces::{Piece, PieceType, Side, Square};

fn sq(x: u8, y: u8) -> Square {
    Square::new(x, y)
}

#[test]
fn start_fen_decodes_to_starting_position() {
    let (b, side) = Board::from_fen("rnbqkbnr/pppppppp/8/8/8/8/PPPPPPPP/RNBQKBNR w KQkq - 0 1")
        .expect("the standard starting string must parse");
    assert_eq!(side, Side::White);
    let fresh = Board::new();
    for x in 0..8u8 {
        for y in 0..8u8 {
            assert_eq!(b.get_piece_at_pos(sq(x, y)), fresh.get_piece_at_pos(sq(x, y)));
        }
    }
}

#[test]
fn side_to_move_black() {
    let (_, side) = Board::from_fen("8/8/8/8/8/8/8/8 b").expect("must parse");
    assert_eq!(side, Side::Black);
}

#[test]
fn placement_and_side_suffice() {
    let (b, side) = Board::from_fen("4k3/8/8/8/8/8/4P3/4K3 w").expect("must parse");
    assert_eq!(side, Side::White);
    assert_eq!(
        b.get_piece_at_pos(sq(4, 0)),
        Some(Piece { ty: PieceType::King, side: Side::Black })
    );
    assert_eq!(
        b.get_piece_at_pos(sq(4, 6)),
        Some(Piece { ty: PieceType::Pawn, side: Side::White })
    );
    assert_eq!(
        b.get_piece_at_pos(sq(4, 7)),
        Some(Piece { ty: PieceType::King, side: Side::White })
    );
    assert_eq!(b.get_piece_at_pos(sq(0, 0)), None);
}

#[test]
fn digits_skip_empty_files() {
    let (b, _) = Board::from_fen("r6r/8/8/8/8/8/8/8 w").expect("must parse");
    assert_eq!(
        b.get_piece_at_pos(sq(0, 0)),
        Some(Piece { ty: PieceType::Rook, side: Side::Black })
    );
    assert_eq!(
        b.get_piece_at_pos(sq(7, 0)),
        Some(Piece { ty: PieceType::Rook, side: Side::Black })
    );
    for x in 1..7u8 {
        assert_eq!(b.get_piece_at_pos(sq(x, 0)), None);
    }
}

#[test]
fn malformed_strings_are_rejected() {
    let rejected = ["xnbqkbnr/pppppppp/8/8/8/8/PPPPPPPP/RNBQKBNR w",  // unknown piece letter
        "9/8/8/8/8/8/8/8 w",  // a rank that is too long
        "ppppppppp/8/8/8/8/8/8/8 w", "7/8/8/8/8/8/8/8 w",  // a rank that is too short
        "8/8/8/8/8/8/8 w",  // too few ranks
        "8/8/8/8/8/8/8/8",  // missing side to move
        "8/8/8/8/8/8/8/8 ", "8/8/8/8/8/8/8/8 x",  // an unknown side letter
        "8/8/8/8/8/8/8/8 wx",  // garbage glued to the side letter
        ""];
    for s in rejected {
        assert!(matches!(Board::from_fen(s), Err(FenError::Malformed)), "accepted: {s:?}");
    }
}

#[test]
fn start_position_encodes_to_the_standard_string() {
    let b = Board::new();
    let bytes = b.to_fen(Side::White);
    assert_eq!(
        std::str::from_utf8(&bytes).unwrap(),
        "rnbqkbnr/pppppppp/8/8/8/8/PPPPPPPP/RNBQKBNR w"
    );
}

#[test]
fn fen_round_trips() {
    // from_fen(to_fen(B)) gives back B and the side to move
    let mut boards = vec![(Board::new(), Side::White), (Board::empty(), Side::Black)];
    let mut mid = Board::new();
    mid.make_move(sq(4, 6), sq(4, 4), Side::White).unwrap();
    mid.make_move(sq(3, 1), sq(3, 3), Side::Black).unwrap();
    mid.make_move(sq(4, 4), sq(3, 3), Side::White).unwrap();
    boards.push((mid, Side::Black));
    for (b, side) in boards {
        let bytes = b.to_fen(side);
        let text = std::str::from_utf8(&bytes).unwrap().to_owned();
        let (back, back_side) = Board::from_fen(&text).expect("serialized form must parse");
        assert_eq!(back_side, side);
        for x in 0..8u8 {
            for y in 0..8u8 {
                assert_eq!(back.get_piece_at_pos(sq(x, y)), b.get_piece_at_pos(sq(x, y)));
            }
        }
    }
}

#[test]
fn parse_failure_leaves_a_game_untouched() {
    // the caller keeps its previous board on a failed parse
    let mut game = chess_core::game::Game::versus();
    let before_piece = game.board.get_piece_at_pos(sq(4, 6));
    if let Ok((b, t)) = Board::from_fen("not a position") {
        game.set_position(b, t);
    }
    assert_eq!(game.board.get_piece_at_pos(sq(4, 6)), before_piece);
    assert_eq!(game.turn, Side::White);
}
