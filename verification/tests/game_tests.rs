use chess_core::board::GameState;
use chess_core::game::{remote_to_local, Game, PlayerType, WireMove};
use chess_core::pieces::{Piece, PieceType, Side, Square};

fn sq(x: u8, y: u8) -> Square {
    Square::new(x, y)
}

#[test]
fn remote_move_is_row_mirrored() {
    // the received record {x1:1, y1:1, x2:1, y2:3} names (1,6) -> (1,4)
    // on this side of the board
    let m = WireMove { x1: 1, y1: 1, x2: 1, y2: 3 };
    let (from, to) = remote_to_local(m);
    assert_eq!(from, sq(1, 6));
    assert_eq!(to, sq(1, 4));
    // and that is a legal white double pawn push from the start
    let mut game = Game::versus();
    assert!(game.make_move(from, to));
    assert_eq!(
        game.board.get_piece_at_pos(sq(1, 4)),
        Some(Piece { ty: PieceType::Pawn, side: Side::White })
    );
}

#[test]
fn turns_alternate() {
    let mut game = Game::versus();
    assert_eq!(game.turn, Side::White);
    assert!(game.make_move(sq(4, 6), sq(4, 4)));
    game.change_turn();
    assert_eq!(game.turn, Side::Black);
    assert!(game.make_move(sq(4, 1), sq(4, 3)));
    game.change_turn();
    assert_eq!(game.turn, Side::White);
    assert_eq!(game.state, GameState::Running);
}

#[test]
fn rejected_move_changes_nothing() {
    let mut game = Game::versus();
    let cached = game.board.valid_moves.len();
    assert!(!game.make_move(sq(0, 7), sq(0, 3)));
    assert_eq!(game.turn, Side::White);
    assert_eq!(game.board.valid_moves.len(), cached);
    assert_eq!(
        game.board.get_piece_at_pos(sq(0, 7)),
        Some(Piece { ty: PieceType::Rook, side: Side::White })
    );
}

#[test]
fn player_slots() {
    let versus = Game::versus();
    assert_eq!(versus.white, PlayerType::Local);
    assert_eq!(versus.black, PlayerType::Local);

    let cpu_white = Game::cpu(3, true);
    assert_eq!(cpu_white.white, PlayerType::Cpu(3));
    assert_eq!(cpu_white.black, PlayerType::Local);
    assert_eq!(cpu_white.turn(), PlayerType::Cpu(3));

    let cpu_black = Game::cpu(2, false);
    assert_eq!(cpu_black.white, PlayerType::Local);
    assert_eq!(cpu_black.black, PlayerType::Cpu(2));

    let both = Game::vcpu(1);
    assert_eq!(both.white, PlayerType::Cpu(1));
    assert_eq!(both.black, PlayerType::Cpu(1));

    let net = Game::remote(true);
    assert_eq!(net.white, PlayerType::Remote);
    assert_eq!(net.black, PlayerType::Local);
    let net2 = Game::remote(false);
    assert_eq!(net2.white, PlayerType::Local);
    assert_eq!(net2.black, PlayerType::Remote);
}

#[test]
fn winning_move_is_recorded() {
    let mut game = Game::versus();
    let (board, side) = chess_core::board::Board::from_fen("3k4/3Q4/8/8/8/8/8/3K4 w")
        .expect("must parse");
    game.set_position(board, side);
    assert_eq!(game.state, GameState::Running);
    assert!(game.make_move(sq(3, 1), sq(3, 0)));
    assert_eq!(game.state, GameState::Winner(Side::White));
}
