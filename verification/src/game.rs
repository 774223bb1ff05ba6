//! A running game: a board, the side to move, two player slots, and the
//! coordinate transform for moves received from a remote opponent.
//!
//! The surrounding application drives the loop: it polls its own move
//! channel for a remote slot, runs the search for a computer slot, and
//! feeds every move through `make_move` followed by `change_turn`. The
//! connection itself never appears here; a remote slot is only a marker.
use vstd::prelude::*;

use crate::board::{apply_move, is_start_grid, move_ok, outcome, Board, GameState};
use crate::pieces::{flip_side, Side, Square};

verus! {

/// Who plays a side: a local human, the computer searching to the given
/// depth, or a remote opponent whose moves the application receives.
#[derive(Clone, Copy, Debug, PartialEq, Eq, Structural)]
pub enum PlayerType {
    Local,
    Cpu(usize),
    Remote,
}

/// A move as it crosses the wire: four coordinates in `0..=7`, source then
/// destination, in the sender's orientation.
#[derive(Clone, Copy, Debug, PartialEq, Eq, Structural)]
pub struct WireMove {
    pub x1: u8,
    pub y1: u8,
    pub x2: u8,
    pub y2: u8,
}

/// A received move with each rank mirrored: the two processes look at the
/// board from opposite sides, so rank `y` on the sender's board is rank
/// `7 - y` here.
pub open spec fn mirrored(m: WireMove) -> (Square, Square) {
    (Square { x: m.x1, y: (7 - m.y1) as u8 }, Square { x: m.x2, y: (7 - m.y2) as u8 })
}

/// The board coordinates a received remote move names, with the row axis
/// mirrored into this process's orientation.
pub fn remote_to_local(m: WireMove) -> (r: (Square, Square))
    requires
        m.x1 < 8,
        m.y1 < 8,
        m.x2 < 8,
        m.y2 < 8,
    ensures
        r == mirrored(m),
{
    (Square::new(m.x1, 7 - m.y1), Square::new(m.x2, 7 - m.y2))
}

/// One game: the board, whose turn it is, the two player slots, and the
/// state the last applied move produced. Outside of a half-played move the
/// board's cache holds the legal moves of the side to move.
pub struct Game {
    pub board: Board,
    pub turn: Side,
    pub white: PlayerType,
    pub black: PlayerType,
    pub state: GameState,
}

impl Game {
    /// The board is well-formed and its move cache belongs to the side to
    /// move.
    pub open spec fn wf(&self) -> bool {
        &&& self.board.wf()
        &&& self.board.moves_fresh(self.turn)
    }

    /// A game from the starting position, White to move, with the given
    /// player slots.
    fn fresh(white: PlayerType, black: PlayerType) -> (r: Game)
        ensures
            r.wf(),
            r.turn == Side::White,
            is_start_grid(r.board.grid@),
            r.white == white,
            r.black == black,
            r.state == GameState::Running,
    {
        let mut board = Board::new();
        board.calculate_valid_moves(Side::White);
        Game { board, turn: Side::White, white, black, state: GameState::Running }
    }

    /// A local human-versus-human game from the starting position.
    pub fn versus() -> (r: Game)
        ensures
            r.wf(),
            r.turn == Side::White,
            is_start_grid(r.board.grid@),
            r.white == PlayerType::Local,
            r.black == PlayerType::Local,
            r.state == GameState::Running,
    {
        Game::fresh(PlayerType::Local, PlayerType::Local)
    }

    /// A game against the computer searching to `depth`; the computer
    /// takes White exactly when `is_white` holds.
    pub fn cpu(depth: usize, is_white: bool) -> (r: Game)
        ensures
            r.wf(),
            r.turn == Side::White,
            is_start_grid(r.board.grid@),
            r.white == if is_white {
                PlayerType::Cpu(depth)
            } else {
                PlayerType::Local
            },
            r.black == if is_white {
                PlayerType::Local
            } else {
                PlayerType::Cpu(depth)
            },
            r.state == GameState::Running,
    {
        if is_white {
            Game::fresh(PlayerType::Cpu(depth), PlayerType::Local)
        } else {
            Game::fresh(PlayerType::Local, PlayerType::Cpu(depth))
        }
    }

    /// A computer-versus-computer game, both sides searching to `depth`.
    pub fn vcpu(depth: usize) -> (r: Game)
        ensures
            r.wf(),
            r.turn == Side::White,
            is_start_grid(r.board.grid@),
            r.white == PlayerType::Cpu(depth),
            r.black == PlayerType::Cpu(depth),
            r.state == GameState::Running,
    {
        Game::fresh(PlayerType::Cpu(depth), PlayerType::Cpu(depth))
    }

    /// A networked game; the remote opponent takes White exactly when the
    /// local player was assigned Black.
    pub fn remote(is_black: bool) -> (r: Game)
        ensures
            r.wf(),
            r.turn == Side::White,
            is_start_grid(r.board.grid@),
            r.white == if is_black {
                PlayerType::Remote
            } else {
                PlayerType::Local
            },
            r.black == if is_black {
                PlayerType::Local
            } else {
                PlayerType::Remote
            },
            r.state == GameState::Running,
    {
        if is_black {
            Game::fresh(PlayerType::Remote, PlayerType::Local)
        } else {
            Game::fresh(PlayerType::Local, PlayerType::Remote)
        }
    }

    /// The player slot whose turn it is.
    pub fn turn(&self) -> (r: PlayerType)
        ensures
            r == if self.turn == Side::White {
                self.white
            } else {
                self.black
            },
    {
        match self.turn {
            Side::White => self.white,
            Side::Black => self.black,
        }
    }

    /// Applies the side to move's move if it is legal: `true` iff it was
    /// accepted. On success the board changes as the move dictates, the
    /// resulting state is recorded, and the stale move cache is cleared —
    /// `change_turn` recomputes it. A rejected move changes nothing.
    pub fn make_move(&mut self, from: Square, to: Square) -> (accepted: bool)
        requires
            old(self).board.wf(),
        ensures
            final(self).board.wf(),
            accepted == move_ok(old(self).board.grid@, old(self).turn, from, to),
            final(self).turn == old(self).turn,
            final(self).white == old(self).white,
            final(self).black == old(self).black,
            accepted ==> {
                &&& final(self).board.grid@ == apply_move(old(self).board.grid@, from, to)
                &&& final(self).state == outcome(old(self).board.grid@, old(self).turn, from, to)
                &&& final(self).board.valid_moves@ == Seq::<(Square, Square)>::empty()
            },
            !accepted ==> {
                &&& final(self).board.grid@ == old(self).board.grid@
                &&& final(self).board.valid_moves@ == old(self).board.valid_moves@
                &&& final(self).state == old(self).state
            },
    {
        match self.board.make_move(from, to, self.turn) {
            Result::Ok(st) => {
                self.state = st;
                true
            },
            Result::Err(_) => false,
        }
    }

    /// Passes the turn to the other side and recomputes the legal moves
    /// for it.
    pub fn change_turn(&mut self)
        requires
            old(self).board.wf(),
        ensures
            final(self).wf(),
            final(self).turn == flip_side(old(self).turn),
            final(self).board.grid@ == old(self).board.grid@,
            final(self).white == old(self).white,
            final(self).black == old(self).black,
            final(self).state == old(self).state,
    {
        self.turn = self.turn.other();
        self.board.calculate_valid_moves(self.turn);
    }

    /// Replaces the position and the side to move — for example with a
    /// parsed one — and recomputes the moves. The game state starts over.
    pub fn set_position(&mut self, board: Board, turn: Side)
        requires
            board.wf(),
        ensures
            final(self).wf(),
            final(self).board.grid@ == board.grid@,
            final(self).turn == turn,
            final(self).white == old(self).white,
            final(self).black == old(self).black,
            final(self).state == GameState::Running,
    {
        self.board = board;
        self.turn = turn;
        self.state = GameState::Running;
        self.board.calculate_valid_moves(turn);
    }
}

} // verus!
