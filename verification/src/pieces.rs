//! Pieces, sides and board coordinates.
use vstd::prelude::*;

verus! {

/// One of the two players. `White` pieces start on the high-`y` ranks and
/// move toward `y == 0`; `Black` starts on the low-`y` ranks.
#[derive(Clone, Copy, Debug, PartialEq, Eq, Structural)]
pub enum Side {
    White,
    Black,
}

/// The side that moves after `s`.
pub open spec fn flip_side(s: Side) -> Side {
    match s {
        Side::White => Side::Black,
        Side::Black => Side::White,
    }
}

impl Side {
    /// The opposing side: turn alternation flips White and Black.
    pub fn other(self) -> (r: Side)
        ensures
            r == flip_side(self),
    {
        match self {
            Side::White => Side::Black,
            Side::Black => Side::White,
        }
    }
}

/// The six chess piece kinds.
#[derive(Clone, Copy, Debug, PartialEq, Eq, Structural)]
pub enum PieceType {
    Pawn,
    Knight,
    Bishop,
    Rook,
    Queen,
    King,
}

/// A piece on the board: a kind and the side that owns it. A plain value,
/// copied rather than shared.
#[derive(Clone, Copy, Debug, PartialEq, Eq, Structural)]
pub struct Piece {
    pub ty: PieceType,
    pub side: Side,
}

/// A board coordinate. Both components of an on-board square lie in `0..8`;
/// `x` selects the file (column) and `y` the rank (row), with `y == 0` the
/// rank where Black's back rank starts.
#[derive(Clone, Copy, Debug, PartialEq, Eq, Structural)]
pub struct Square {
    pub x: u8,
    pub y: u8,
}

impl Square {
    pub fn new(x: u8, y: u8) -> (r: Square)
        ensures
            r == (Square { x, y }),
    {
        Square { x, y }
    }
}

/// The material value of a piece kind, used by the static evaluation.
/// The king's value dwarfs the sum of everything else, so losing it
/// dominates any material trade.
pub open spec fn piece_value(t: PieceType) -> int {
    match t {
        PieceType::Pawn => 100,
        PieceType::Knight => 300,
        PieceType::Bishop => 300,
        PieceType::Rook => 500,
        PieceType::Queen => 900,
        PieceType::King => 100000,
    }
}

/// The contribution of one cell to the evaluation for `side`: its material
/// value counted positive for `side`'s own pieces and negative for the
/// opponent's, zero for an empty cell.
pub open spec fn signed_value(c: Option<Piece>, side: Side) -> int {
    match c {
        Option::None => 0,
        Option::Some(p) => if p.side == side {
            piece_value(p.ty)
        } else {
            -piece_value(p.ty)
        },
    }
}

} // verus!
