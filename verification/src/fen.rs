//! Decoding a position string ("FEN") into a board and a side to move.
//!
//! The accepted shape is the piece-placement field — eight ranks from rank
//! 0 to rank 7, separated by `/`, each a mix of piece letters and empty-run
//! digits adding up to eight files — followed by a space and `w` or `b`.
//! Anything after a further space (castling rights, counters) is ignored.
//! A malformed string is rejected and produces no board at all.
use vstd::prelude::*;
use vstd::string::StringSliceAdditionalSpecFns;

use crate::board::{board_idx, cell, empty_grid, on_board, wf_grid, Board};
use crate::pieces::{Piece, PieceType, Side, Square};

verus! {

/// A malformed position string. The previous board of a caller stays as it
/// was: rejection hands back no partial placement.
#[derive(Clone, Copy, Debug, PartialEq, Eq, Structural)]
pub enum FenError {
    Malformed,
}

/// The piece a placement letter stands for: uppercase White, lowercase
/// Black.
pub open spec fn piece_of_byte(c: u8) -> Option<Piece> {
    if c == 80 {
        Option::Some(Piece { ty: PieceType::Pawn, side: Side::White })
    } else if c == 78 {
        Option::Some(Piece { ty: PieceType::Knight, side: Side::White })
    } else if c == 66 {
        Option::Some(Piece { ty: PieceType::Bishop, side: Side::White })
    } else if c == 82 {
        Option::Some(Piece { ty: PieceType::Rook, side: Side::White })
    } else if c == 81 {
        Option::Some(Piece { ty: PieceType::Queen, side: Side::White })
    } else if c == 75 {
        Option::Some(Piece { ty: PieceType::King, side: Side::White })
    } else if c == 112 {
        Option::Some(Piece { ty: PieceType::Pawn, side: Side::Black })
    } else if c == 110 {
        Option::Some(Piece { ty: PieceType::Knight, side: Side::Black })
    } else if c == 98 {
        Option::Some(Piece { ty: PieceType::Bishop, side: Side::Black })
    } else if c == 114 {
        Option::Some(Piece { ty: PieceType::Rook, side: Side::Black })
    } else if c == 113 {
        Option::Some(Piece { ty: PieceType::Queen, side: Side::Black })
    } else if c == 107 {
        Option::Some(Piece { ty: PieceType::King, side: Side::Black })
    } else {
        Option::None
    }
}

/// The side a turn letter stands for.
pub open spec fn side_of_byte(c: u8) -> Option<Side> {
    if c == 119 {
        Option::Some(Side::White)
    } else if c == 98 {
        Option::Some(Side::Black)
    } else {
        Option::None
    }
}

/// Parses the placement field of `s` from byte `i` on, about to fill file
/// `x` of rank `y`, with `g` the cells placed so far. Yields the finished
/// grid and the index of the first byte after the placement, or nothing if
/// the text does not describe exactly eight ranks of eight files.
pub open spec fn parse_placement(
    s: Seq<u8>,
    i: int,
    x: int,
    y: int,
    g: Seq<Option<Piece>>,
) -> Option<(Seq<Option<Piece>>, int)>
    decreases s.len() - i,
{
    if x == 8 && y == 7 {
        Option::Some((g, i))
    } else if i < 0 || i >= s.len() {
        Option::None
    } else if x == 8 {
        if s[i] == 47 {
            parse_placement(s, i + 1, 0, y + 1, g)
        } else {
            Option::None
        }
    } else {
        match piece_of_byte(s[i]) {
            Option::Some(p) => parse_placement(
                s,
                i + 1,
                x + 1,
                y,
                g.update(board_idx(x, y), Option::Some(p)),
            ),
            Option::None => {
                if 49 <= s[i] <= 56 {
                    let n = s[i] - 48;
                    if x + n <= 8 {
                        parse_placement(s, i + 1, x + n, y, g)
                    } else {
                        Option::None
                    }
                } else {
                    Option::None
                }
            },
        }
    }
}

/// Parses a whole position string: the placement, a space, the side to
/// move, and then either the end of the string or a space introducing
/// fields that are ignored.
pub open spec fn parse_fen(s: Seq<u8>) -> Option<(Seq<Option<Piece>>, Side)> {
    match parse_placement(s, 0, 0, 0, empty_grid()) {
        Option::None => Option::None,
        Option::Some((g, i)) => {
            if i + 2 <= s.len() && s[i] == 32 && (i + 2 == s.len() || s[i + 2] == 32) {
                match side_of_byte(s[i + 1]) {
                    Option::Some(sd) => Option::Some((g, sd)),
                    Option::None => Option::None,
                }
            } else {
                Option::None
            }
        },
    }
}

/// The placement letter of a piece: uppercase for White, lowercase for
/// Black.
pub open spec fn byte_of_piece(p: Piece) -> u8 {
    match p.side {
        Side::White => match p.ty {
            PieceType::Pawn => 80,
            PieceType::Knight => 78,
            PieceType::Bishop => 66,
            PieceType::Rook => 82,
            PieceType::Queen => 81,
            PieceType::King => 75,
        },
        Side::Black => match p.ty {
            PieceType::Pawn => 112,
            PieceType::Knight => 110,
            PieceType::Bishop => 98,
            PieceType::Rook => 114,
            PieceType::Queen => 113,
            PieceType::King => 107,
        },
    }
}

/// The digit standing for a run of `run` empty files.
pub open spec fn digit_byte(run: int) -> u8 {
    (48 + run) as u8
}

/// The turn letter of a side.
pub open spec fn side_byte(s: Side) -> u8 {
    match s {
        Side::White => 119,
        Side::Black => 98,
    }
}

/// The text of rank `y` from file `x` on, with a run of `run` empty files
/// pending: pending empties flush as a digit before a piece letter and at
/// the end of the rank.
pub open spec fn rank_fen(g: Seq<Option<Piece>>, y: int, x: int, run: int) -> Seq<u8>
    decreases 8 - x,
{
    if x < 0 || x >= 8 {
        if run > 0 {
            seq![digit_byte(run)]
        } else {
            Seq::empty()
        }
    } else {
        match cell(g, x, y) {
            Option::None => rank_fen(g, y, x + 1, run + 1),
            Option::Some(p) => (if run > 0 {
                seq![digit_byte(run)]
            } else {
                Seq::empty()
            }) + seq![byte_of_piece(p)] + rank_fen(g, y, x + 1, 0),
        }
    }
}

/// The placement text from rank `y` down: ranks separated by `/`.
pub open spec fn placement_fen(g: Seq<Option<Piece>>, y: int) -> Seq<u8>
    decreases 8 - y,
{
    if y < 0 || y >= 8 {
        Seq::empty()
    } else {
        rank_fen(g, y, 0, 0) + (if y < 7 {
            seq![47u8]
        } else {
            Seq::empty()
        }) + placement_fen(g, y + 1)
    }
}

/// The position string of a grid and a side to move.
pub open spec fn fen_of(g: Seq<Option<Piece>>, side: Side) -> Seq<u8> {
    placement_fen(g, 0) + seq![32u8, side_byte(side)]
}

/// The placement letter of a piece.
fn piece_byte(p: Piece) -> (r: u8)
    ensures
        r == byte_of_piece(p),
{
    match p.side {
        Side::White => match p.ty {
            PieceType::Pawn => 80,
            PieceType::Knight => 78,
            PieceType::Bishop => 66,
            PieceType::Rook => 82,
            PieceType::Queen => 81,
            PieceType::King => 75,
        },
        Side::Black => match p.ty {
            PieceType::Pawn => 112,
            PieceType::Knight => 110,
            PieceType::Bishop => 98,
            PieceType::Rook => 114,
            PieceType::Queen => 113,
            PieceType::King => 107,
        },
    }
}

/// The piece a placement letter stands for.
fn byte_piece(c: u8) -> (r: Option<Piece>)
    ensures
        r == piece_of_byte(c),
{
    if c == 80 {
        Option::Some(Piece { ty: PieceType::Pawn, side: Side::White })
    } else if c == 78 {
        Option::Some(Piece { ty: PieceType::Knight, side: Side::White })
    } else if c == 66 {
        Option::Some(Piece { ty: PieceType::Bishop, side: Side::White })
    } else if c == 82 {
        Option::Some(Piece { ty: PieceType::Rook, side: Side::White })
    } else if c == 81 {
        Option::Some(Piece { ty: PieceType::Queen, side: Side::White })
    } else if c == 75 {
        Option::Some(Piece { ty: PieceType::King, side: Side::White })
    } else if c == 112 {
        Option::Some(Piece { ty: PieceType::Pawn, side: Side::Black })
    } else if c == 110 {
        Option::Some(Piece { ty: PieceType::Knight, side: Side::Black })
    } else if c == 98 {
        Option::Some(Piece { ty: PieceType::Bishop, side: Side::Black })
    } else if c == 114 {
        Option::Some(Piece { ty: PieceType::Rook, side: Side::Black })
    } else if c == 113 {
        Option::Some(Piece { ty: PieceType::Queen, side: Side::Black })
    } else if c == 107 {
        Option::Some(Piece { ty: PieceType::King, side: Side::Black })
    } else {
        Option::None
    }
}

impl Board {
    /// Decodes a position string into a board and the side to move. A
    /// malformed string — wrong rank or file counts, an unknown letter, a
    /// missing or unknown turn field — is rejected with an error and no
    /// board, exactly when the grammar above rejects it.
    pub fn from_fen(s: &str) -> (r: Result<(Board, Side), FenError>)
        ensures
            match r {
                Result::Ok((b, side)) => {
                    &&& parse_fen(s.spec_bytes()) == Option::Some((b.grid@, side))
                    &&& b.wf()
                    &&& b.valid_moves@ == Seq::<(Square, Square)>::empty()
                },
                Result::Err(_) => parse_fen(s.spec_bytes()) is None,
            },
    {
        let bytes: &[u8] = s.as_bytes();
        let n: usize = bytes.len();
        let mut board = Board::empty();
        let mut i: usize = 0;
        let mut x: u8 = 0;
        let mut y: u8 = 0;
        while !(x == 8 && y == 7)
            invariant
                x <= 8,
                y <= 7,
                i <= n,
                n == bytes@.len(),
                bytes@ == s.spec_bytes(),
                board.wf(),
                board.valid_moves@ == Seq::<(Square, Square)>::empty(),
                parse_placement(s.spec_bytes(), i as int, x as int, y as int, board.grid@)
                    == parse_placement(s.spec_bytes(), 0, 0, 0, empty_grid()),
            decreases n - i,
        {
            if i >= n {
                return Result::Err(FenError::Malformed);
            }
            let c: u8 = bytes[i];
            if x == 8 {
                if c == 47 {
                    x = 0;
                    y = y + 1;
                    i = i + 1;
                } else {
                    return Result::Err(FenError::Malformed);
                }
            } else {
                match byte_piece(c) {
                    Option::Some(p) => {
                        let cell_index: usize = (x as usize) * 8 + (y as usize);
                        board.grid[cell_index] = Option::Some(p);
                        x = x + 1;
                        i = i + 1;
                    },
                    Option::None => {
                        if 49 <= c && c <= 56 {
                            let run: u8 = c - 48;
                            if x + run <= 8 {
                                x = x + run;
                                i = i + 1;
                            } else {
                                return Result::Err(FenError::Malformed);
                            }
                        } else {
                            return Result::Err(FenError::Malformed);
                        }
                    },
                }
            }
        }
        if n - i < 2 || bytes[i] != 32 {
            return Result::Err(FenError::Malformed);
        }
        if n - i > 2 && bytes[i + 2] != 32 {
            return Result::Err(FenError::Malformed);
        }
        let turn_byte: u8 = bytes[i + 1];
        let side: Side = if turn_byte == 119 {
            Side::White
        } else if turn_byte == 98 {
            Side::Black
        } else {
            return Result::Err(FenError::Malformed);
        };
        Result::Ok((board, side))
    }

    /// Encodes the position and the side to move as the bytes of a
    /// position string: eight `/`-separated ranks with empty runs as
    /// digits, a space, and the turn letter.
    pub fn to_fen(&self, side: Side) -> (r: Vec<u8>)
        requires
            self.wf(),
        ensures
            r@ == fen_of(self.grid@, side),
    {
        let ghost g = self.grid@;
        let mut out: Vec<u8> = Vec::new();
        let mut y: u8 = 0;
        while y < 8
            invariant
                self.wf(),
                g == self.grid@,
                y <= 8,
                out@ + placement_fen(g, y as int) == placement_fen(g, 0),
            decreases 8 - y,
        {
            proof {
                assert(out@ + (rank_fen(g, y as int, 0, 0) + (if y < 7 {
                    seq![47u8]
                } else {
                    Seq::<u8>::empty()
                }) + placement_fen(g, y as int + 1)) =~= out@ + rank_fen(g, y as int, 0, 0) + (
                if y < 7 {
                    seq![47u8]
                } else {
                    Seq::<u8>::empty()
                }) + placement_fen(g, y as int + 1));
            }
            let mut x: u8 = 0;
            let mut run: u8 = 0;
            while x < 8
                invariant
                    self.wf(),
                    g == self.grid@,
                    y < 8,
                    x <= 8,
                    run <= x,
                    out@ + rank_fen(g, y as int, x as int, run as int) + (if y < 7 {
                        seq![47u8]
                    } else {
                        Seq::<u8>::empty()
                    }) + placement_fen(g, y as int + 1) == placement_fen(g, 0),
                decreases 8 - x,
            {
                match self.grid[(x as usize) * 8 + (y as usize)] {
                    Option::None => {
                        run = run + 1;
                    },
                    Option::Some(p) => {
                        let ghost before = out@;
                        if run > 0 {
                            out.push(48 + run);
                        }
                        out.push(piece_byte(p));
                        proof {
                            assert(out@ =~= before + (if run > 0 {
                                seq![digit_byte(run as int)]
                            } else {
                                Seq::<u8>::empty()
                            }) + seq![byte_of_piece(p)]);
                            assert(rank_fen(g, y as int, x as int, run as int) == (if run > 0 {
                                seq![digit_byte(run as int)]
                            } else {
                                Seq::<u8>::empty()
                            }) + seq![byte_of_piece(p)] + rank_fen(g, y as int, x as int + 1, 0));
                            assert(out@ + rank_fen(g, y as int, x as int + 1, 0) =~= before
                                + rank_fen(g, y as int, x as int, run as int));
                        }
                        run = 0;
                    },
                }
                x = x + 1;
            }
            let ghost before = out@;
            if run > 0 {
                out.push(48 + run);
            }
            proof {
                assert(out@ =~= before + rank_fen(g, y as int, 8, run as int));
            }
            if y < 8 - 1 {
                let ghost before2 = out@;
                out.push(47);
                proof {
                    assert(out@ =~= before2 + seq![47u8]);
                }
            }
            proof {
                assert(out@ + placement_fen(g, y as int + 1) =~= before + rank_fen(
                    g,
                    y as int,
                    8,
                    run as int,
                ) + (if y < 7 {
                    seq![47u8]
                } else {
                    Seq::<u8>::empty()
                }) + placement_fen(g, y as int + 1));
            }
            y = y + 1;
        }
        proof {
            assert(out@ + placement_fen(g, 8) =~= out@);
        }
        let ghost before3 = out@;
        out.push(32);
        out.push(side_byte_exec(side));
        proof {
            assert(out@ =~= before3 + seq![32u8, side_byte(side)]);
        }
        out
    }
}

/// A piece letter decodes back to the piece it was written for.
proof fn lemma_piece_byte_roundtrip(p: Piece)
    ensures
        piece_of_byte(byte_of_piece(p)) == Option::Some(p),
{
}

/// Parsing picks up the text of one rank exactly where the serializer laid
/// it down: from parser state (`x - run`, `y`) — the serializer at file `x`
/// still owes a run of `run` empties — consuming the rank's text reaches
/// state (8, `y`), with the rank's pieces added to the accumulator.
proof fn lemma_parse_rank(
    g: Seq<Option<Piece>>,
    s: Seq<u8>,
    i: int,
    x: int,
    run: int,
    y: int,
    acc: Seq<Option<Piece>>,
)
    requires
        wf_grid(g),
        0 <= y < 8,
        0 <= run <= x <= 8,
        0 <= i,
        i + rank_fen(g, y, x, run).len() <= s.len(),
        forall|j: int|
            0 <= j < rank_fen(g, y, x, run).len() ==> s[i + j] == (#[trigger] rank_fen(
                g,
                y,
                x,
                run,
            )[j]),
        acc.len() == 64,
        forall|xx: int| x - run <= xx < x ==> (#[trigger] cell(g, xx, y)) is None,
        forall|xx: int, yy: int|
            on_board(xx, yy) ==> #[trigger] cell(acc, xx, yy) == (if yy < y || (yy == y && xx < x
                - run) {
                cell(g, xx, yy)
            } else {
                Option::<Piece>::None
            }),
    ensures
        exists|acc2: Seq<Option<Piece>>|
            {
                &&& parse_placement(s, i, x - run, y, acc) == #[trigger] parse_placement(
                    s,
                    i + rank_fen(g, y, x, run).len(),
                    8,
                    y,
                    acc2,
                )
                &&& acc2.len() == 64
                &&& forall|xx: int, yy: int|
                    on_board(xx, yy) ==> #[trigger] cell(acc2, xx, yy) == (if yy <= y {
                        cell(g, xx, yy)
                    } else {
                        Option::<Piece>::None
                    })
            },
    decreases 8 - x,
{
    let t = rank_fen(g, y, x, run);
    if x == 8 {
        if run == 0 {
            assert(t.len() == 0);
            assert(parse_placement(s, i, 8, y, acc) == parse_placement(s, i + t.len(), 8, y, acc));
            assert(forall|xx: int, yy: int|
                on_board(xx, yy) ==> #[trigger] cell(acc, xx, yy) == (if yy <= y {
                    cell(g, xx, yy)
                } else {
                    Option::<Piece>::None
                }));
        } else {
            assert(t == seq![digit_byte(run)]);
            assert(t[0] == digit_byte(run));
            assert(s[i] == digit_byte(run));
            assert(49 <= s[i] <= 56);
            assert(piece_of_byte(s[i]) is None);
            assert(s[i] - 48 == run);
            assert(parse_placement(s, i, 8 - run, y, acc) == parse_placement(s, i + 1, 8, y, acc));
            assert(forall|xx: int, yy: int|
                on_board(xx, yy) ==> #[trigger] cell(acc, xx, yy) == (if yy <= y {
                    cell(g, xx, yy)
                } else {
                    Option::<Piece>::None
                }));
        }
    } else {
        match cell(g, x, y) {
            Option::None => {
                assert(t == rank_fen(g, y, x + 1, run + 1));
                lemma_parse_rank(g, s, i, x + 1, run + 1, y, acc);
            },
            Option::Some(p) => {
                let dig: Seq<u8> = if run > 0 {
                    seq![digit_byte(run)]
                } else {
                    Seq::empty()
                };
                let rest = rank_fen(g, y, x + 1, 0);
                assert(t == dig + seq![byte_of_piece(p)] + rest);
                let i1 = i + dig.len();
                if run > 0 {
                    assert(t[0] == digit_byte(run));
                    assert(s[i] == digit_byte(run));
                    assert(49 <= s[i] <= 56);
                    assert(piece_of_byte(s[i]) is None);
                    assert(s[i] - 48 == run);
                    assert(parse_placement(s, i, x - run, y, acc) == parse_placement(
                        s,
                        i + 1,
                        x,
                        y,
                        acc,
                    ));
                }
                assert(t[dig.len() as int] == byte_of_piece(p));
                assert(s[i1] == byte_of_piece(p));
                lemma_piece_byte_roundtrip(p);
                let acc1 = acc.update(board_idx(x, y), Option::Some(p));
                assert(parse_placement(s, i1, x, y, acc) == parse_placement(
                    s,
                    i1 + 1,
                    x + 1,
                    y,
                    acc1,
                ));
                assert forall|j: int| 0 <= j < rest.len() implies s[(i1 + 1) + j] == (
                #[trigger] rest[j]) by {
                    assert(t[dig.len() + 1 + j] == rest[j]);
                    assert(s[i + (dig.len() + 1 + j)] == t[dig.len() + 1 + j]);
                }
                assert forall|xx: int, yy: int| on_board(xx, yy) implies #[trigger] cell(
                    acc1,
                    xx,
                    yy,
                ) == (if yy < y || (yy == y && xx < x + 1) {
                    cell(g, xx, yy)
                } else {
                    Option::<Piece>::None
                }) by {
                    if xx == x && yy == y {
                        assert(cell(acc1, x, y) == Option::Some(p));
                    } else {
                        assert(board_idx(xx, yy) != board_idx(x, y));
                        assert(cell(acc1, xx, yy) == cell(acc, xx, yy));
                        if yy == y && x - run <= xx < x {
                            assert(cell(g, xx, yy) is None);
                        }
                    }
                }
                lemma_parse_rank(g, s, i1 + 1, x + 1, 0, y, acc1);
                let acc2 = choose|acc2: Seq<Option<Piece>>|
                    {
                        &&& parse_placement(s, i1 + 1, x + 1, y, acc1) == #[trigger] parse_placement(
                            s,
                            (i1 + 1) + rest.len(),
                            8,
                            y,
                            acc2,
                        )
                        &&& acc2.len() == 64
                        &&& forall|xx: int, yy: int|
                            on_board(xx, yy) ==> #[trigger] cell(acc2, xx, yy) == (if yy <= y {
                                cell(g, xx, yy)
                            } else {
                                Option::<Piece>::None
                            })
                    };
                assert((i1 + 1) + rest.len() == i + t.len());
                assert(parse_placement(s, i, x - run, y, acc) == parse_placement(
                    s,
                    i + t.len(),
                    8,
                    y,
                    acc2,
                ));
            },
        }
    }
}

/// Parsing picks up the placement text from rank `y` down and finishes
/// with exactly the encoded grid on the ranks it covers.
proof fn lemma_parse_placement_of(
    g: Seq<Option<Piece>>,
    s: Seq<u8>,
    i: int,
    y: int,
    acc: Seq<Option<Piece>>,
)
    requires
        wf_grid(g),
        0 <= y < 8,
        0 <= i,
        i + placement_fen(g, y).len() <= s.len(),
        forall|j: int|
            0 <= j < placement_fen(g, y).len() ==> s[i + j] == (#[trigger] placement_fen(g, y)[j]),
        acc.len() == 64,
        forall|xx: int, yy: int|
            on_board(xx, yy) ==> #[trigger] cell(acc, xx, yy) == (if yy < y {
                cell(g, xx, yy)
            } else {
                Option::<Piece>::None
            }),
    ensures
        parse_placement(s, i, 0, y, acc) == Option::Some((g, i + placement_fen(g, y).len())),
    decreases 8 - y,
{
    let t = placement_fen(g, y);
    let r = rank_fen(g, y, 0, 0);
    let sep: Seq<u8> = if y < 7 {
        seq![47u8]
    } else {
        Seq::empty()
    };
    let rest = placement_fen(g, y + 1);
    assert(t == r + sep + rest);
    assert forall|j: int| 0 <= j < r.len() implies s[i + j] == (#[trigger] r[j]) by {
        assert(t[j] == r[j]);
        assert(s[i + j] == t[j]);
    }
    lemma_parse_rank(g, s, i, 0, 0, y, acc);
    let acc2 = choose|acc2: Seq<Option<Piece>>|
        {
            &&& parse_placement(s, i, 0, y, acc) == #[trigger] parse_placement(
                s,
                i + r.len(),
                8,
                y,
                acc2,
            )
            &&& acc2.len() == 64
            &&& forall|xx: int, yy: int|
                on_board(xx, yy) ==> #[trigger] cell(acc2, xx, yy) == (if yy <= y {
                    cell(g, xx, yy)
                } else {
                    Option::<Piece>::None
                })
        };
    if y < 7 {
        assert(t[r.len() as int] == 47u8);
        assert(s[i + r.len()] == 47u8);
        assert(parse_placement(s, i + r.len(), 8, y, acc2) == parse_placement(
            s,
            i + r.len() + 1,
            0,
            y + 1,
            acc2,
        ));
        assert forall|j: int| 0 <= j < rest.len() implies s[(i + r.len() + 1) + j] == (
        #[trigger] rest[j]) by {
            assert(t[r.len() + 1 + j] == rest[j]);
            assert(s[i + (r.len() + 1 + j)] == t[r.len() + 1 + j]);
        }
        lemma_parse_placement_of(g, s, i + r.len() + 1, y + 1, acc2);
        assert(t.len() == r.len() + 1 + rest.len());
    } else {
        // the last rank: the parser stands at (8, 7) and stops; the
        // accumulator now agrees with the encoded grid cell for cell
        assert(parse_placement(s, i + r.len(), 8, y, acc2) == Option::Some((acc2, i + r.len())));
        assert forall|j: int| 0 <= j < 64 implies acc2[j] == g[j] by {
            vstd::arithmetic::div_mod::lemma_fundamental_div_mod(j, 8);
            vstd::arithmetic::div_mod::lemma_mod_bound(j, 8);
            let xx = j / 8;
            let yy = j % 8;
            assert(0 <= xx < 8);
            assert(on_board(xx, yy));
            assert(cell(acc2, xx, yy) == cell(g, xx, yy));
            assert(board_idx(xx, yy) == j);
        }
        assert(acc2 =~= g);
        assert(t.len() == r.len());
    }
}

/// Law: decoding what the serializer produced gives back exactly the
/// encoded board and side to move.
pub proof fn lemma_fen_round_trip(g: Seq<Option<Piece>>, side: Side)
    requires
        wf_grid(g),
    ensures
        parse_fen(fen_of(g, side)) == Option::Some((g, side)),
{
    let s = fen_of(g, side);
    let t = placement_fen(g, 0);
    let tail = seq![32u8, side_byte(side)];
    assert(s == t + tail);
    assert forall|j: int| 0 <= j < t.len() implies s[0 + j] == (#[trigger] t[j]) by {
        assert(s[j] == t[j]);
    }
    assert(empty_grid().len() == 64);
    assert forall|xx: int, yy: int| on_board(xx, yy) implies #[trigger] cell(
        empty_grid(),
        xx,
        yy,
    ) == (if yy < 0 {
        cell(g, xx, yy)
    } else {
        Option::<Piece>::None
    }) by {
        assert(0 <= board_idx(xx, yy) < 64);
    }
    lemma_parse_placement_of(g, s, 0, 0, empty_grid());
    let plen = t.len();
    assert(parse_placement(s, 0, 0, 0, empty_grid()) == Option::Some((g, plen as int)));
    assert(s.len() == plen + 2);
    assert(s[plen as int] == tail[0]);
    assert(s[plen as int + 1] == tail[1]);
    assert(side_of_byte(side_byte(side)) == Option::Some(side));
}

/// The turn letter of a side.
fn side_byte_exec(s: Side) -> (r: u8)
    ensures
        r == side_byte(s),
{
    match s {
        Side::White => 119,
        Side::Black => 98,
    }
}

} // verus!
