//! The board: an 8×8 grid of optional pieces, legal-move enumeration,
//! move application with terminal detection, and static evaluation.
//!
//! The mathematical model of a board is a sequence of 64 cells,
//! `Seq<Option<Piece>>`, where the cell at file `x` and rank `y` sits at
//! index `x * 8 + y`.
use vstd::prelude::*;

use crate::pieces::{flip_side, piece_value, signed_value, Piece, PieceType, Side, Square};

verus! {

/// The result of applying one move.
#[derive(Clone, Copy, Debug, PartialEq, Eq, Structural)]
pub enum GameState {
    /// The game goes on.
    Running,
    /// The move captured the opposing king; the mover has won. King capture
    /// is the terminal rule here: there is no separate checkmate detection.
    Winner(Side),
    /// Only the two kings remain: insufficient material to ever win.
    Draw,
}

/// Why a move was rejected. A rejected move never changes the board.
#[derive(Clone, Copy, Debug, PartialEq, Eq, Structural)]
pub enum MoveError {
    /// The source square is off the board, empty, or holds an enemy piece.
    NoFriendlyPiece,
    /// The piece at the source cannot reach the destination.
    IllegalDestination,
}

pub open spec fn board_idx(x: int, y: int) -> int {
    x * 8 + y
}

pub open spec fn on_board(x: int, y: int) -> bool {
    0 <= x < 8 && 0 <= y < 8
}

pub open spec fn wf_grid(g: Seq<Option<Piece>>) -> bool {
    g.len() == 64
}

/// The cell at file `x`, rank `y`.
pub open spec fn cell(g: Seq<Option<Piece>>, x: int, y: int) -> Option<Piece> {
    g[board_idx(x, y)]
}

pub open spec fn abs_diff(a: int, b: int) -> int {
    if a < b {
        b - a
    } else {
        a - b
    }
}

/// How many king steps the line from source to destination spans:
/// the larger of the two coordinate distances.
pub open spec fn line_len(sx: int, sy: int, dx: int, dy: int) -> int {
    if abs_diff(sx, dx) > abs_diff(sy, dy) {
        abs_diff(sx, dx)
    } else {
        abs_diff(sy, dy)
    }
}

/// The unit step from `a` toward `b` in one coordinate.
pub open spec fn step_toward(a: int, b: int) -> int {
    if b > a {
        1
    } else if b < a {
        -1
    } else {
        0
    }
}

/// The cell `k` king steps along the line from source toward destination.
pub open spec fn path_cell(
    g: Seq<Option<Piece>>,
    sx: int,
    sy: int,
    dx: int,
    dy: int,
    k: int,
) -> Option<Piece> {
    cell(g, sx + k * step_toward(sx, dx), sy + k * step_toward(sy, dy))
}

/// Every square strictly between source and destination is empty.
/// Meaningful for straight or diagonal lines, where each coordinate
/// distance is zero or the full line length.
pub open spec fn clear_between(g: Seq<Option<Piece>>, sx: int, sy: int, dx: int, dy: int) -> bool {
    forall|k: int|
        1 <= k < line_len(sx, sy, dx, dy) ==> (#[trigger] path_cell(g, sx, sy, dx, dy, k))
            is None
}

/// The rank toward which `s`'s pawns advance: White moves toward rank 0.
pub open spec fn pawn_dir(s: Side) -> int {
    match s {
        Side::White => -1,
        Side::Black => 1,
    }
}

/// The rank on which `s`'s pawns start, from which a double step is allowed.
pub open spec fn pawn_start(s: Side) -> int {
    match s {
        Side::White => 6,
        Side::Black => 1,
    }
}

/// A pawn of side `s` on (`sx`, `sy`) may step to (`dx`, `dy`): one square
/// forward onto an empty cell, two squares forward from its start rank over
/// an empty cell onto an empty cell, or one square diagonally forward onto
/// an enemy piece.
pub open spec fn pawn_ok(
    g: Seq<Option<Piece>>,
    s: Side,
    sx: int,
    sy: int,
    dx: int,
    dy: int,
) -> bool {
    ||| (dx == sx && dy == sy + pawn_dir(s) && cell(g, dx, dy) is None)
    ||| (dx == sx && sy == pawn_start(s) && dy == sy + 2 * pawn_dir(s)
        && cell(g, sx, sy + pawn_dir(s)) is None && cell(g, dx, dy) is None)
    ||| (abs_diff(sx, dx) == 1 && dy == sy + pawn_dir(s) && match cell(g, dx, dy) {
        Option::Some(q) => q.side != s,
        Option::None => false,
    })
}

/// The movement rule of piece `p` standing on (`sx`, `sy`), for a
/// destination (`dx`, `dy`) other than its own square.
pub open spec fn pattern_ok(
    g: Seq<Option<Piece>>,
    p: Piece,
    sx: int,
    sy: int,
    dx: int,
    dy: int,
) -> bool {
    let ax = abs_diff(sx, dx);
    let ay = abs_diff(sy, dy);
    match p.ty {
        PieceType::Pawn => pawn_ok(g, p.side, sx, sy, dx, dy),
        PieceType::Knight => (ax == 1 && ay == 2) || (ax == 2 && ay == 1),
        PieceType::Bishop => ax == ay && clear_between(g, sx, sy, dx, dy),
        PieceType::Rook => (sx == dx || sy == dy) && clear_between(g, sx, sy, dx, dy),
        PieceType::Queen => (sx == dx || sy == dy || ax == ay) && clear_between(
            g,
            sx,
            sy,
            dx,
            dy,
        ),
        PieceType::King => ax <= 1 && ay <= 1,
    }
}

/// The source square holds a piece of side `s`.
pub open spec fn source_ok(g: Seq<Option<Piece>>, s: Side, src: Square) -> bool {
    &&& on_board(src.x as int, src.y as int)
    &&& match cell(g, src.x as int, src.y as int) {
        Option::Some(p) => p.side == s,
        Option::None => false,
    }
}

/// Side `s` may move the piece on `src` to `dst`: both squares on the board
/// and distinct, a piece of `s` on the source, the destination not occupied
/// by a friend, and the piece's movement rule satisfied.
pub open spec fn move_ok(g: Seq<Option<Piece>>, s: Side, src: Square, dst: Square) -> bool {
    let sx = src.x as int;
    let sy = src.y as int;
    let dx = dst.x as int;
    let dy = dst.y as int;
    &&& on_board(sx, sy)
    &&& on_board(dx, dy)
    &&& !(sx == dx && sy == dy)
    &&& match cell(g, sx, sy) {
        Option::Some(p) => p.side == s && pattern_ok(g, p, sx, sy, dx, dy),
        Option::None => false,
    }
    &&& match cell(g, dx, dy) {
        Option::Some(q) => q.side != s,
        Option::None => true,
    }
}

/// The grid after moving the piece on `src` to `dst`: the destination holds
/// the moved piece, the source is empty, any piece that stood on the
/// destination is gone, and every other cell is untouched.
pub open spec fn apply_move(g: Seq<Option<Piece>>, src: Square, dst: Square) -> Seq<
    Option<Piece>,
> {
    g.update(board_idx(dst.x as int, dst.y as int), cell(g, src.x as int, src.y as int)).update(
        board_idx(src.x as int, src.y as int),
        Option::None,
    )
}

/// Every occupied cell holds a king.
pub open spec fn only_kings(g: Seq<Option<Piece>>) -> bool {
    forall|i: int|
        0 <= i < g.len() ==> match #[trigger] g[i] {
            Option::Some(p) => p.ty == PieceType::King,
            Option::None => true,
        }
}

/// The move captures the opposing king.
pub open spec fn captures_king(g: Seq<Option<Piece>>, s: Side, dst: Square) -> bool {
    match cell(g, dst.x as int, dst.y as int) {
        Option::Some(p) => p.ty == PieceType::King && p.side == flip_side(s),
        Option::None => false,
    }
}

/// The game state a legal move of side `s` from `src` to `dst` produces:
/// capturing the enemy king wins; a position with bare kings left is a
/// draw by insufficient material; anything else keeps the game running.
pub open spec fn outcome(g: Seq<Option<Piece>>, s: Side, src: Square, dst: Square) -> GameState {
    if captures_king(g, s, dst) {
        GameState::Winner(s)
    } else if only_kings(apply_move(g, src, dst)) {
        GameState::Draw
    } else {
        GameState::Running
    }
}

/// The square with index `k` in the cell ordering (file-major).
pub open spec fn square_of(k: int) -> Square {
    Square { x: (k / 8) as u8, y: (k % 8) as u8 }
}

/// The `k`-th (source, destination) pair in enumeration order: source
/// squares in cell order, and for each source all 64 destinations in cell
/// order.
pub open spec fn pair_of(k: int) -> (Square, Square) {
    (square_of(k / 64), square_of(k % 64))
}

/// The legal moves of side `s` among the first `n` (source, destination)
/// pairs, in enumeration order.
pub open spec fn moves_upto(g: Seq<Option<Piece>>, s: Side, n: nat) -> Seq<(Square, Square)>
    decreases n,
{
    if n == 0 {
        Seq::empty()
    } else {
        let prefix = moves_upto(g, s, (n - 1) as nat);
        let m = pair_of(n - 1);
        if move_ok(g, s, m.0, m.1) {
            prefix.push(m)
        } else {
            prefix
        }
    }
}

/// All legal moves of side `s`, in enumeration order: for each source
/// square in cell order, each reachable destination in cell order.
pub open spec fn moves_list(g: Seq<Option<Piece>>, s: Side) -> Seq<(Square, Square)> {
    moves_upto(g, s, 4096)
}

/// The evaluation restricted to the first `n` cells.
pub open spec fn eval_upto(g: Seq<Option<Piece>>, side: Side, n: nat) -> int
    decreases n,
{
    if n == 0 {
        0
    } else {
        eval_upto(g, side, (n - 1) as nat) + signed_value(g[n - 1], side)
    }
}

/// The static evaluation of a position from `side`'s perspective: the sum
/// over all cells of the material value, counted positive for `side` and
/// negative for the opponent.
pub open spec fn eval(g: Seq<Option<Piece>>, side: Side) -> int {
    eval_upto(g, side, 64)
}

/// The piece kind on file `x` of each side's back rank in the starting
/// position.
pub open spec fn back_rank_type(x: int) -> PieceType {
    if x == 0 || x == 7 {
        PieceType::Rook
    } else if x == 1 || x == 6 {
        PieceType::Knight
    } else if x == 2 || x == 5 {
        PieceType::Bishop
    } else if x == 3 {
        PieceType::Queen
    } else {
        PieceType::King
    }
}

/// The starting position: Black's back rank on rank 0 and pawns on rank 1,
/// White's pawns on rank 6 and back rank on rank 7.
pub open spec fn start_cell(x: int, y: int) -> Option<Piece> {
    if y == 0 {
        Option::Some(Piece { ty: back_rank_type(x), side: Side::Black })
    } else if y == 1 {
        Option::Some(Piece { ty: PieceType::Pawn, side: Side::Black })
    } else if y == 6 {
        Option::Some(Piece { ty: PieceType::Pawn, side: Side::White })
    } else if y == 7 {
        Option::Some(Piece { ty: back_rank_type(x), side: Side::White })
    } else {
        Option::None
    }
}

/// A grid of 64 empty cells.
pub open spec fn empty_grid() -> Seq<Option<Piece>> {
    Seq::new(64, |i: int| Option::None)
}

pub open spec fn is_start_grid(g: Seq<Option<Piece>>) -> bool {
    &&& wf_grid(g)
    &&& forall|x: int, y: int| on_board(x, y) ==> #[trigger] cell(g, x, y) == start_cell(x, y)
}

/// The enumerated prefix holds a pair exactly when some enumeration index
/// below `n` names it and it is legal.
proof fn lemma_moves_upto_contains(g: Seq<Option<Piece>>, s: Side, n: nat, src: Square, dst: Square)
    ensures
        moves_upto(g, s, n).contains((src, dst)) <==> (move_ok(g, s, src, dst) && exists|k: int|
            0 <= k < n && #[trigger] pair_of(k) == (src, dst)),
    decreases n,
{
    if n > 0 {
        lemma_moves_upto_contains(g, s, (n - 1) as nat, src, dst);
        let prefix = moves_upto(g, s, (n - 1) as nat);
        let m = pair_of(n - 1);
        let whole = moves_upto(g, s, n);
        if move_ok(g, s, m.0, m.1) {
            assert(whole == prefix.push(m));
            if whole.contains((src, dst)) {
                let i = choose|i: int| 0 <= i < whole.len() && whole[i] == (src, dst);
                if i < prefix.len() {
                    assert(prefix[i] == (src, dst));
                    assert(prefix.contains((src, dst)));
                } else {
                    assert(pair_of(n - 1) == (src, dst));
                    assert(move_ok(g, s, src, dst));
                }
            }
            if move_ok(g, s, src, dst) && exists|k: int|
                0 <= k < n && #[trigger] pair_of(k) == (src, dst) {
                let k = choose|k: int| 0 <= k < n && #[trigger] pair_of(k) == (src, dst);
                if k < n - 1 {
                    assert(prefix.contains((src, dst)));
                    let i = choose|i: int| 0 <= i < prefix.len() && prefix[i] == (src, dst);
                    assert(whole[i] == (src, dst));
                } else {
                    assert(whole[whole.len() - 1] == (src, dst));
                }
                assert(whole.contains((src, dst)));
            }
        } else {
            assert(whole == prefix);
            if move_ok(g, s, src, dst) && exists|k: int|
                0 <= k < n && #[trigger] pair_of(k) == (src, dst) {
                let k = choose|k: int| 0 <= k < n && #[trigger] pair_of(k) == (src, dst);
                assert(k != n - 1);
            }
        }
    }
}

/// Law: the computed move list holds exactly the legal moves — a
/// (source, destination) pair stands in it if and only if the rule
/// `move_ok` admits it, so a destination outside the list is exactly one
/// that `make_move` rejects.
pub proof fn lemma_moves_list_exact(g: Seq<Option<Piece>>, s: Side, src: Square, dst: Square)
    ensures
        moves_list(g, s).contains((src, dst)) <==> move_ok(g, s, src, dst),
{
    lemma_moves_upto_contains(g, s, 4096, src, dst);
    if move_ok(g, s, src, dst) {
        let a = board_idx(src.x as int, src.y as int);
        let b = board_idx(dst.x as int, dst.y as int);
        let k = a * 64 + b;
        assert(0 <= a < 64 && 0 <= b < 64);
        vstd::arithmetic::div_mod::lemma_fundamental_div_mod_converse(k, 64, a, b);
        assert(k / 64 == a && k % 64 == b);
        vstd::arithmetic::div_mod::lemma_fundamental_div_mod_converse(
            a,
            8,
            src.x as int,
            src.y as int,
        );
        vstd::arithmetic::div_mod::lemma_fundamental_div_mod_converse(
            b,
            8,
            dst.x as int,
            dst.y as int,
        );
        assert(square_of(a) == src);
        assert(square_of(b) == dst);
        assert(0 <= k < 4096);
        assert(pair_of(k) == (src, dst));
    }
}

/// Copies a vector of plain values element by element.
fn copy_vec<T: Copy>(v: &Vec<T>) -> (r: Vec<T>)
    ensures
        r@ == v@,
{
    let mut r: Vec<T> = Vec::new();
    let mut i: usize = 0;
    while i < v.len()
        invariant
            i <= v.len(),
            r@ =~= v@.take(i as int),
        decreases v.len() - i,
    {
        r.push(v[i]);
        proof {
            assert(v@.take(i + 1 as int) =~= v@.take(i as int).push(v@[i as int]));
        }
        i = i + 1;
    }
    proof {
        assert(v@.take(v@.len() as int) =~= v@);
    }
    r
}

/// The board: the 8×8 grid plus the cached legal-move list of the side it
/// was last computed for. A plain value: cloning copies the whole grid and
/// cache, so hypothetical continuations never touch the original.
pub struct Board {
    /// The 64 cells, the cell at file `x` and rank `y` at index `x * 8 + y`.
    pub grid: Vec<Option<Piece>>,
    /// The cached legal (source, destination) pairs, in enumeration order,
    /// of the side `calculate_valid_moves` was last given. Any move applied
    /// to the board clears it; it must be recomputed before the next use.
    pub valid_moves: Vec<(Square, Square)>,
}

impl Board {
    /// The grid has exactly 64 cells.
    pub open spec fn wf(&self) -> bool {
        wf_grid(self.grid@)
    }

    /// The cached move list is exactly the legal moves of `s` in the
    /// current position.
    pub open spec fn moves_fresh(&self, s: Side) -> bool {
        self.valid_moves@ == moves_list(self.grid@, s)
    }

    /// An empty board with an empty move cache.
    pub fn empty() -> (r: Board)
        ensures
            r.wf(),
            r.valid_moves@ == Seq::<(Square, Square)>::empty(),
            r.grid@ == empty_grid(),
            forall|x: int, y: int| on_board(x, y) ==> #[trigger] cell(r.grid@, x, y) is None,
    {
        let mut grid: Vec<Option<Piece>> = Vec::new();
        let mut i: usize = 0;
        while i < 64
            invariant
                i <= 64,
                grid@.len() == i,
                forall|j: int| 0 <= j < i ==> grid@[j] is None,
            decreases 64 - i,
        {
            grid.push(Option::None);
            i = i + 1;
        }
        proof {
            assert(grid@ =~= empty_grid());
        }
        Board { grid, valid_moves: Vec::new() }
    }

    /// A board holding the starting position, with an empty move cache.
    pub fn new() -> (r: Board)
        ensures
            r.wf(),
            is_start_grid(r.grid@),
            r.valid_moves@ == Seq::<(Square, Square)>::empty(),
    {
        let mut grid: Vec<Option<Piece>> = Vec::new();
        let mut x: u8 = 0;
        while x < 8
            invariant
                x <= 8,
                grid@.len() == x * 8,
                forall|xi: int, yi: int|
                    0 <= xi < x && 0 <= yi < 8 ==> #[trigger] cell(grid@, xi, yi) == start_cell(
                        xi,
                        yi,
                    ),
            decreases 8 - x,
        {
            let mut y: u8 = 0;
            while y < 8
                invariant
                    x < 8,
                    y <= 8,
                    grid@.len() == x * 8 + y,
                    forall|xi: int, yi: int|
                        0 <= xi < x && 0 <= yi < 8 ==> #[trigger] cell(grid@, xi, yi)
                            == start_cell(xi, yi),
                    forall|yi: int|
                        0 <= yi < y ==> #[trigger] cell(grid@, x as int, yi) == start_cell(
                            x as int,
                            yi,
                        ),
                decreases 8 - y,
            {
                let ghost prev = grid@;
                grid.push(Board::initial_cell(x, y));
                proof {
                    assert forall|xi: int, yi: int|
                        0 <= xi < x as int && 0 <= yi < 8 implies #[trigger] cell(grid@, xi, yi)
                        == start_cell(xi, yi) by {
                        assert(0 <= board_idx(xi, yi) < prev.len());
                        assert(cell(grid@, xi, yi) == prev[board_idx(xi, yi)]);
                        assert(cell(prev, xi, yi) == start_cell(xi, yi));
                    }
                    assert forall|yi: int|
                        0 <= yi < y as int + 1 implies #[trigger] cell(grid@, x as int, yi)
                        == start_cell(x as int, yi) by {
                        if yi < y as int {
                            assert(0 <= board_idx(x as int, yi) < prev.len());
                            assert(cell(grid@, x as int, yi) == prev[board_idx(x as int, yi)]);
                            assert(cell(prev, x as int, yi) == start_cell(x as int, yi));
                        } else {
                            assert(board_idx(x as int, yi) == prev.len());
                        }
                    }
                }
                y = y + 1;
            }
            x = x + 1;
        }
        Board { grid, valid_moves: Vec::new() }
    }

    /// The cell of the starting position at (`x`, `y`).
    fn initial_cell(x: u8, y: u8) -> (r: Option<Piece>)
        requires
            x < 8,
            y < 8,
        ensures
            r == start_cell(x as int, y as int),
    {
        let ty: PieceType = if x == 0 || x == 7 {
            PieceType::Rook
        } else if x == 1 || x == 6 {
            PieceType::Knight
        } else if x == 2 || x == 5 {
            PieceType::Bishop
        } else if x == 3 {
            PieceType::Queen
        } else {
            PieceType::King
        };
        if y == 0 {
            Option::Some(Piece { ty, side: Side::Black })
        } else if y == 1 {
            Option::Some(Piece { ty: PieceType::Pawn, side: Side::Black })
        } else if y == 6 {
            Option::Some(Piece { ty: PieceType::Pawn, side: Side::White })
        } else if y == 7 {
            Option::Some(Piece { ty, side: Side::White })
        } else {
            Option::None
        }
    }

    /// The piece on `pos`, if the square is on the board and occupied.
    pub fn get_piece_at_pos(&self, pos: Square) -> (r: Option<Piece>)
        requires
            self.wf(),
        ensures
            r == if on_board(pos.x as int, pos.y as int) {
                cell(self.grid@, pos.x as int, pos.y as int)
            } else {
                Option::<Piece>::None
            },
    {
        if pos.x < 8 && pos.y < 8 {
            self.grid[(pos.x as usize) * 8 + (pos.y as usize)]
        } else {
            Option::None
        }
    }

    /// Puts `piece` on `pos`, replacing whatever stood there. Clears the
    /// move cache, which the changed position makes stale.
    pub fn set_piece(&mut self, pos: Square, piece: Option<Piece>)
        requires
            old(self).wf(),
            on_board(pos.x as int, pos.y as int),
        ensures
            final(self).wf(),
            final(self).grid@ == old(self).grid@.update(
                board_idx(pos.x as int, pos.y as int),
                piece,
            ),
            final(self).valid_moves@ == Seq::<(Square, Square)>::empty(),
    {
        let i: usize = (pos.x as usize) * 8 + (pos.y as usize);
        self.grid.set(i, piece);
        self.valid_moves = Vec::new();
    }
}

/// Multiplying by a unit step keeps or flips the sign.
proof fn lemma_step_mul(k: int, s: int)
    ensures
        s == 1 ==> k * s == k,
        s == -1 ==> k * s == -k,
        s == 0 ==> k * s == 0,
{
    assert(k * 1 == k) by (nonlinear_arith);
    assert(k * -1 == -k) by (nonlinear_arith);
    assert(k * 0 == 0) by (nonlinear_arith);
}

/// The cell at (`x`, `y`) of a 64-cell grid.
fn grid_at(grid: &Vec<Option<Piece>>, x: i32, y: i32) -> (r: Option<Piece>)
    requires
        grid@.len() == 64,
        on_board(x as int, y as int),
    ensures
        r == cell(grid@, x as int, y as int),
{
    grid[(x * 8 + y) as usize]
}

/// Whether every square strictly between two distinct aligned squares is
/// empty. The alignment preconditions say each coordinate either stays
/// fixed or sweeps the whole line.
fn clear_path(grid: &Vec<Option<Piece>>, sx: i32, sy: i32, dx: i32, dy: i32) -> (r: bool)
    requires
        grid@.len() == 64,
        on_board(sx as int, sy as int),
        on_board(dx as int, dy as int),
        abs_diff(sx as int, dx as int) == 0 || abs_diff(sx as int, dx as int) == line_len(
            sx as int,
            sy as int,
            dx as int,
            dy as int,
        ),
        abs_diff(sy as int, dy as int) == 0 || abs_diff(sy as int, dy as int) == line_len(
            sx as int,
            sy as int,
            dx as int,
            dy as int,
        ),
    ensures
        r == clear_between(grid@, sx as int, sy as int, dx as int, dy as int),
{
    let stepx: i32 = if dx > sx {
        1
    } else if dx < sx {
        -1
    } else {
        0
    };
    let stepy: i32 = if dy > sy {
        1
    } else if dy < sy {
        -1
    } else {
        0
    };
    let axd: i32 = if dx >= sx {
        dx - sx
    } else {
        sx - dx
    };
    let ayd: i32 = if dy >= sy {
        dy - sy
    } else {
        sy - dy
    };
    let n: i32 = if axd > ayd {
        axd
    } else {
        ayd
    };
    let mut k: i32 = 1;
    let mut cx: i32 = sx + stepx;
    let mut cy: i32 = sy + stepy;
    while k < n
        invariant
            grid@.len() == 64,
            on_board(sx as int, sy as int),
            on_board(dx as int, dy as int),
            abs_diff(sx as int, dx as int) == 0 || abs_diff(sx as int, dx as int) == n as int,
            abs_diff(sy as int, dy as int) == 0 || abs_diff(sy as int, dy as int) == n as int,
            n as int == line_len(sx as int, sy as int, dx as int, dy as int),
            stepx as int == step_toward(sx as int, dx as int),
            stepy as int == step_toward(sy as int, dy as int),
            1 <= k <= 8,
            cx as int == sx as int + k as int * stepx as int,
            cy as int == sy as int + k as int * stepy as int,
            forall|j: int|
                1 <= j < k ==> (#[trigger] path_cell(
                    grid@,
                    sx as int,
                    sy as int,
                    dx as int,
                    dy as int,
                    j,
                )) is None,
        decreases n - k,
    {
        proof {
            lemma_step_mul(k as int, stepx as int);
            lemma_step_mul(k as int, stepy as int);
        }
        let c = grid_at(grid, cx, cy);
        proof {
            assert(path_cell(grid@, sx as int, sy as int, dx as int, dy as int, k as int) == cell(
                grid@,
                cx as int,
                cy as int,
            ));
        }
        if c.is_some() {
            return false;
        }
        proof {
            lemma_step_mul(k as int + 1, stepx as int);
            lemma_step_mul(k as int + 1, stepy as int);
        }
        k = k + 1;
        cx = cx + stepx;
        cy = cy + stepy;
    }
    true
}

/// Whether side `side` may move whatever stands on `src` to `dst`;
/// equivalent to the `move_ok` rule.
pub fn move_allowed(grid: &Vec<Option<Piece>>, side: Side, src: Square, dst: Square) -> (r: bool)
    requires
        grid@.len() == 64,
    ensures
        r == move_ok(grid@, side, src, dst),
{
    if src.x >= 8 || src.y >= 8 || dst.x >= 8 || dst.y >= 8 {
        return false;
    }
    if src.x == dst.x && src.y == dst.y {
        return false;
    }
    let sx = src.x as i32;
    let sy = src.y as i32;
    let dx = dst.x as i32;
    let dy = dst.y as i32;
    let piece: Piece = match grid_at(grid, sx, sy) {
        Option::Some(p) => p,
        Option::None => {
            return false;
        },
    };
    if piece.side != side {
        return false;
    }
    match grid_at(grid, dx, dy) {
        Option::Some(q) => {
            if q.side == side {
                return false;
            }
        },
        Option::None => {},
    }
    let ax: i32 = if dx >= sx {
        dx - sx
    } else {
        sx - dx
    };
    let ay: i32 = if dy >= sy {
        dy - sy
    } else {
        sy - dy
    };
    match piece.ty {
        PieceType::Knight => (ax == 1 && ay == 2) || (ax == 2 && ay == 1),
        PieceType::King => ax <= 1 && ay <= 1,
        PieceType::Rook => (sx == dx || sy == dy) && clear_path(grid, sx, sy, dx, dy),
        PieceType::Bishop => ax == ay && clear_path(grid, sx, sy, dx, dy),
        PieceType::Queen => (sx == dx || sy == dy || ax == ay) && clear_path(grid, sx, sy, dx, dy),
        PieceType::Pawn => {
            let dir: i32 = if side == Side::White {
                -1
            } else {
                1
            };
            let start: i32 = if side == Side::White {
                6
            } else {
                1
            };
            let single = dx == sx && dy == sy + dir && grid_at(grid, dx, dy).is_none();
            let double = dx == sx && sy == start && dy == sy + 2 * dir && grid_at(
                grid,
                sx,
                sy + dir,
            ).is_none() && grid_at(grid, dx, dy).is_none();
            let capture = ax == 1 && dy == sy + dir && match grid_at(grid, dx, dy) {
                Option::Some(q) => q.side != side,
                Option::None => false,
            };
            single || double || capture
        },
    }
}

/// Whether only kings are left on the grid.
fn all_kings(grid: &Vec<Option<Piece>>) -> (r: bool)
    requires
        grid@.len() == 64,
    ensures
        r == only_kings(grid@),
{
    let mut i: usize = 0;
    while i < 64
        invariant
            grid@.len() == 64,
            i <= 64,
            forall|j: int|
                0 <= j < i ==> match #[trigger] grid@[j] {
                    Option::Some(p) => p.ty == PieceType::King,
                    Option::None => true,
                },
        decreases 64 - i,
    {
        match grid[i] {
            Option::Some(p) => {
                if !(p.ty == PieceType::King) {
                    return false;
                }
            },
            Option::None => {},
        }
        i = i + 1;
    }
    true
}

impl Board {
    /// Recomputes the cached legal-move list for `side`: every (source,
    /// destination) pair `side` may play in the current position, in
    /// enumeration order. Must be called again whenever the board or the
    /// side to move changes.
    pub fn calculate_valid_moves(&mut self, side: Side)
        requires
            old(self).wf(),
        ensures
            final(self).wf(),
            final(self).grid@ == old(self).grid@,
            final(self).moves_fresh(side),
    {
        let mut mvs: Vec<(Square, Square)> = Vec::new();
        let mut k: usize = 0;
        while k < 4096
            invariant
                self.wf(),
                self.grid@ == old(self).grid@,
                k <= 4096,
                mvs@ == moves_upto(self.grid@, side, k as nat),
            decreases 4096 - k,
        {
            let s64: usize = k / 64;
            let d64: usize = k % 64;
            let src = Square { x: (s64 / 8) as u8, y: (s64 % 8) as u8 };
            let dst = Square { x: (d64 / 8) as u8, y: (d64 % 8) as u8 };
            proof {
                assert(src == pair_of(k as int).0);
                assert(dst == pair_of(k as int).1);
            }
            if move_allowed(&self.grid, side, src, dst) {
                mvs.push((src, dst));
            }
            k = k + 1;
        }
        self.valid_moves = mvs;
    }

    /// Applies `side`'s move from `src` to `dst` if it is legal. On
    /// success the destination holds the moved piece, the source is empty,
    /// a captured piece is gone, the move cache is cleared, and the result
    /// reports a win exactly when the enemy king was captured, a draw
    /// exactly when only kings remain, and a running game otherwise. On
    /// failure the board is unchanged, and the error names whether the
    /// source square lacked a friendly piece or the destination was
    /// unreachable.
    pub fn make_move(&mut self, src: Square, dst: Square, side: Side) -> (r: Result<
        GameState,
        MoveError,
    >)
        requires
            old(self).wf(),
        ensures
            final(self).wf(),
            r is Ok <==> move_ok(old(self).grid@, side, src, dst),
            match r {
                Result::Ok(gs) => {
                    &&& final(self).grid@ == apply_move(old(self).grid@, src, dst)
                    &&& gs == outcome(old(self).grid@, side, src, dst)
                    &&& final(self).valid_moves@ == Seq::<(Square, Square)>::empty()
                },
                Result::Err(e) => {
                    &&& final(self).grid@ == old(self).grid@
                    &&& final(self).valid_moves@ == old(self).valid_moves@
                    &&& (e == MoveError::NoFriendlyPiece <==> !source_ok(
                        old(self).grid@,
                        side,
                        src,
                    ))
                },
            },
    {
        if !move_allowed(&self.grid, side, src, dst) {
            let src_good: bool = if src.x < 8 && src.y < 8 {
                match grid_at(&self.grid, src.x as i32, src.y as i32) {
                    Option::Some(p) => p.side == side,
                    Option::None => false,
                }
            } else {
                false
            };
            if src_good {
                return Result::Err(MoveError::IllegalDestination);
            } else {
                return Result::Err(MoveError::NoFriendlyPiece);
            }
        }
        let si: usize = (src.x as usize) * 8 + (src.y as usize);
        let di: usize = (dst.x as usize) * 8 + (dst.y as usize);
        let moving: Option<Piece> = self.grid[si];
        let captured: Option<Piece> = self.grid[di];
        self.grid[di] = moving;
        self.grid[si] = Option::None;
        self.valid_moves = Vec::new();
        let won: bool = match captured {
            Option::Some(p) => p.ty == PieceType::King,
            Option::None => false,
        };
        let state: GameState = if won {
            GameState::Winner(side)
        } else if all_kings(&self.grid) {
            GameState::Draw
        } else {
            GameState::Running
        };
        Result::Ok(state)
    }

    /// The static evaluation of the position from `side`'s perspective:
    /// the material balance, positive when `side` is ahead.
    pub fn evaluate(&self, side: Side) -> (r: i32)
        requires
            self.wf(),
        ensures
            r as int == eval(self.grid@, side),
    {
        let mut sum: i32 = 0;
        let mut i: usize = 0;
        while i < 64
            invariant
                self.wf(),
                i <= 64,
                sum as int == eval_upto(self.grid@, side, i as nat),
                -6400000 <= sum as int <= 6400000,
            decreases 64 - i,
        {
            let v: i32 = match self.grid[i] {
                Option::None => 0,
                Option::Some(p) => {
                    let mag: i32 = match p.ty {
                        PieceType::Pawn => 100,
                        PieceType::Knight => 300,
                        PieceType::Bishop => 300,
                        PieceType::Rook => 500,
                        PieceType::Queen => 900,
                        PieceType::King => 100000,
                    };
                    if p.side == side {
                        mag
                    } else {
                        -mag
                    }
                },
            };
            proof {
                lemma_eval_upto_bound(self.grid@, side, i as nat + 1);
            }
            sum = sum + v;
            i = i + 1;
        }
        sum
    }
}

/// The running evaluation sum over `n` cells stays within `100000 * n` of
/// zero.
proof fn lemma_eval_upto_bound(g: Seq<Option<Piece>>, side: Side, n: nat)
    ensures
        -100000 * n <= eval_upto(g, side, n) <= 100000 * n,
    decreases n,
{
    if n > 0 {
        lemma_eval_upto_bound(g, side, (n - 1) as nat);
    }
}

/// The full evaluation stays well inside the score range.
pub proof fn lemma_eval_bound(g: Seq<Option<Piece>>, side: Side)
    ensures
        -6400000 <= eval(g, side) <= 6400000,
{
    lemma_eval_upto_bound(g, side, 64);
}

proof fn lemma_eval_upto_antisym(g: Seq<Option<Piece>>, side: Side, n: nat)
    ensures
        eval_upto(g, side, n) == -eval_upto(g, flip_side(side), n),
    decreases n,
{
    if n > 0 {
        lemma_eval_upto_antisym(g, side, (n - 1) as nat);
    }
}

/// Law: evaluation is antisymmetric in the side — a position is exactly as
/// good for one side as it is bad for the other, which the negamax
/// sign-flip relies on.
pub proof fn lemma_evaluate_antisymmetric(g: Seq<Option<Piece>>, side: Side)
    ensures
        eval(g, side) == -eval(g, flip_side(side)),
{
    lemma_eval_upto_antisym(g, side, 64);
}

impl Clone for Board {
    /// An independent copy: same grid, same cached moves.
    fn clone(&self) -> (r: Board)
        ensures
            r.grid@ == self.grid@,
            r.valid_moves@ == self.valid_moves@,
    {
        Board { grid: copy_vec(&self.grid), valid_moves: copy_vec(&self.valid_moves) }
    }
}

} // verus!
