//! Depth-limited exhaustive negamax search over the board's legal moves.
//!
//! Each call scores every cached legal move of the side to move. A
//! candidate is scored on a copy of the board, so the caller's board is
//! never touched; a child position is scored from the opponent's
//! perspective and negated, which is sound because the evaluation is
//! antisymmetric between the sides.
use vstd::prelude::*;

use crate::board::{
    apply_move, eval, lemma_eval_bound, move_ok, moves_list, outcome, Board, GameState,
};
use crate::pieces::{flip_side, Piece, Side, Square};

verus! {

/// The best score: an immediate win (the enemy king is captured).
pub const SCORE_MAX: i32 = i32::MAX;

/// The worst score: a loss, and equally a draw; also the sentinel score
/// when no move exists. It is the negation of `SCORE_MAX`, so negating any
/// score stays representable, which the negamax sign flip needs.
pub const SCORE_MIN: i32 = -i32::MAX;

/// The sentinel result when the side to move has no candidate at all:
/// a zero move with the worst score. Callers must read it as "no move",
/// not as a move to play.
pub open spec fn no_move() -> ((Square, Square), int) {
    ((Square { x: 0, y: 0 }, Square { x: 0, y: 0 }), SCORE_MIN as int)
}

/// The score of one candidate move of `turn` from position `g`, searched
/// `depth` plies deeper. An illegal candidate degrades to zero rather than
/// failing; winning scores `SCORE_MAX`; a draw scores `SCORE_MIN`, exactly
/// as bad as losing; a running game is scored by the static evaluation at
/// depth zero and by the negated value of the opponent's best reply
/// otherwise.
pub open spec fn score_of(
    g: Seq<Option<Piece>>,
    depth: nat,
    turn: Side,
    src: Square,
    dst: Square,
) -> int
    decreases depth, 0int, 0int,
{
    if !move_ok(g, turn, src, dst) {
        0
    } else {
        let g2 = apply_move(g, src, dst);
        match outcome(g, turn, src, dst) {
            GameState::Winner(s) => if s == turn {
                SCORE_MAX as int
            } else {
                SCORE_MIN as int
            },
            GameState::Draw => SCORE_MIN as int,
            GameState::Running => if depth == 0 {
                eval(g2, turn)
            } else {
                -best_value(g2, (depth - 1) as nat, flip_side(turn))
            },
        }
    }
}

/// The best (move, score) pair among `moves`, scanned left to right. A
/// later candidate replaces an earlier one only with a strictly greater
/// score, so of equally good candidates the first enumerated wins.
pub open spec fn best_from(
    g: Seq<Option<Piece>>,
    depth: nat,
    turn: Side,
    moves: Seq<(Square, Square)>,
) -> ((Square, Square), int)
    decreases depth, 1int, moves.len(),
{
    if moves.len() == 0 {
        no_move()
    } else {
        let prev = best_from(g, depth, turn, moves.drop_last());
        let m = moves.last();
        let sc = score_of(g, depth, turn, m.0, m.1);
        if sc > prev.1 {
            (m, sc)
        } else {
            prev
        }
    }
}

/// The value of position `g` for `turn`: the best score over all of
/// `turn`'s legal moves, searched `depth` plies deep.
pub open spec fn best_value(g: Seq<Option<Piece>>, depth: nat, turn: Side) -> int
    decreases depth, 2int, 0int,
{
    best_from(g, depth, turn, moves_list(g, turn)).1
}

/// Every candidate score lies between `SCORE_MIN` and `SCORE_MAX`.
pub proof fn lemma_score_of_bounds(
    g: Seq<Option<Piece>>,
    depth: nat,
    turn: Side,
    src: Square,
    dst: Square,
)
    ensures
        SCORE_MIN as int <= score_of(g, depth, turn, src, dst) <= SCORE_MAX as int,
    decreases depth, 0int, 0int,
{
    if move_ok(g, turn, src, dst) {
        let g2 = apply_move(g, src, dst);
        if outcome(g, turn, src, dst) is Running {
            if depth == 0 {
                lemma_eval_bound(g2, turn);
            } else {
                lemma_best_value_bounds(g2, (depth - 1) as nat, flip_side(turn));
            }
        }
    }
}

/// The best score over any candidate list lies between `SCORE_MIN` and
/// `SCORE_MAX`.
pub proof fn lemma_best_from_bounds(
    g: Seq<Option<Piece>>,
    depth: nat,
    turn: Side,
    moves: Seq<(Square, Square)>,
)
    ensures
        SCORE_MIN as int <= best_from(g, depth, turn, moves).1 <= SCORE_MAX as int,
    decreases depth, 1int, moves.len(),
{
    if moves.len() > 0 {
        lemma_best_from_bounds(g, depth, turn, moves.drop_last());
        lemma_score_of_bounds(g, depth, turn, moves.last().0, moves.last().1);
    }
}

/// A position's value lies between `SCORE_MIN` and `SCORE_MAX`.
pub proof fn lemma_best_value_bounds(g: Seq<Option<Piece>>, depth: nat, turn: Side)
    ensures
        SCORE_MIN as int <= best_value(g, depth, turn) <= SCORE_MAX as int,
    decreases depth, 2int, 0int,
{
    lemma_best_from_bounds(g, depth, turn, moves_list(g, turn));
}

/// Law: the search result is the maximum of the candidate scores, with
/// ties broken toward the earliest candidate. It is at least every
/// candidate's score; and it is either the sentinel — whose score no
/// candidate beats — or the first candidate achieving it, every earlier
/// candidate scoring strictly worse.
pub proof fn lemma_best_from_is_max(
    g: Seq<Option<Piece>>,
    depth: nat,
    turn: Side,
    moves: Seq<(Square, Square)>,
)
    ensures
        forall|i: int|
            0 <= i < moves.len() ==> best_from(g, depth, turn, moves).1 >= score_of(
                g,
                depth,
                turn,
                (#[trigger] moves[i]).0,
                moves[i].1,
            ),
        best_from(g, depth, turn, moves) == no_move() || exists|i: int|
            0 <= i < moves.len() && #[trigger] best_is_candidate(g, depth, turn, moves, i),
    decreases moves.len(),
{
    if moves.len() > 0 {
        let prev = best_from(g, depth, turn, moves.drop_last());
        let m = moves.last();
        let sc = score_of(g, depth, turn, m.0, m.1);
        let b = best_from(g, depth, turn, moves);
        lemma_best_from_is_max(g, depth, turn, moves.drop_last());
        assert forall|i: int|
            0 <= i < moves.len() implies b.1 >= score_of(
            g,
            depth,
            turn,
            (#[trigger] moves[i]).0,
            moves[i].1,
        ) by {
            if i < moves.len() - 1 {
                assert(moves.drop_last()[i] == moves[i]);
                assert(prev.1 >= score_of(g, depth, turn, moves[i].0, moves[i].1));
            } else {
                assert(moves[i] == m);
            }
        }
        if sc > prev.1 {
            let last = moves.len() - 1;
            assert(moves[last] == m);
            assert forall|j: int| 0 <= j < last implies score_of(
                g,
                depth,
                turn,
                (#[trigger] moves[j]).0,
                moves[j].1,
            ) < b.1 by {
                assert(moves.drop_last()[j] == moves[j]);
                assert(prev.1 >= score_of(g, depth, turn, moves[j].0, moves[j].1));
            }
            assert(best_is_candidate(g, depth, turn, moves, last));
        } else {
            if prev != no_move() {
                let i = choose|i: int|
                    0 <= i < moves.drop_last().len() && #[trigger] best_is_candidate(
                        g,
                        depth,
                        turn,
                        moves.drop_last(),
                        i,
                    );
                assert(moves.drop_last()[i] == moves[i]);
                assert forall|j: int| 0 <= j < i implies score_of(
                    g,
                    depth,
                    turn,
                    (#[trigger] moves[j]).0,
                    moves[j].1,
                ) < b.1 by {
                    assert(moves.drop_last()[j] == moves[j]);
                }
                assert(best_is_candidate(g, depth, turn, moves, i));
            }
        }
    }
}

/// The search result over `moves` is exactly candidate `i` with its own
/// score, and every earlier candidate scores strictly worse — `i` is the
/// first maximizer.
pub open spec fn best_is_candidate(
    g: Seq<Option<Piece>>,
    depth: nat,
    turn: Side,
    moves: Seq<(Square, Square)>,
    i: int,
) -> bool {
    &&& best_from(g, depth, turn, moves) == (
        moves[i],
        score_of(g, depth, turn, moves[i].0, moves[i].1),
    )
    &&& forall|j: int|
        0 <= j < i ==> score_of(g, depth, turn, (#[trigger] moves[j]).0, moves[j].1) < best_from(
            g,
            depth,
            turn,
            moves,
        ).1
}

/// Law: at depth zero the search does not deepen — a candidate that keeps
/// the game running is scored by the static evaluation of the position
/// after it, from the mover's own perspective.
pub proof fn lemma_depth_zero_score(g: Seq<Option<Piece>>, turn: Side, src: Square, dst: Square)
    requires
        move_ok(g, turn, src, dst),
        outcome(g, turn, src, dst) is Running,
    ensures
        score_of(g, 0, turn, src, dst) == eval(apply_move(g, src, dst), turn),
{
}

/// Explores every cached legal move of `turn`, each on its own copy of the
/// board — the given board is only read — and returns the first candidate
/// with the best score, or the zero-square sentinel with `SCORE_MIN` when
/// no move exists. The cached move list must have been computed for
/// `turn`. `is_top` marks the root call of the recursion; the result does
/// not depend on it, and the root progress reporting of the surrounding
/// application is not part of the search.
#[allow(unused_variables)]
pub fn compute_best_move(board: &Board, depth: usize, turn: Side, is_top: bool) -> (r: (
    (Square, Square),
    i32,
))
    requires
        board.wf(),
        board.moves_fresh(turn),
    ensures
        (r.0, r.1 as int) == best_from(board.grid@, depth as nat, turn, board.valid_moves@),
    decreases depth,
{
    let ghost g = board.grid@;
    let mut best_src = Square::new(0, 0);
    let mut best_dst = Square::new(0, 0);
    let mut best_score: i32 = SCORE_MIN;
    let mut idx: usize = 0;
    while idx < board.valid_moves.len()
        invariant
            board.wf(),
            board.moves_fresh(turn),
            g == board.grid@,
            idx <= board.valid_moves.len(),
            ((best_src, best_dst), best_score as int) == best_from(
                g,
                depth as nat,
                turn,
                board.valid_moves@.take(idx as int),
            ),
        decreases board.valid_moves.len() - idx,
    {
        let (src, dst) = board.valid_moves[idx];
        let mut child = board.clone();
        let score: i32 = match child.make_move(src, dst, turn) {
            Result::Ok(state) => match state {
                GameState::Running => {
                    if depth == 0 {
                        child.evaluate(turn)
                    } else {
                        child.calculate_valid_moves(turn.other());
                        let sub = compute_best_move(&child, depth - 1, turn.other(), false);
                        proof {
                            lemma_best_from_bounds(
                                child.grid@,
                                (depth - 1) as nat,
                                flip_side(turn),
                                child.valid_moves@,
                            );
                        }
                        -sub.1
                    }
                },
                GameState::Winner(side) => if side == turn {
                    SCORE_MAX
                } else {
                    SCORE_MIN
                },
                GameState::Draw => SCORE_MIN,
            },
            Result::Err(_) => 0,
        };
        proof {
            assert(score as int == score_of(g, depth as nat, turn, src, dst));
            assert(board.valid_moves@.take(idx as int + 1) =~= board.valid_moves@.take(
                idx as int,
            ).push((src, dst)));
            assert(board.valid_moves@.take(idx as int + 1).drop_last() =~= board.valid_moves@.take(
                idx as int,
            ));
            assert(board.valid_moves@.take(idx as int + 1).last() == (src, dst));
        }
        if score > best_score {
            best_src = src;
            best_dst = dst;
            best_score = score;
        }
        idx = idx + 1;
    }
    proof {
        assert(board.valid_moves@.take(board.valid_moves@.len() as int) =~= board.valid_moves@);
    }
    ((best_src, best_dst), best_score)
}

} // verus!
