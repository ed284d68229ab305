//! What the search finds: the value of a position is its negamax value, and
//! the move that the search picks is the first move with the best value.
//! Pruning changes neither.

use vstd::prelude::*;
use crate::chessembly::board::{make_move, BoardView};
use crate::chessembly::rules::{in_check, legal_moves};
use crate::engine::search::{
    best_from, best_index, evaluation, larger, material_upto, score, score_bound, score_from,
    INFINITE_SCORE, MATE_SCORE,
};

verus! {

/// The value of a position for the side that is to move, `depth` plies
/// deep: the evaluation at depth 0; without a legal move the score of a
/// mate, or 0 where the side is not in check; else the best value of a move.
pub open spec fn value(b: BoardView, depth: nat) -> int
    decreases depth, 2nat, 0nat,
{
    if depth == 0 {
        evaluation(b)
    } else if legal_moves(b).len() == 0 {
        if in_check(b, b.turn) {
            -(MATE_SCORE + depth)
        } else {
            0
        }
    } else {
        best_value(b, depth, legal_moves(b).len() as int)
    }
}

/// The best value among the first `n` legal moves: the value of a move is
/// what the position after it is worth to the side that has made it.
pub open spec fn best_value(b: BoardView, depth: nat, n: int) -> int
    decreases depth, 1nat, n,
{
    if depth == 0 || n <= 0 || n > legal_moves(b).len() {
        -INFINITE_SCORE as int
    } else {
        larger(
            best_value(b, depth, n - 1),
            -value(make_move(b, legal_moves(b)[n - 1], true), (depth - 1) as nat),
        )
    }
}

/// The value of the `i`-th legal move.
pub open spec fn move_value(b: BoardView, depth: nat, i: int) -> int {
    -value(make_move(b, legal_moves(b)[i], true), (depth - 1) as nat)
}

/// The first of the first `n` legal moves that has the best value of them.
pub open spec fn first_best(b: BoardView, depth: nat, n: int) -> int
    decreases n,
{
    if n <= 1 {
        0
    } else {
        let k = first_best(b, depth, n - 1);
        if move_value(b, depth, n - 1) > move_value(b, depth, k) {
            n - 1
        } else {
            k
        }
    }
}

proof fn lemma_material_bound(b: BoardView, n: int)
    requires
        0 <= n <= 64,
    ensures
        -1000 * n <= material_upto(b, n) <= 1000 * n,
    decreases n,
{
    if n > 0 {
        lemma_material_bound(b, n - 1);
    }
}

/// Every value lies within the bound of the scores.
pub proof fn lemma_value_bound(b: BoardView, depth: nat)
    requires
        depth <= 255,
    ensures
        -score_bound() <= value(b, depth) <= score_bound(),
    decreases depth, 2nat, 0nat,
{
    if depth == 0 {
        lemma_material_bound(b, 64);
    } else if legal_moves(b).len() > 0 {
        lemma_best_value_bound(b, depth, legal_moves(b).len() as int);
    }
}

proof fn lemma_best_value_bound(b: BoardView, depth: nat, n: int)
    requires
        0 < depth <= 255,
        0 <= n <= legal_moves(b).len(),
    ensures
        n == 0 ==> best_value(b, depth, n) == -INFINITE_SCORE,
        n > 0 ==> -score_bound() <= best_value(b, depth, n) <= score_bound(),
    decreases depth, 1nat, n,
{
    if n > 0 {
        lemma_best_value_bound(b, depth, n - 1);
        lemma_value_bound(make_move(b, legal_moves(b)[n - 1], true), (depth - 1) as nat);
    }
}

/// What a score says of the value, given the window of the search.
pub open spec fn bounds_value(r: int, v: int, alpha: int, beta: int) -> bool {
    &&& r <= alpha ==> v <= r
    &&& r >= beta ==> v >= r
    &&& alpha < r < beta ==> v == r
}

/// The score of a search within a window is the value where it lies within
/// the window, and bounds the value from the side on which it lies outside.
pub proof fn lemma_score_bounds_value(b: BoardView, depth: nat, alpha: int, beta: int)
    requires
        depth <= 255,
        -INFINITE_SCORE <= alpha < beta <= INFINITE_SCORE,
    ensures
        bounds_value(score(b, depth, alpha, beta), value(b, depth), alpha, beta),
        -score_bound() <= score(b, depth, alpha, beta) <= score_bound(),
    decreases depth, 2nat, 0nat,
{
    lemma_value_bound(b, depth);
    if depth > 0 && legal_moves(b).len() > 0 {
        lemma_best_value_bound(b, depth, 0);
        lemma_score_from_bounds_value(b, depth, alpha, beta, 0, -INFINITE_SCORE as int);
    }
}

/// The same of the search from the `i`-th move on, `best` being what the
/// moves before it have shown.
proof fn lemma_score_from_bounds_value(
    b: BoardView,
    depth: nat,
    alpha: int,
    beta: int,
    i: int,
    best: int,
)
    requires
        0 < depth <= 255,
        -INFINITE_SCORE <= alpha < beta <= INFINITE_SCORE,
        0 <= i <= legal_moves(b).len(),
        legal_moves(b).len() > 0,
        i == 0 ==> best == -INFINITE_SCORE,
        i > 0 ==> -score_bound() <= best <= score_bound(),
        best < beta,
        best_value(b, depth, i) <= larger(alpha, best),
        best > alpha ==> best == best_value(b, depth, i),
        best <= alpha ==> best_value(b, depth, i) <= best,
    ensures
        bounds_value(
            score_from(b, depth, alpha, beta, i, best),
            best_value(b, depth, legal_moves(b).len() as int),
            alpha,
            beta,
        ),
        -score_bound() <= score_from(b, depth, alpha, beta, i, best) <= score_bound(),
    decreases depth, 1nat, legal_moves(b).len() - i,
{
    let n = legal_moves(b).len() as int;
    if i < n {
        let child = make_move(b, legal_moves(b)[i], true);
        let a = larger(alpha, best);
        lemma_score_bounds_value(child, (depth - 1) as nat, -beta, -a);
        lemma_value_bound(child, (depth - 1) as nat);
        let s = -score(child, (depth - 1) as nat, -beta, -a);
        let cv = -value(child, (depth - 1) as nat);
        assert(best_value(b, depth, i + 1) == larger(best_value(b, depth, i), cv));
        if s >= beta {
            lemma_best_value_grows(b, depth, i + 1, n);
        } else {
            lemma_score_from_bounds_value(b, depth, alpha, beta, i + 1, larger(best, s));
        }
    } else {
        lemma_best_value_bound(b, depth, n);
    }
}

proof fn lemma_best_value_grows(b: BoardView, depth: nat, i: int, n: int)
    requires
        0 <= i <= n <= legal_moves(b).len(),
        depth > 0,
    ensures
        best_value(b, depth, i) <= best_value(b, depth, n),
    decreases n - i,
{
    if i < n {
        lemma_best_value_grows(b, depth, i, n - 1);
    }
}

/// The first best move has the best value.
proof fn lemma_first_best_is_best(b: BoardView, depth: nat, n: int)
    requires
        0 < depth <= 255,
        1 <= n <= legal_moves(b).len(),
    ensures
        0 <= first_best(b, depth, n) < n,
        move_value(b, depth, first_best(b, depth, n)) == best_value(b, depth, n),
    decreases n,
{
    if n > 1 {
        lemma_first_best_is_best(b, depth, n - 1);
    } else {
        assert(best_value(b, depth, 0) == -INFINITE_SCORE);
        lemma_value_bound(make_move(b, legal_moves(b)[0], true), (depth - 1) as nat);
    }
}

proof fn lemma_best_from(b: BoardView, depth: nat, i: int, at: int, best: int)
    requires
        0 < depth <= 255,
        0 <= i <= legal_moves(b).len(),
        legal_moves(b).len() > 0,
        i == 0 ==> best == -INFINITE_SCORE && at == 0,
        i > 0 ==> at == first_best(b, depth, i) && best == best_value(b, depth, i),
    ensures
        best_from(b, depth, i, at, best) == first_best(b, depth, legal_moves(b).len() as int),
    decreases legal_moves(b).len() - i,
{
    let n = legal_moves(b).len() as int;
    if i < n {
        let child = make_move(b, legal_moves(b)[i], true);
        if i > 0 {
            lemma_first_best_is_best(b, depth, i);
            lemma_best_value_bound(b, depth, i);
        }
        lemma_score_bounds_value(child, (depth - 1) as nat, -INFINITE_SCORE as int, -best);
        lemma_value_bound(child, (depth - 1) as nat);
        let s = -score(child, (depth - 1) as nat, -INFINITE_SCORE as int, -best);
        assert(best_value(b, depth, i + 1) == larger(best_value(b, depth, i), move_value(b, depth, i)));
        if s > best {
            lemma_best_from(b, depth, i + 1, i, s);
        } else {
            lemma_best_from(b, depth, i + 1, at, best);
        }
    }
}

/// The search finds the value of the position: pruning does not change it.
pub proof fn lemma_search_finds_the_value(b: BoardView, depth: nat)
    requires
        depth <= 255,
    ensures
        score(b, depth, -INFINITE_SCORE as int, INFINITE_SCORE as int) == value(b, depth),
{
    lemma_score_bounds_value(b, depth, -INFINITE_SCORE as int, INFINITE_SCORE as int);
}

/// The move that the search picks is the first of the legal moves with the
/// best value: no other move leaves the mover better off after the other
/// side's best play, and every move before it leaves the mover worse off.
pub proof fn lemma_search_picks_the_first_best(b: BoardView, depth: nat)
    requires
        0 < depth <= 255,
        legal_moves(b).len() > 0,
    ensures
        best_index(b, depth) == first_best(b, depth, legal_moves(b).len() as int),
        0 <= best_index(b, depth) < legal_moves(b).len(),
        forall|i: int|
            0 <= i < legal_moves(b).len() ==> #[trigger] move_value(b, depth, i) <= move_value(
                b,
                depth,
                best_index(b, depth),
            ),
        forall|i: int|
            0 <= i < best_index(b, depth) ==> #[trigger] move_value(b, depth, i) < move_value(
                b,
                depth,
                best_index(b, depth),
            ),
{
    let n = legal_moves(b).len() as int;
    lemma_best_from(b, depth, 0, 0, -INFINITE_SCORE as int);
    lemma_first_best_is_best(b, depth, n);
    assert forall|i: int| 0 <= i < n implies #[trigger] move_value(b, depth, i) <= move_value(
        b,
        depth,
        first_best(b, depth, n),
    ) by {
        lemma_first_best_leads(b, depth, n, i);
    }
    assert forall|i: int| 0 <= i < first_best(b, depth, n) implies #[trigger] move_value(
        b,
        depth,
        i,
    ) < move_value(b, depth, first_best(b, depth, n)) by {
        lemma_first_best_leads(b, depth, n, i);
    }
}

/// Among the first `n` moves none is better than the first best, and none
/// before it is as good.
proof fn lemma_first_best_leads(b: BoardView, depth: nat, n: int, i: int)
    requires
        1 <= n,
        0 <= i < n,
    ensures
        0 <= first_best(b, depth, n) < n,
        move_value(b, depth, i) <= move_value(b, depth, first_best(b, depth, n)),
        i < first_best(b, depth, n) ==> move_value(b, depth, i) < move_value(
            b,
            depth,
            first_best(b, depth, n),
        ),
    decreases n,
{
    if n > 1 {
        if i < n - 1 {
            lemma_first_best_leads(b, depth, n - 1, i);
        } else {
            lemma_first_best_leads(b, depth, n - 1, 0);
        }
    }
}

} // verus!
