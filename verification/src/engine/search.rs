//! Fixed-depth negamax with alpha-beta pruning over the legal moves, with a
//! static evaluation by material.

use vstd::prelude::*;
use crate::chessembly::board::{Board, BoardView, make_move};
use crate::chessembly::legal::MoveGen;
use crate::chessembly::rules::{in_check, legal_moves};
use crate::engine::minimax::{first_best, lemma_search_picks_the_first_best, move_value};
use crate::chessembly::{ChessMove, Color, list_view, PieceSpan, Position, Square, square_at};
use crate::text::same_text;

verus! {

/// The score of a side that is mated at once. A mate that is further away
/// scores less.
pub const MATE_SCORE: i32 = 1000000;

/// A score beyond every score of a position.
pub const INFINITE_SCORE: i32 = 2000000;

/// The deepest search.
pub const MAX_DEPTH: u8 = 4;

/// Why a search has no move to give.
#[derive(Copy, Clone, PartialEq, Eq, Debug, Structural)]
pub enum SearchError {
    /// The depth is not between 1 and the deepest search.
    BadDepth,
    /// The side to move has no legal move.
    NoMove,
}

/// What a piece is worth, by its kind. A kind that is not listed is worth a
/// minor piece.
pub open spec fn piece_value(kind: Seq<char>) -> int {
    if kind == "pawn"@ || kind == "mirrored-pawn"@ {
        1
    } else if kind == "knight"@ || kind == "bishop"@ || kind == "mirrored-knight"@ || kind
        == "mirrored-bishop"@ {
        3
    } else if kind == "rook"@ || kind == "mirrored-rook"@ || kind == "tempest-rook"@ || kind
        == "windmill-rook"@ {
        5
    } else if kind == "queen"@ || kind == "mirrored-queen"@ {
        9
    } else if kind == "king"@ {
        1000
    } else if kind == "amazon"@ {
        12
    } else if kind == "chancellor"@ {
        8
    } else if kind == "archbishop"@ {
        7
    } else if kind == "centaur"@ {
        6
    } else if kind == "bouncing-bishop"@ || kind == "windmill-bishop"@ || kind == "chameleon"@ {
        4
    } else if kind == "alfil"@ || kind == "dozer"@ {
        2
    } else {
        3
    }
}

/// What a square adds to White's material.
pub open spec fn square_value(s: Square) -> int {
    match s {
        Square::Empty => 0,
        Square::Occupied { kind, color } => if color == Color::White {
            piece_value(kind)
        } else {
            -piece_value(kind)
        },
    }
}

/// White's material less Black's on the first `n` squares.
pub open spec fn material_upto(b: BoardView, n: int) -> int
    decreases n,
{
    if n <= 0 {
        0
    } else {
        material_upto(b, n - 1) + square_value(b.at(square_at(n - 1)))
    }
}

/// The material of the side that is to move less that of the other side.
pub open spec fn evaluation(b: BoardView) -> int {
    if b.turn == Color::White {
        material_upto(b, 64)
    } else {
        -material_upto(b, 64)
    }
}

/// The larger of two scores.
pub open spec fn larger(a: int, b: int) -> int {
    if a >= b {
        a
    } else {
        b
    }
}

/// The score of a position for the side that is to move, searched `depth`
/// plies deep within the window from `alpha` to `beta`: the evaluation at
/// depth 0; without a legal move the score of a mate, or 0 where the side is
/// not in check; else the best of its moves.
pub open spec fn score(b: BoardView, depth: nat, alpha: int, beta: int) -> int
    decreases depth, 2nat, 0nat,
{
    if depth == 0 {
        evaluation(b)
    } else if legal_moves(b).len() == 0 {
        if in_check(b, b.turn) {
            -(MATE_SCORE + depth)
        } else {
            0
        }
    } else {
        score_from(b, depth, alpha, beta, 0, -INFINITE_SCORE as int)
    }
}

/// The best score among the moves from the `i`-th on, `best` being the best
/// before them. The search of the moves ends where one reaches `beta`.
pub open spec fn score_from(b: BoardView, depth: nat, alpha: int, beta: int, i: int, best: int)
    -> int
    decreases depth, 1nat, legal_moves(b).len() - i,
{
    if depth == 0 || i < 0 || i >= legal_moves(b).len() {
        best
    } else {
        let child = make_move(b, legal_moves(b)[i], true);
        let s = -score(child, (depth - 1) as nat, -beta, -larger(alpha, best));
        if s >= beta {
            larger(best, s)
        } else {
            score_from(b, depth, alpha, beta, i + 1, larger(best, s))
        }
    }
}

/// The index of the best move from the `i`-th on, `at` being the best before
/// them with the score `best`. Of two moves with the same score the earlier
/// one is the better.
pub open spec fn best_from(b: BoardView, depth: nat, i: int, at: int, best: int) -> int
    decreases legal_moves(b).len() - i,
{
    if depth == 0 || i < 0 || i >= legal_moves(b).len() {
        at
    } else {
        let child = make_move(b, legal_moves(b)[i], true);
        let s = -score(child, (depth - 1) as nat, -INFINITE_SCORE as int, -best);
        if s > best {
            best_from(b, depth, i + 1, i, s)
        } else {
            best_from(b, depth, i + 1, at, best)
        }
    }
}

/// The index of the best legal move of a position that has one.
pub open spec fn best_index(b: BoardView, depth: nat) -> int {
    best_from(b, depth, 0, 0, -INFINITE_SCORE as int)
}

/// The bound of every score.
pub open spec fn score_bound() -> int {
    MATE_SCORE + 255
}

fn value_of(kind: &str) -> (r: i32)
    ensures
        r == piece_value(kind@),
        1 <= r <= 1000,
{
    if same_text(kind, "pawn") || same_text(kind, "mirrored-pawn") {
        1
    } else if same_text(kind, "knight") || same_text(kind, "bishop") || same_text(
        kind,
        "mirrored-knight",
    ) || same_text(kind, "mirrored-bishop") {
        3
    } else if same_text(kind, "rook") || same_text(kind, "mirrored-rook") || same_text(
        kind,
        "tempest-rook",
    ) || same_text(kind, "windmill-rook") {
        5
    } else if same_text(kind, "queen") || same_text(kind, "mirrored-queen") {
        9
    } else if same_text(kind, "king") {
        1000
    } else if same_text(kind, "amazon") {
        12
    } else if same_text(kind, "chancellor") {
        8
    } else if same_text(kind, "archbishop") {
        7
    } else if same_text(kind, "centaur") {
        6
    } else if same_text(kind, "bouncing-bishop") || same_text(kind, "windmill-bishop")
        || same_text(kind, "chameleon") {
        4
    } else if same_text(kind, "alfil") || same_text(kind, "dozer") {
        2
    } else {
        3
    }
}

/// The material of the side that is to move less that of the other side.
pub fn evaluate(board: &Board) -> (r: i32)
    requires
        board.wf(),
    ensures
        r == evaluation(board@),
        -64000 <= r <= 64000,
{
    let mut sum: i32 = 0;
    let mut i: u8 = 0;
    while i < 64
        invariant
            i <= 64,
            board.wf(),
            sum == material_upto(board@, i as int),
            -1000 * i <= sum <= 1000 * i,
        decreases 64 - i,
    {
        let p: Position = (i % 8, i / 8);
        assert(p == square_at(i as int));
        match board.square(&p) {
            PieceSpan::Piece(piece) => {
                let v = value_of(piece.piece_type);
                match piece.color {
                    Color::White => {
                        sum = sum + v;
                    },
                    Color::Black => {
                        sum = sum - v;
                    },
                }
            },
            PieceSpan::Empty => {},
        }
        i = i + 1;
    }
    match board.side_to_move() {
        Color::White => sum,
        Color::Black => -sum,
    }
}

fn larger_of(a: i32, b: i32) -> (r: i32)
    ensures
        r == larger(a as int, b as int),
{
    if a >= b {
        a
    } else {
        b
    }
}

/// The score of a position for the side that is to move.
fn search<'a>(board: &mut Board<'a>, depth: u8, alpha: i32, beta: i32) -> (r: i32)
    requires
        old(board).wf(),
        -INFINITE_SCORE <= alpha <= INFINITE_SCORE,
        -INFINITE_SCORE <= beta <= INFINITE_SCORE,
    ensures
        final(board).wf(),
        final(board)@ == old(board)@,
        r == score(old(board)@, depth as nat, alpha as int, beta as int),
        -score_bound() <= r <= score_bound(),
    decreases depth,
{
    if depth == 0 {
        return evaluate(board);
    }
    let ghost b = board@;
    let moves = MoveGen::new_legal(board);
    if moves.len() == 0 {
        let script = board.script();
        let turn = board.side_to_move();
        if script.is_check(board, turn) {
            return -(MATE_SCORE + depth as i32);
        } else {
            return 0;
        }
    }
    let mut best: i32 = -INFINITE_SCORE;
    let mut i: usize = 0;
    while i < moves.len()
        invariant
            i <= moves@.len(),
            depth > 0,
            board.wf(),
            board@ == b,
            b == old(board)@,
            list_view(moves@) == legal_moves(b),
            -INFINITE_SCORE <= alpha <= INFINITE_SCORE,
            -INFINITE_SCORE <= beta <= INFINITE_SCORE,
            best == -INFINITE_SCORE || -score_bound() <= best <= score_bound(),
            i > 0 ==> -score_bound() <= best <= score_bound(),
            score_from(b, depth as nat, alpha as int, beta as int, i as int, best as int)
                == score(b, depth as nat, alpha as int, beta as int),
        decreases moves@.len() - i,
    {
        proof {
            assert(list_view(moves@)[i as int] == moves@[i as int]@);
        }
        let mut child = board.make_move_new_nc(&moves[i], true);
        let floor = larger_of(alpha, best);
        let s = -search(&mut child, depth - 1, -beta, -floor);
        best = larger_of(best, s);
        if s >= beta {
            return best;
        }
        i = i + 1;
    }
    best
}

/// The best move of the side to move, searched `depth` plies deep: the
/// first of the legal moves, in the order of their generation, after which
/// the other side's best play leaves the mover with the highest value. No
/// move has a higher value, and every move before it has a lower one. There
/// is no move for a depth outside 1 to 4, nor where the side has no legal
/// move.
pub fn find_best_move<'a>(board: &mut Board<'a>, depth: u8) -> (r: Result<ChessMove<'a>, SearchError>)
    requires
        old(board).wf(),
    ensures
        final(board).wf(),
        final(board)@ == old(board)@,
        r == Err::<ChessMove<'a>, SearchError>(SearchError::BadDepth) <==> depth == 0 || depth
            > MAX_DEPTH,
        r == Err::<ChessMove<'a>, SearchError>(SearchError::NoMove) <==> 1 <= depth <= MAX_DEPTH
            && legal_moves(old(board)@).len() == 0,
        r matches Ok(m) ==> {
            let b = old(board)@;
            let at = first_best(b, depth as nat, legal_moves(b).len() as int);
            &&& 0 <= at < legal_moves(b).len()
            &&& m@ == legal_moves(b)[at]
            &&& forall|i: int|
                0 <= i < legal_moves(b).len() ==> #[trigger] move_value(b, depth as nat, i)
                    <= move_value(b, depth as nat, at)
            &&& forall|i: int|
                0 <= i < at ==> #[trigger] move_value(b, depth as nat, i) < move_value(
                    b,
                    depth as nat,
                    at,
                )
        },
{
    if depth == 0 || depth > MAX_DEPTH {
        return Err(SearchError::BadDepth);
    }
    let ghost b = board@;
    let moves = MoveGen::new_legal(board);
    if moves.len() == 0 {
        return Err(SearchError::NoMove);
    }
    let mut best: i32 = -INFINITE_SCORE;
    let mut at: usize = 0;
    let mut i: usize = 0;
    while i < moves.len()
        invariant
            i <= moves@.len(),
            at < moves@.len(),
            1 <= depth <= MAX_DEPTH,
            board.wf(),
            board@ == b,
            list_view(moves@) == legal_moves(b),
            best == -INFINITE_SCORE || -score_bound() <= best <= score_bound(),
            best_from(b, depth as nat, i as int, at as int, best as int) == best_index(
                b,
                depth as nat,
            ),
        decreases moves@.len() - i,
    {
        proof {
            assert(list_view(moves@)[i as int] == moves@[i as int]@);
        }
        let mut child = board.make_move_new_nc(&moves[i], true);
        let s = -search(&mut child, depth - 1, -INFINITE_SCORE, -best);
        if s > best {
            best = s;
            at = i;
        }
        i = i + 1;
    }
    proof {
        assert(list_view(moves@)[at as int] == moves@[at as int]@);
        lemma_search_picks_the_first_best(b, depth as nat);
    }
    Ok(moves[at].duplicate())
}

} // verus!
