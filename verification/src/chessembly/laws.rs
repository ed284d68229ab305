//! Laws of the game: what a move leaves untouched, what every legal move
//! keeps, when a king castles, and how many bits the mask of attacked
//! squares has.

use vstd::prelude::*;
use crate::chessembly::board::{BoardView, make_move};
use crate::chessembly::catalog::{king_moves, king_steps, own_rook, piece_moves};
use crate::chessembly::legal_laws::lemma_attack_mask_layout;
use crate::chessembly::machine::danger_bit;
use crate::chessembly::rules::{
    attack_mask, attacked_by, check_filter, in_check, legal_all_upto, legal_moves, legal_square,
    loud_moves, survives,
};
use crate::chessembly::{Color, MoveType, MoveView, on_board, Position, square_at, square_index};

verus! {

/// Whether `p` is one of the two squares between which castling carries the
/// rook.
pub open spec fn is_rook_square_of(m: MoveView, p: Position) -> bool {
    m.move_type == MoveType::Castling && p.1 == m.move_to.1 && ((m.move_to.0 == 6 && (p.0 == 7
        || p.0 == 5)) || (m.move_to.0 == 2 && (p.0 == 0 || p.0 == 3)))
}

/// A move changes no square but its source, its capture square and its
/// landing square, and in castling the two squares of the rook: every other
/// square holds after the move what it held before.
pub proof fn lemma_move_leaves_other_squares(
    b: BoardView,
    m: MoveView,
    keep_enpassant: bool,
    p: Position,
)
    requires
        b.wf(),
        p != m.from,
        p != m.take,
        p != m.move_to,
        !is_rook_square_of(m, p),
    ensures
        make_move(b, m, keep_enpassant).wf(),
        make_move(b, m, keep_enpassant).at(p) == b.at(p),
{
    if on_board(p) {
        if on_board(m.from) {
            lemma_index_is_one_to_one(p, m.from);
        }
        if on_board(m.take) {
            lemma_index_is_one_to_one(p, m.take);
        }
        if on_board(m.move_to) {
            lemma_index_is_one_to_one(p, m.move_to);
            lemma_index_is_one_to_one(p, (7, m.move_to.1));
            lemma_index_is_one_to_one(p, (5, m.move_to.1));
            lemma_index_is_one_to_one(p, (0, m.move_to.1));
            lemma_index_is_one_to_one(p, (3, m.move_to.1));
        }
    }
}

/// Two squares of the board with the same place in the grid are the same
/// square.
pub proof fn lemma_index_is_one_to_one(p: Position, q: Position)
    requires
        on_board(p),
        on_board(q),
    ensures
        square_index(p) == square_index(q) <==> p == q,
        0 <= square_index(p) < 64,
{
}

/// A move moves nothing but the turn, the squares and the two sides'
/// states: the program and the modes stay.
pub proof fn lemma_move_keeps_the_rules(b: BoardView, m: MoveView, keep_enpassant: bool)
    ensures
        make_move(b, m, keep_enpassant).program == b.program,
        make_move(b, m, keep_enpassant).macho == b.macho,
        make_move(b, m, keep_enpassant).imprisoned == b.imprisoned,
        make_move(b, m, keep_enpassant).turn == b.turn.inverted(),
{
}

proof fn lemma_check_filter_survives(b: BoardView, nodes: Seq<MoveView>)
    ensures
        forall|i: int|
            0 <= i < check_filter(b, nodes).len() ==> survives(b, #[trigger] check_filter(b, nodes)[i]),
    decreases nodes.len(),
{
    if nodes.len() > 0 {
        lemma_check_filter_survives(b, nodes.drop_last());
        let rest = check_filter(b, nodes.drop_last());
        assert forall|i: int| 0 <= i < check_filter(b, nodes).len() implies survives(
            b,
            #[trigger] check_filter(b, nodes)[i],
        ) by {
            if i < rest.len() {
                assert(check_filter(b, nodes)[i] == rest[i]);
            }
        }
    }
}

proof fn lemma_legal_upto_survives(b: BoardView, color: Color, n: int)
    requires
        !b.macho,
    ensures
        forall|i: int|
            0 <= i < legal_all_upto(b, color, n).len() ==> survives(
                b,
                #[trigger] legal_all_upto(b, color, n)[i],
            ),
    decreases n,
{
    if n > 0 {
        lemma_legal_upto_survives(b, color, n - 1);
        lemma_check_filter_survives(b, loud_moves(b, square_at(n - 1)));
        let before = legal_all_upto(b, color, n - 1);
        let here = legal_square(b, square_at(n - 1));
        assert forall|i: int| 0 <= i < legal_all_upto(b, color, n).len() implies survives(
            b,
            #[trigger] legal_all_upto(b, color, n)[i],
        ) by {
            if i < before.len() {
                assert(legal_all_upto(b, color, n)[i] == before[i]);
            } else {
                assert(legal_all_upto(b, color, n)[i] == here[i - before.len()]);
            }
        }
    }
}

/// Where the forward-only mode is off, no legal move leaves the side that
/// makes it in check.
pub proof fn lemma_legal_moves_leave_no_check(b: BoardView, i: int)
    requires
        !b.macho,
        0 <= i < legal_moves(b).len(),
    ensures
        !in_check(make_move(b, legal_moves(b)[i], false), b.turn),
{
    lemma_legal_upto_survives(b, b.turn, 64);
}

proof fn lemma_king_steps_are_steps(b: BoardView, p: Position, danger: u64, n: int)
    requires
        0 <= n <= 8,
    ensures
        forall|i: int|
            0 <= i < king_steps(b, p, danger, n).len() ==> (#[trigger] king_steps(
                b,
                p,
                danger,
                n,
            )[i]).move_type == MoveType::TakeMove,
    decreases n,
{
    if n > 0 {
        lemma_king_steps_are_steps(b, p, danger, n - 1);
    }
}

/// A king castles only where it may: the right is still there, its own rook
/// stands in the corner, the squares between them are empty, and the king
/// is not in check.
pub proof fn lemma_castling_only_where_allowed(b: BoardView, p: Position, danger: u64, i: int)
    requires
        0 <= i < king_moves(b, p, danger).len(),
        king_moves(b, p, danger)[i].move_type == MoveType::Castling,
    ensures
        b.color_at(p) is Some,
        !danger_bit(danger, p),
        ({
            let c = b.color_at(p).unwrap();
            let m = king_moves(b, p, danger)[i];
            ||| {
                &&& m.move_to == (6u8, p.1)
                &&& b.side(c).castling_oo
                &&& own_rook(b, c, (7, p.1))
                &&& b.color_at((6, p.1)) is None
                &&& b.color_at((5, p.1)) is None
            }
            ||| {
                &&& m.move_to == (2u8, p.1)
                &&& b.side(c).castling_ooo
                &&& own_rook(b, c, (0, p.1))
                &&& b.color_at((1, p.1)) is None
                &&& b.color_at((2, p.1)) is None
                &&& b.color_at((3, p.1)) is None
            }
        }),
{
    lemma_king_steps_are_steps(b, p, danger, 8);
}

/// The king of a position castles only where it is not in check: none of
/// the other side's attacks reaches its square.
pub proof fn lemma_no_castling_out_of_check(b: BoardView, p: Position, i: int)
    requires
        b.kind_at(p) == Some("king"@),
        0 <= i < loud_moves(b, p).len(),
        loud_moves(b, p)[i].move_type == MoveType::Castling,
    ensures
        !attacked_by(b, b.color_at(p).unwrap().inverted()).contains(p),
        on_board(p),
{
    let c = b.color_at(p).unwrap();
    let danger = attack_mask(b, c.inverted());
    reveal_strlit("king");
    reveal_strlit("pawn");
    assert("king"@.len() == 4);
    assert("pawn"@.len() == 4);
    assert("king"@[0] == 'k');
    assert("pawn"@[0] == 'p');
    reveal(piece_moves);
    assert(piece_moves(b, p, danger, in_check(b, c)) == king_moves(b, p, danger));
    lemma_castling_only_where_allowed(b, p, danger, i);
    lemma_attack_mask_layout(b, c.inverted(), p);
}

/// The number of set bits among the first `n` bits of a mask.
pub open spec fn bits_upto(mask: u64, n: int) -> nat
    decreases n,
{
    if n <= 0 {
        0
    } else {
        bits_upto(mask, n - 1) + if danger_bit(mask, square_at(n - 1)) {
            1nat
        } else {
            0nat
        }
    }
}

/// The number of set bits of a mask.
pub open spec fn popcount(mask: u64) -> nat {
    bits_upto(mask, 64)
}

/// The squares among the first `n` of the grid whose bit is set.
pub open spec fn marked_upto(mask: u64, n: int) -> Set<Position> {
    Set::new(|p: Position| on_board(p) && square_index(p) < n && danger_bit(mask, p))
}

/// The squares that a side attacks, each once.
pub open spec fn attacked_set(b: BoardView, color: Color) -> Set<Position> {
    Set::new(|p: Position| on_board(p) && attacked_by(b, color).contains(p))
}

proof fn lemma_marked_upto(mask: u64, n: int)
    requires
        0 <= n <= 64,
    ensures
        marked_upto(mask, n).finite(),
        marked_upto(mask, n).len() == bits_upto(mask, n),
    decreases n,
{
    if n == 0 {
        assert(marked_upto(mask, 0) =~= Set::empty());
    } else {
        lemma_marked_upto(mask, n - 1);
        let q = square_at(n - 1);
        assert(on_board(q) && square_index(q) == n - 1);
        let before = marked_upto(mask, n - 1);
        if danger_bit(mask, q) {
            assert(marked_upto(mask, n) =~= before.insert(q)) by {
                assert forall|p: Position| marked_upto(mask, n).contains(p) implies before.insert(
                    q,
                ).contains(p) by {
                    if square_index(p) == n - 1 {
                        lemma_index_is_one_to_one(p, q);
                    }
                }
            }
            assert(!before.contains(q));
        } else {
            assert(marked_upto(mask, n) =~= before) by {
                assert forall|p: Position| marked_upto(mask, n).contains(p) implies before.contains(
                    p,
                ) by {
                    if square_index(p) == n - 1 {
                        lemma_index_is_one_to_one(p, q);
                    }
                }
            }
        }
    }
}

/// The mask of the squares that a side attacks has as many set bits as the
/// side attacks different squares.
pub proof fn lemma_attack_mask_popcount(b: BoardView, color: Color)
    ensures
        attacked_set(b, color).finite(),
        popcount(attack_mask(b, color)) == attacked_set(b, color).len(),
{
    let mask = attack_mask(b, color);
    lemma_marked_upto(mask, 64);
    assert(marked_upto(mask, 64) =~= attacked_set(b, color)) by {
        assert forall|p: Position|
            marked_upto(mask, 64).contains(p) <==> attacked_set(b, color).contains(p) by {
            lemma_attack_mask_layout(b, color, p);
        }
    }
}

} // verus!
