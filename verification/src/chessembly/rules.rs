//! What the moves of a position are: the moves of each piece, the squares
//! that a side attacks, check, and the moves that the mode of the game lets
//! stand.
//!
//! A king keeps off attacked squares and a program may ask about attacks,
//! and an attack is itself a move. So the moves come in three layers, each
//! built on the one below it:
//! - the blind moves, for which nothing is attacked and nobody is in check;
//! - the quiet moves, for which nothing is attacked, and a side is in check
//!   where the blind moves of the other side reach its king;
//! - the loud moves, for which a square is attacked where a quiet move of
//!   the other side captures on it.

use vstd::prelude::*;
use crate::chessembly::board::{BoardView, make_move};
use crate::chessembly::catalog::piece_moves;
use crate::chessembly::behavior::Instr;
use crate::chessembly::machine::{king_attacked, script_moves};
use crate::chessembly::{Color, MoveType, MoveView, on_board, Position, square_at};

verus! {

/// What the forward-only mode makes of a move: a move towards the other
/// side's first rank stays; a move along the rank stays as a `Take` where
/// it captures a piece of the other side; every other move goes.
pub open spec fn macho_keeps(b: BoardView, m: MoveView) -> Option<MoveView> {
    match b.color_at(m.from) {
        None => None,
        Some(c) => {
            if (c == Color::Black && m.from.1 < m.move_to.1) || (c == Color::White && m.from.1
                > m.move_to.1) {
                Some(m)
            } else if m.from.1 == m.move_to.1 && b.color_at(m.take) == Some(c.inverted()) {
                Some(MoveView { move_type: MoveType::Take, ..m })
            } else {
                None
            }
        },
    }
}

/// The moves that the forward-only mode lets stand, in their order.
pub open spec fn macho_filter(b: BoardView, nodes: Seq<MoveView>) -> Seq<MoveView>
    decreases nodes.len(),
{
    if nodes.len() == 0 {
        Seq::empty()
    } else {
        let rest = macho_filter(b, nodes.drop_last());
        match macho_keeps(b, nodes.last()) {
            Some(m) => rest.push(m),
            None => rest,
        }
    }
}

/// The kinds of move that attack the square on which they capture.
pub open spec fn is_threat(ty: MoveType) -> bool {
    ty == MoveType::Take || ty == MoveType::TakeMove || ty == MoveType::TakeJump || ty
        == MoveType::Catch
}

/// The capture squares of the moves that attack, in the order of the moves.
pub open spec fn danger_zones(nodes: Seq<MoveView>) -> Seq<Position>
    decreases nodes.len(),
{
    if nodes.len() == 0 {
        Seq::empty()
    } else if is_threat(nodes.last().move_type) {
        danger_zones(nodes.drop_last()).push(nodes.last().take)
    } else {
        danger_zones(nodes.drop_last())
    }
}

/// The bit that stands for an on-board square: bit `8 * rank + file`.
pub open spec fn square_bit(p: Position) -> u64 {
    if on_board(p) {
        1u64 << ((8 * p.1 + p.0) as u64)
    } else {
        0
    }
}

/// The mask with the bits of the given squares.
pub open spec fn mask_of(squares: Seq<Position>) -> u64
    decreases squares.len(),
{
    if squares.len() == 0 {
        0
    } else {
        mask_of(squares.drop_last()) | square_bit(squares.last())
    }
}

/// The blind moves of the piece on `p`: nothing is attacked and nobody is
/// in check.
pub open spec fn blind_moves(b: BoardView, p: Position) -> Seq<MoveView> {
    piece_moves(b, p, 0, false)
}

/// The blind moves of the piece on `p` as the mode lets them stand.
pub open spec fn blind_square(b: BoardView, p: Position) -> Seq<MoveView> {
    if b.macho {
        macho_filter(b, blind_moves(b, p))
    } else {
        blind_moves(b, p)
    }
}

/// The blind moves of the pieces of `color` on the first `n` squares, row by
/// row from the top row.
pub open spec fn blind_all_upto(b: BoardView, color: Color, n: int) -> Seq<MoveView>
    decreases n,
{
    if n <= 0 {
        Seq::empty()
    } else {
        blind_all_upto(b, color, n - 1) + if b.color_at(square_at(n - 1)) == Some(color) {
            blind_square(b, square_at(n - 1))
        } else {
            Seq::empty()
        }
    }
}

/// The squares on which a blind move of `color` captures, one bit for each.
pub open spec fn blind_mask(b: BoardView, color: Color) -> u64 {
    mask_of(danger_zones(blind_all_upto(b, color, 64)))
}

/// Whether a blind move of the other side reaches a king of `color`.
pub open spec fn quiet_check(b: BoardView, color: Color) -> bool {
    king_attacked(b, color, blind_mask(b, color.inverted()))
}

/// The quiet moves of the piece on `p`: nothing is attacked, so a king steps
/// and castles freely and a program's `danger` says no; its `check` says
/// whether a blind move of the other side reaches the king.
pub open spec fn quiet_moves(b: BoardView, p: Position) -> Seq<MoveView> {
    match b.color_at(p) {
        Some(c) => piece_moves(b, p, 0, quiet_check(b, c)),
        None => Seq::empty(),
    }
}

/// The quiet moves of the piece on `p` as the mode lets them stand.
pub open spec fn quiet_square(b: BoardView, p: Position) -> Seq<MoveView> {
    if b.macho {
        macho_filter(b, quiet_moves(b, p))
    } else {
        quiet_moves(b, p)
    }
}

/// The quiet moves of the pieces of `color` on the first `n` squares, row by
/// row from the top row.
pub open spec fn quiet_all_upto(b: BoardView, color: Color, n: int) -> Seq<MoveView>
    decreases n,
{
    if n <= 0 {
        Seq::empty()
    } else {
        quiet_all_upto(b, color, n - 1) + if b.color_at(square_at(n - 1)) == Some(color) {
            quiet_square(b, square_at(n - 1))
        } else {
            Seq::empty()
        }
    }
}

/// The quiet moves of all pieces of `color`.
pub open spec fn quiet_all(b: BoardView, color: Color) -> Seq<MoveView> {
    quiet_all_upto(b, color, 64)
}

/// The squares that `color` attacks: those on which its quiet moves
/// capture.
pub open spec fn attacked_by(b: BoardView, color: Color) -> Seq<Position> {
    danger_zones(quiet_all(b, color))
}

/// The squares that `color` attacks, one bit for each.
pub open spec fn attack_mask(b: BoardView, color: Color) -> u64 {
    mask_of(attacked_by(b, color))
}

/// Whether `color` is in check: one of its kings stands on a square that the
/// other side attacks.
pub open spec fn in_check(b: BoardView, color: Color) -> bool {
    king_attacked(b, color, attack_mask(b, color.inverted()))
}

/// The loud moves of the piece on `p`: the squares that the other side
/// attacks count for a king and for a program's `danger`, and a program's
/// `check` says whether the piece's side is in check.
pub open spec fn loud_moves(b: BoardView, p: Position) -> Seq<MoveView> {
    match b.color_at(p) {
        Some(c) => piece_moves(b, p, attack_mask(b, c.inverted()), in_check(b, c)),
        None => Seq::empty(),
    }
}

/// The moves that `program` gives the piece on `p`, whatever its kind.
/// Where attacks count, its `danger` sees the squares that the other side
/// attacks and its `check` says whether the piece's side is in check; where
/// they do not, `danger` says no and `check` goes by the blind moves of the
/// other side. No piece, no moves.
pub open spec fn program_moves(
    program: Seq<Seq<Instr>>,
    b: BoardView,
    p: Position,
    check_danger: bool,
) -> Seq<MoveView> {
    match b.color_at(p) {
        Some(c) => if check_danger {
            script_moves(program, b, p, attack_mask(b, c.inverted()), in_check(b, c))
        } else {
            script_moves(program, b, p, 0, quiet_check(b, c))
        },
        None => Seq::empty(),
    }
}

/// The pseudo-legal moves of the piece on `p`: the loud ones where attacks
/// count, the quiet ones where they do not.
pub open spec fn pseudo_moves(b: BoardView, p: Position, check_danger: bool) -> Seq<MoveView> {
    if check_danger {
        loud_moves(b, p)
    } else {
        quiet_moves(b, p)
    }
}

/// The moves of the piece on `p` in one of the three layers: 0 for the
/// blind, 1 for the quiet, any other for the loud ones.
pub open spec fn layer_moves(b: BoardView, p: Position, layer: int) -> Seq<MoveView> {
    if layer == 0 {
        blind_moves(b, p)
    } else if layer == 1 {
        quiet_moves(b, p)
    } else {
        loud_moves(b, p)
    }
}

/// Whether a move leaves the side that is to move out of check.
pub open spec fn survives(b: BoardView, m: MoveView) -> bool {
    !in_check(make_move(b, m, false), b.turn)
}

/// The moves after which the side that is to move is not in check, in their
/// order.
pub open spec fn check_filter(b: BoardView, nodes: Seq<MoveView>) -> Seq<MoveView>
    decreases nodes.len(),
{
    if nodes.len() == 0 {
        Seq::empty()
    } else if survives(b, nodes.last()) {
        check_filter(b, nodes.drop_last()).push(nodes.last())
    } else {
        check_filter(b, nodes.drop_last())
    }
}

/// The moves that the mode of the game lets stand: the forward-only moves in
/// that mode, else those that leave the mover out of check.
pub open spec fn legal_filter(b: BoardView, nodes: Seq<MoveView>) -> Seq<MoveView> {
    if b.macho {
        macho_filter(b, nodes)
    } else {
        check_filter(b, nodes)
    }
}

/// The legal moves of the piece on `p`.
pub open spec fn legal_square(b: BoardView, p: Position) -> Seq<MoveView> {
    legal_filter(b, loud_moves(b, p))
}

/// The legal moves of the pieces of `color` on the first `n` squares.
pub open spec fn legal_all_upto(b: BoardView, color: Color, n: int) -> Seq<MoveView>
    decreases n,
{
    if n <= 0 {
        Seq::empty()
    } else {
        legal_all_upto(b, color, n - 1) + if b.color_at(square_at(n - 1)) == Some(color) {
            legal_square(b, square_at(n - 1))
        } else {
            Seq::empty()
        }
    }
}

/// All moves of `color`: the legal ones where attacks count, the quiet ones
/// where they do not.
pub open spec fn all_moves(b: BoardView, color: Color, check_danger: bool) -> Seq<MoveView> {
    if check_danger {
        legal_all_upto(b, color, 64)
    } else {
        quiet_all(b, color)
    }
}

/// The legal moves of the side that is to move.
pub open spec fn legal_moves(b: BoardView) -> Seq<MoveView> {
    all_moves(b, b.turn, true)
}

} // verus!
