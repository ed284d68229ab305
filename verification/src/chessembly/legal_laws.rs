//! Laws of the positions: what the mask of attacked squares holds, what a
//! move leaves untouched, when a king castles, and what every legal move
//! keeps.

use vstd::prelude::*;
use crate::chessembly::board::BoardView;
use crate::chessembly::machine::danger_bit;
use crate::chessembly::rules::{attack_mask, attacked_by, mask_of, square_bit};
use crate::chessembly::{Color, on_board, Position};

verus! {

proof fn lemma_or_bit(a: u64, b: u64, c: u64)
    ensures
        ((a | b) & c != 0) <==> (a & c != 0 || b & c != 0),
{
    assert(((a | b) & c != 0) <==> (a & c != 0 || b & c != 0)) by (bit_vector);
}

proof fn lemma_one_bit(j: u64, k: u64)
    requires
        j < 64,
        k < 64,
    ensures
        ((1u64 << j) & (1u64 << k) != 0) <==> j == k,
{
    assert(j < 64 && k < 64 ==> (((1u64 << j) & (1u64 << k) != 0) <==> j == k)) by (bit_vector);
}

proof fn lemma_no_bit(c: u64)
    ensures
        0u64 & c == 0,
{
    assert(0u64 & c == 0) by (bit_vector);
}

/// The mask of a list of squares has the bit of an on-board square exactly
/// when the list holds the square.
pub proof fn lemma_mask_bit(squares: Seq<Position>, p: Position)
    ensures
        danger_bit(mask_of(squares), p) <==> on_board(p) && squares.contains(p),
    decreases squares.len(),
{
    if on_board(p) {
        let k = (8 * p.1 + p.0) as u64;
        if squares.len() == 0 {
            lemma_no_bit(1u64 << k);
        } else {
            let rest = squares.drop_last();
            let last = squares.last();
            lemma_mask_bit(rest, p);
            lemma_or_bit(mask_of(rest), square_bit(last), 1u64 << k);
            if on_board(last) {
                let j = (8 * last.1 + last.0) as u64;
                lemma_one_bit(j, k);
                assert(j == k <==> last == p);
            } else {
                lemma_no_bit(1u64 << k);
            }
            if rest.contains(p) {
                let i = choose|i: int| 0 <= i < rest.len() && rest[i] == p;
                assert(squares[i] == p);
            }
            if last == p {
                assert(squares[squares.len() - 1] == p);
            }
            if squares.contains(p) {
                let i = choose|i: int| 0 <= i < squares.len() && squares[i] == p;
                if i < rest.len() {
                    assert(rest[i] == p);
                }
            }
        }
    }
}

/// The mask of the squares that a side attacks: bit `8 * y + x` stands for
/// the square `(x, y)` and is set exactly when the side attacks it.
pub proof fn lemma_attack_mask_layout(b: BoardView, color: Color, p: Position)
    ensures
        danger_bit(attack_mask(b, color), p) <==> on_board(p) && attacked_by(b, color).contains(p),
{
    lemma_mask_bit(attacked_by(b, color), p);
}

} // verus!
