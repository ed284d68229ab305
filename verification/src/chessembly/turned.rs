//! The turned board as a whole. On a board without a bouncing bishop and
//! without a windmill piece, whose program does not tell left from right,
//! each side attacks on the turned board the mirrored squares and `check`
//! has the same answer there; so a program gives a piece the same moves,
//! turned round, whether attacks count or not.

use vstd::prelude::*;
use crate::chessembly::{
    all_from, Color, MoveView, on_board, Position, Square, square_at, square_index,
};
use crate::chessembly::behavior::Instr;
use crate::chessembly::board::BoardView;
use crate::chessembly::catalog::piece_moves;
use crate::chessembly::legal_laws::lemma_mask_bit;
use crate::chessembly::machine::danger_bit;
use crate::chessembly::mirror::{
    lemma_mirror_board_at, lemma_mirror_king_attacked, lemma_mirror_twice, lemma_no_bit_set,
    lemma_quiet_script_moves_mirror, lemma_script_moves_mirror, mirror, mirror_board, mirror_move,
    mirror_moves, mirrored_masks, program_unsided, recolored,
};
use crate::chessembly::rules::{
    attack_mask, blind_all_upto, blind_mask, danger_zones, in_check, is_threat, macho_filter,
    macho_keeps, mask_of, program_moves, quiet_all_upto, quiet_check,
};
use crate::chessembly::turned_pieces::lemma_piece_turned;

verus! {

/// Whether two lists hold the same moves, those of the second turned round
/// from those of the first, in whatever order, all of them on the board.
#[verifier::opaque]
pub open spec fn turned_lists(l: Seq<MoveView>, t: Seq<MoveView>) -> bool {
    &&& forall|m: MoveView| #[trigger] l.contains(m) ==> m.in_bounds() && t.contains(mirror_move(m))
    &&& forall|m: MoveView| #[trigger] t.contains(m) ==> m.in_bounds() && l.contains(mirror_move(m))
}

/// Two lists of which each holds the moves of the other, turned round, hold
/// the same moves, turned round.
pub(crate) proof fn lemma_turned_intro(l: Seq<MoveView>, t: Seq<MoveView>)
    requires
        forall|m: MoveView| #[trigger] l.contains(m) ==> m.in_bounds() && t.contains(mirror_move(m)),
        forall|m: MoveView| #[trigger] t.contains(m) ==> m.in_bounds() && l.contains(mirror_move(m)),
    ensures
        turned_lists(l, t),
{
    reveal(turned_lists);
}

/// A move of the first list is on the board, and the second list holds it
/// turned round.
pub proof fn lemma_turned_there(l: Seq<MoveView>, t: Seq<MoveView>, m: MoveView)
    requires
        turned_lists(l, t),
        l.contains(m),
    ensures
        m.in_bounds(),
        t.contains(mirror_move(m)),
{
    reveal(turned_lists);
}

/// A move of the second list is on the board, and the first list holds it
/// turned round.
pub proof fn lemma_turned_here(l: Seq<MoveView>, t: Seq<MoveView>, m: MoveView)
    requires
        turned_lists(l, t),
        t.contains(m),
    ensures
        m.in_bounds(),
        l.contains(mirror_move(m)),
{
    reveal(turned_lists);
}

/// Two lists without moves hold the same moves.
pub(crate) proof fn lemma_turned_empty()
    ensures
        turned_lists(Seq::<MoveView>::empty(), Seq::<MoveView>::empty()),
{
    reveal(turned_lists);
}

/// The kinds that move on the turned board as they move here: all but the
/// three whose scripts are kept as text.
pub open spec fn turns_kind(kind: Seq<char>) -> bool {
    kind != "bouncing-bishop"@ && kind != "windmill-rook"@ && kind != "windmill-bishop"@
}

/// A board without a bouncing bishop and without a windmill piece, whose
/// program does not tell left from right.
pub open spec fn turns_evenly(b: BoardView) -> bool {
    &&& b.wf()
    &&& program_unsided(b.program)
    &&& forall|i: int|
        0 <= i < 64 ==> match #[trigger] b.squares[i] {
            Square::Occupied { kind, color } => turns_kind(kind),
            Square::Empty => true,
        }
}

/// Two lists joined hold what one of them holds.
pub(crate) proof fn lemma_concat_has<T>(a: Seq<T>, b: Seq<T>, m: T)
    ensures
        (a + b).contains(m) <==> a.contains(m) || b.contains(m),
{
    if a.contains(m) {
        let i = choose|i: int| 0 <= i < a.len() && a[i] == m;
        assert((a + b)[i] == m);
    }
    if b.contains(m) {
        let i = choose|i: int| 0 <= i < b.len() && b[i] == m;
        assert((a + b)[a.len() + i] == m);
    }
    if (a + b).contains(m) {
        let i = choose|i: int| 0 <= i < (a + b).len() && (a + b)[i] == m;
        if i < a.len() {
            assert(a[i] == m);
        } else {
            assert(b[i - a.len()] == m);
        }
    }
}

/// The move turned round twice is the move.
pub proof fn lemma_mirror_move_twice(m: MoveView)
    ensures
        mirror_move(mirror_move(m)) == m,
        mirror_move(m).in_bounds() == m.in_bounds(),
{
    lemma_mirror_twice(m.from);
    lemma_mirror_twice(m.take);
    lemma_mirror_twice(m.move_to);
}

/// A list of moves on the board and the list of the same moves turned round
/// hold the same moves, turned round.
pub proof fn lemma_turned_in_order(l: Seq<MoveView>, p: Position)
    requires
        all_from(l, p),
    ensures
        turned_lists(l, mirror_moves(l)),
{
    let t = mirror_moves(l);
    assert forall|m: MoveView| #[trigger] l.contains(m) implies m.in_bounds() && t.contains(
        mirror_move(m),
    ) by {
        let i = choose|i: int| 0 <= i < l.len() && l[i] == m;
        assert(t[i] == mirror_move(m));
    }
    assert forall|m: MoveView| #[trigger] t.contains(m) implies m.in_bounds() && l.contains(
        mirror_move(m),
    ) by {
        let i = choose|i: int| 0 <= i < t.len() && t[i] == m;
        lemma_mirror_move_twice(l[i]);
        assert(l[i] == mirror_move(m));
    }
    lemma_turned_intro(l, t);
}

/// The turned board of such a board is such a board.
pub proof fn lemma_turned_board_turns(b: BoardView)
    requires
        turns_evenly(b),
    ensures
        turns_evenly(mirror_board(b)),
{
    let t = mirror_board(b);
    assert forall|i: int| 0 <= i < 64 implies match #[trigger] t.squares[i] {
        Square::Occupied { kind, color } => turns_kind(kind),
        Square::Empty => true,
    } by {
        let q = mirror(square_at(i));
        assert(t.squares[i] == recolored(b.at(q)));
        if on_board(q) {
            assert(b.at(q) == b.squares[square_index(q)]);
        }
    }
}

/// Two pairs of lists that hold the same moves, turned round, do so joined.
pub proof fn lemma_turned_joined(
    a: Seq<MoveView>,
    ta: Seq<MoveView>,
    b: Seq<MoveView>,
    tb: Seq<MoveView>,
)
    requires
        turned_lists(a, ta),
        turned_lists(b, tb),
    ensures
        turned_lists(a + b, ta + tb),
{
    assert forall|m: MoveView| #[trigger] (a + b).contains(m) implies m.in_bounds() && (ta
        + tb).contains(mirror_move(m)) by {
        lemma_concat_has(a, b, m);
        lemma_concat_has(ta, tb, mirror_move(m));
        if a.contains(m) {
            lemma_turned_there(a, ta, m);
        } else {
            lemma_turned_there(b, tb, m);
        }
    }
    assert forall|m: MoveView| #[trigger] (ta + tb).contains(m) implies m.in_bounds() && (a
        + b).contains(mirror_move(m)) by {
        lemma_concat_has(ta, tb, m);
        lemma_concat_has(a, b, mirror_move(m));
        if ta.contains(m) {
            lemma_turned_here(a, ta, m);
        } else {
            lemma_turned_here(b, tb, m);
        }
    }
    lemma_turned_intro(a + b, ta + tb);
}

/// A list with one item more holds that item and what it held before.
pub(crate) proof fn lemma_push_has<T>(a: Seq<T>, x: T, m: T)
    ensures
        a.push(x).contains(m) <==> a.contains(m) || x == m,
{
    assert(a.push(x) =~= a + seq![x]);
    lemma_concat_has(a, seq![x], m);
    if x == m {
        assert(seq![x][0] == m);
    }
}

proof fn lemma_macho_has(b: BoardView, l: Seq<MoveView>, m: MoveView)
    ensures
        macho_filter(b, l).contains(m) <==> exists|x: MoveView| #[trigger]
            l.contains(x) && macho_keeps(b, x) == Some(m),
    decreases l.len(),
{
    if l.len() > 0 {
        let rest = l.drop_last();
        let last = l.last();
        let f = macho_filter(b, rest);
        lemma_macho_has(b, rest, m);
        assert(l =~= rest.push(last));
        assert forall|x: MoveView| #[trigger] l.contains(x) == (rest.contains(x) || last == x) by {
            lemma_push_has(rest, last, x);
        }
        match macho_keeps(b, last) {
            Some(k) => {
                lemma_push_has(f, k, m);
            },
            None => {},
        }
        if macho_keeps(b, last) == Some(m) {
            assert(l.contains(last));
        }
        if f.contains(m) {
            let x = choose|x: MoveView| #[trigger] rest.contains(x) && macho_keeps(b, x) == Some(m);
            assert(l.contains(x));
        }
    }
}

proof fn lemma_macho_keeps_turned(b: BoardView, x: MoveView)
    requires
        b.wf(),
        x.in_bounds(),
    ensures
        macho_keeps(mirror_board(b), mirror_move(x)) == (match macho_keeps(b, x) {
            Some(m) => Some(mirror_move(m)),
            None => None,
        }),
{
    lemma_mirror_board_at(b, x.from);
    lemma_mirror_board_at(b, x.take);
}

proof fn lemma_macho_there(b: BoardView, l: Seq<MoveView>, t: Seq<MoveView>, m: MoveView)
    requires
        b.wf(),
        turned_lists(l, t),
        macho_filter(b, l).contains(m),
    ensures
        m.in_bounds(),
        macho_filter(mirror_board(b), t).contains(mirror_move(m)),
{
    lemma_macho_has(b, l, m);
    let x = choose|x: MoveView| #[trigger] l.contains(x) && macho_keeps(b, x) == Some(m);
    lemma_turned_there(l, t, x);
    lemma_macho_keeps_turned(b, x);
    lemma_macho_has(mirror_board(b), t, mirror_move(m));
}

proof fn lemma_macho_here(b: BoardView, l: Seq<MoveView>, t: Seq<MoveView>, m: MoveView)
    requires
        b.wf(),
        turned_lists(l, t),
        macho_filter(mirror_board(b), t).contains(m),
    ensures
        m.in_bounds(),
        macho_filter(b, l).contains(mirror_move(m)),
{
    let tb = mirror_board(b);
    lemma_macho_has(tb, t, m);
    let y = choose|y: MoveView| #[trigger] t.contains(y) && macho_keeps(tb, y) == Some(m);
    let x = mirror_move(y);
    lemma_turned_here(l, t, y);
    lemma_mirror_move_twice(y);
    lemma_macho_keeps_turned(b, x);
    let k = macho_keeps(b, x).unwrap();
    lemma_mirror_move_twice(k);
    lemma_macho_has(b, l, mirror_move(m));
}

/// What the forward-only mode lets stand on the turned board is what it
/// lets stand here, turned round.
pub proof fn lemma_macho_turned(b: BoardView, l: Seq<MoveView>, t: Seq<MoveView>)
    requires
        b.wf(),
        turned_lists(l, t),
    ensures
        turned_lists(macho_filter(b, l), macho_filter(mirror_board(b), t)),
{
    let tb = mirror_board(b);
    assert forall|m: MoveView| #[trigger] macho_filter(b, l).contains(m) implies m.in_bounds()
        && macho_filter(tb, t).contains(mirror_move(m)) by {
        lemma_macho_there(b, l, t, m);
    }
    assert forall|m: MoveView| #[trigger] macho_filter(tb, t).contains(m) implies m.in_bounds()
        && macho_filter(b, l).contains(mirror_move(m)) by {
        lemma_macho_here(b, l, t, m);
    }
    lemma_turned_intro(macho_filter(b, l), macho_filter(tb, t));
}

/// The moves of the piece on `p` where nothing counts as attacked and
/// `check` answers `checked`, as the mode lets them stand.
pub open spec fn square_moves(b: BoardView, p: Position, checked: bool) -> Seq<MoveView> {
    if b.macho {
        macho_filter(b, piece_moves(b, p, 0, checked))
    } else {
        piece_moves(b, p, 0, checked)
    }
}

/// Those moves of the pieces of `color` on the first `n` squares.
pub open spec fn gathered(b: BoardView, color: Color, checked: bool, n: int) -> Seq<MoveView>
    decreases n,
{
    if n <= 0 {
        Seq::empty()
    } else {
        gathered(b, color, checked, n - 1) + if b.color_at(square_at(n - 1)) == Some(color) {
            square_moves(b, square_at(n - 1), checked)
        } else {
            Seq::empty()
        }
    }
}

/// Whether `m` is such a move of a piece of `color` on square `i` of the
/// grid.
pub open spec fn gathered_at(b: BoardView, color: Color, checked: bool, i: int, m: MoveView) -> bool {
    b.color_at(square_at(i)) == Some(color) && square_moves(b, square_at(i), checked).contains(m)
}

proof fn lemma_blind_gathered(b: BoardView, color: Color, n: int)
    ensures
        blind_all_upto(b, color, n) == gathered(b, color, false, n),
    decreases n,
{
    if n > 0 {
        lemma_blind_gathered(b, color, n - 1);
    }
}

proof fn lemma_quiet_gathered(b: BoardView, color: Color, n: int)
    ensures
        quiet_all_upto(b, color, n) == gathered(b, color, quiet_check(b, color), n),
    decreases n,
{
    if n > 0 {
        lemma_quiet_gathered(b, color, n - 1);
    }
}

proof fn lemma_gathered_has(b: BoardView, color: Color, checked: bool, n: int, m: MoveView)
    requires
        0 <= n,
    ensures
        gathered(b, color, checked, n).contains(m) <==> exists|i: int|
            0 <= i < n && #[trigger] gathered_at(b, color, checked, i, m),
    decreases n,
{
    if n > 0 {
        lemma_gathered_has(b, color, checked, n - 1, m);
        let last = if b.color_at(square_at(n - 1)) == Some(color) {
            square_moves(b, square_at(n - 1), checked)
        } else {
            Seq::empty()
        };
        lemma_concat_has(gathered(b, color, checked, n - 1), last, m);
        if last.contains(m) {
            assert(gathered_at(b, color, checked, n - 1, m));
        }
    }
}

proof fn lemma_square_turned(b: BoardView, p: Position, checked: bool)
    requires
        turns_evenly(b),
        on_board(p),
    ensures
        turned_lists(
            square_moves(b, p, checked),
            square_moves(mirror_board(b), mirror(p), checked),
        ),
{
    assert forall|q: Position| on_board(q) implies danger_bit(0, mirror(q)) == #[trigger] danger_bit(
        0,
        q,
    ) by {
        lemma_no_bit_set(q);
        lemma_no_bit_set(mirror(q));
    }
    lemma_piece_turned(b, p, 0, 0, checked);
    if b.macho {
        lemma_macho_turned(
            b,
            piece_moves(b, p, 0, checked),
            piece_moves(mirror_board(b), mirror(p), 0, checked),
        );
    }
}

/// The place in the grid of the mirrored square.
pub open spec fn turned_index(i: int) -> int {
    square_index(mirror(square_at(i)))
}

/// The place of the mirrored square is a place of the grid, and its square
/// is the mirrored square.
pub(crate) proof fn lemma_turned_index(i: int)
    requires
        0 <= i < 64,
    ensures
        0 <= turned_index(i) < 64,
        on_board(square_at(i)),
        square_at(turned_index(i)) == mirror(square_at(i)),
        mirror(square_at(turned_index(i))) == square_at(i),
{
}

proof fn lemma_turned_color(b: BoardView, p: Position, color: Color)
    requires
        b.wf(),
    ensures
        (mirror_board(b).color_at(mirror(p)) == Some(color.inverted())) == (b.color_at(p) == Some(
            color,
        )),
{
    lemma_mirror_board_at(b, p);
}

proof fn lemma_gathered_there(b: BoardView, color: Color, checked: bool, i: int, m: MoveView)
    requires
        turns_evenly(b),
        0 <= i < 64,
        gathered_at(b, color, checked, i, m),
    ensures
        m.in_bounds(),
        0 <= turned_index(i) < 64,
        gathered_at(mirror_board(b), color.inverted(), checked, turned_index(i), mirror_move(m)),
{
    let p = square_at(i);
    lemma_turned_index(i);
    lemma_square_turned(b, p, checked);
    lemma_turned_color(b, p, color);
    lemma_turned_there(
        square_moves(b, p, checked),
        square_moves(mirror_board(b), mirror(p), checked),
        m,
    );
}

proof fn lemma_gathered_here(b: BoardView, color: Color, checked: bool, j: int, m: MoveView)
    requires
        turns_evenly(b),
        0 <= j < 64,
        gathered_at(mirror_board(b), color.inverted(), checked, j, m),
    ensures
        m.in_bounds(),
        0 <= turned_index(j) < 64,
        gathered_at(b, color, checked, turned_index(j), mirror_move(m)),
{
    let p = square_at(turned_index(j));
    lemma_turned_index(j);
    lemma_square_turned(b, p, checked);
    lemma_turned_color(b, p, color);
    lemma_turned_here(
        square_moves(b, p, checked),
        square_moves(mirror_board(b), mirror(p), checked),
        m,
    );
}

proof fn lemma_gathered_turned(b: BoardView, color: Color, checked: bool)
    requires
        turns_evenly(b),
    ensures
        turned_lists(
            gathered(b, color, checked, 64),
            gathered(mirror_board(b), color.inverted(), checked, 64),
        ),
{
    let tb = mirror_board(b);
    let other = color.inverted();
    let l = gathered(b, color, checked, 64);
    let t = gathered(tb, other, checked, 64);
    assert forall|m: MoveView| #[trigger] l.contains(m) implies m.in_bounds() && t.contains(
        mirror_move(m),
    ) by {
        lemma_gathered_has(b, color, checked, 64, m);
        let i = choose|i: int| 0 <= i < 64 && #[trigger] gathered_at(b, color, checked, i, m);
        lemma_gathered_there(b, color, checked, i, m);
        lemma_gathered_has(tb, other, checked, 64, mirror_move(m));
    }
    assert forall|m: MoveView| #[trigger] t.contains(m) implies m.in_bounds() && l.contains(
        mirror_move(m),
    ) by {
        lemma_gathered_has(tb, other, checked, 64, m);
        let j = choose|j: int| 0 <= j < 64 && #[trigger] gathered_at(tb, other, checked, j, m);
        lemma_gathered_here(b, color, checked, j, m);
        lemma_gathered_has(b, color, checked, 64, mirror_move(m));
    }
    lemma_turned_intro(l, t);
}

proof fn lemma_zones_has(l: Seq<MoveView>, t: Position)
    ensures
        danger_zones(l).contains(t) <==> exists|m: MoveView| #[trigger]
            l.contains(m) && is_threat(m.move_type) && m.take == t,
    decreases l.len(),
{
    if l.len() > 0 {
        let rest = l.drop_last();
        let last = l.last();
        let z = danger_zones(rest);
        lemma_zones_has(rest, t);
        assert(l =~= rest.push(last));
        assert forall|x: MoveView| #[trigger] l.contains(x) == (rest.contains(x) || last == x) by {
            lemma_push_has(rest, last, x);
        }
        lemma_push_has(z, last.take, t);
        if is_threat(last.move_type) && last.take == t {
            assert(l.contains(last));
        }
        if z.contains(t) {
            let x = choose|x: MoveView| #[trigger]
                rest.contains(x) && is_threat(x.move_type) && x.take == t;
            assert(l.contains(x));
        }
    }
}

/// Lists that hold the same moves, turned round, attack mirrored squares.
pub proof fn lemma_masks_turned(l: Seq<MoveView>, t: Seq<MoveView>)
    requires
        turned_lists(l, t),
    ensures
        mirrored_masks(mask_of(danger_zones(l)), mask_of(danger_zones(t))),
{
    let d = mask_of(danger_zones(l));
    let e = mask_of(danger_zones(t));
    assert forall|p: Position| on_board(p) implies danger_bit(e, mirror(p)) == #[trigger] danger_bit(
        d,
        p,
    ) by {
        let q = mirror(p);
        lemma_mirror_twice(p);
        lemma_mask_bit(danger_zones(l), p);
        lemma_mask_bit(danger_zones(t), q);
        lemma_zones_has(l, p);
        lemma_zones_has(t, q);
        if danger_zones(l).contains(p) {
            let m = choose|m: MoveView| #[trigger]
                l.contains(m) && is_threat(m.move_type) && m.take == p;
            lemma_turned_there(l, t, m);
        }
        if danger_zones(t).contains(q) {
            let m = choose|m: MoveView| #[trigger]
                t.contains(m) && is_threat(m.move_type) && m.take == q;
            lemma_turned_here(l, t, m);
        }
    }
}

proof fn lemma_blind_mask_turned(b: BoardView, color: Color)
    requires
        turns_evenly(b),
    ensures
        mirrored_masks(blind_mask(b, color), blind_mask(mirror_board(b), color.inverted())),
{
    lemma_blind_gathered(b, color, 64);
    lemma_blind_gathered(mirror_board(b), color.inverted(), 64);
    lemma_gathered_turned(b, color, false);
    lemma_masks_turned(
        gathered(b, color, false, 64),
        gathered(mirror_board(b), color.inverted(), false, 64),
    );
}

proof fn lemma_quiet_check_turned(b: BoardView, color: Color)
    requires
        turns_evenly(b),
    ensures
        quiet_check(mirror_board(b), color.inverted()) == quiet_check(b, color),
{
    let other = color.inverted();
    assert(other.inverted() == color);
    lemma_blind_mask_turned(b, other);
    lemma_mirror_king_attacked(
        b,
        color,
        blind_mask(b, other),
        blind_mask(mirror_board(b), color),
    );
}

proof fn lemma_attack_mask_turned(b: BoardView, color: Color)
    requires
        turns_evenly(b),
    ensures
        mirrored_masks(attack_mask(b, color), attack_mask(mirror_board(b), color.inverted())),
{
    let tb = mirror_board(b);
    let checked = quiet_check(b, color);
    lemma_quiet_check_turned(b, color);
    lemma_quiet_gathered(b, color, 64);
    lemma_quiet_gathered(tb, color.inverted(), 64);
    lemma_gathered_turned(b, color, checked);
    lemma_masks_turned(gathered(b, color, checked, 64), gathered(tb, color.inverted(), checked, 64));
}

/// What the turned board answers. On a board without a bouncing bishop and
/// without a windmill piece, whose program does not tell left from right, a
/// side attacks on the turned board, as the other colour, the mirrored
/// squares of those that it attacks here, by its blind moves and by its
/// quiet ones; and it is in check there exactly when it is in check here,
/// by the blind moves of the other side and by the quiet ones.
pub proof fn lemma_turned_board_answers(b: BoardView, color: Color)
    requires
        turns_evenly(b),
    ensures
        mirrored_masks(blind_mask(b, color), blind_mask(mirror_board(b), color.inverted())),
        mirrored_masks(attack_mask(b, color), attack_mask(mirror_board(b), color.inverted())),
        quiet_check(mirror_board(b), color.inverted()) == quiet_check(b, color),
        in_check(mirror_board(b), color.inverted()) == in_check(b, color),
{
    let other = color.inverted();
    assert(other.inverted() == color);
    lemma_blind_mask_turned(b, color);
    lemma_attack_mask_turned(b, color);
    lemma_quiet_check_turned(b, color);
    lemma_attack_mask_turned(b, other);
    lemma_mirror_king_attacked(
        b,
        color,
        attack_mask(b, other),
        attack_mask(mirror_board(b), color),
    );
}

/// Side-reflection symmetry. On a board without a bouncing bishop and
/// without a windmill piece, whose program does not tell left from right, a
/// program that does not tell left from right gives the piece on the
/// mirrored square of the turned board the moves that it gives the piece
/// here, each turned round and in the same order, whether attacks count or
/// not, and whatever the program asks of `check` and `danger`.
pub proof fn lemma_program_moves_turned(
    program: Seq<Seq<Instr>>,
    b: BoardView,
    p: Position,
    check_danger: bool,
)
    requires
        turns_evenly(b),
        program_unsided(program),
    ensures
        program_moves(program, mirror_board(b), mirror(p), check_danger) == mirror_moves(
            program_moves(program, b, p, check_danger),
        ),
{
    let tb = mirror_board(b);
    lemma_mirror_board_at(b, p);
    match b.color_at(p) {
        Some(c) => {
            let other = c.inverted();
            assert(other.inverted() == c);
            assert(tb.color_at(mirror(p)) == Some(other));
            lemma_turned_board_answers(b, c);
            lemma_turned_board_answers(b, other);
            if check_danger {
                lemma_script_moves_mirror(
                    program,
                    b,
                    p,
                    attack_mask(b, other),
                    attack_mask(tb, c),
                    in_check(b, c),
                );
            } else {
                lemma_quiet_script_moves_mirror(program, b, p, quiet_check(b, c));
            }
        },
        None => {
            assert(tb.color_at(mirror(p)) is None);
            assert(mirror_moves(Seq::<MoveView>::empty()) =~= Seq::<MoveView>::empty());
        },
    }
}

} // verus!
