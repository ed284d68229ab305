//! The pieces on the turned board: each kind but the bouncing bishop and
//! the windmill pieces moves there as it moves here, turned round.

use vstd::prelude::*;
use crate::chessembly::{
    all_from, Color, DeltaPosition, MoveType, MoveView, on_board, Position, Square, square_at,
    square_index,
};
use crate::chessembly::behavior::Instr;
use crate::chessembly::board::BoardView;
use crate::chessembly::catalog::{
    alfil_moves, alfil_steps, amazon_moves, archbishop_moves, bard_moves, bard_steps, beacon_moves,
    beacon_moves_upto, beacon_reaches, bishop_moves, bishop_steps, centaur_moves, chameleon_catch,
    chameleon_catches, chameleon_moves, chameleon_walk_program, chancellor_moves, dozer_moves,
    dozer_steps, enpassant_mark, ij_moves, ij_steps, is_built_in, king_move, king_moves, king_ring,
    king_step, king_steps, knight_moves, leap, leaps, may_castle_long, may_castle_short,
    mirrored_base, mirrored_move, mirrored_moves, opposite, pawn_ahead, pawn_arrival, pawn_capture,
    pawn_captures, pawn_double, pawn_has_ahead, pawn_home, pawn_last, pawn_moves, pawn_passes_to,
    pawn_passing, pawn_passing_moves, pawn_pushes, piece_moves, pseudo_pawn_program, queen_moves,
    queen_steps, rook_mark, rook_moves, rook_program, rook_steps, slide, slides, tempest_rook_moves,
    tempest_rook_program, wasp_moves, wasp_program,
};
use crate::chessembly::geometry::{step_lands, stepped, zero_vector};
use crate::chessembly::machine::{danger_bit, scene_of, script_moves};
use crate::chessembly::machine_laws::lemma_run_chains_sound;
use crate::chessembly::mirror::{
    chain_unsided, is_sided, lemma_mirror_board_at, lemma_mirror_twice,
    lemma_quiet_script_moves_mirror, lemma_script_moves_mirror, mirror, mirror_board, mirror_move,
    mirror_moves, mirrored_masks, program_unsided, turned_side,
};
use crate::chessembly::turned::{
    lemma_concat_has, lemma_mirror_move_twice, lemma_push_has, lemma_turned_empty,
    lemma_turned_here, lemma_turned_in_order, lemma_turned_index, lemma_turned_intro,
    lemma_turned_joined, lemma_turned_there, turned_index, turned_lists, turns_evenly,
};

verus! {

/// The step with its direction along the ranks turned.
pub open spec fn turned_step(d: DeltaPosition) -> DeltaPosition {
    (d.0, (-d.1) as i8)
}

proof fn lemma_king_step_turned(b: BoardView, p: Position, d: u64, e: u64, dl: DeltaPosition)
    requires
        b.wf(),
        on_board(p),
        mirrored_masks(d, e),
        -1 <= dl.0 <= 1,
        -1 <= dl.1 <= 1,
    ensures
        king_step(mirror_board(b), mirror(p), e, turned_step(dl)) == mirror_moves(
            king_step(b, p, d, dl),
        ),
        all_from(king_step(b, p, d, dl), p),
{
    lemma_mirror_board_at(b, p);
    assert(step_lands(mirror(p), turned_step(dl)) == step_lands(p, dl));
    assert(zero_vector(turned_step(dl)) == zero_vector(dl));
    if step_lands(p, dl) {
        let s = stepped(p, dl);
        lemma_mirror_board_at(b, s);
        assert(on_board(s));
        assert(stepped(mirror(p), turned_step(dl)) == mirror(s));
        assert(danger_bit(e, mirror(s)) == danger_bit(d, s));
    }
    assert(king_step(mirror_board(b), mirror(p), e, turned_step(dl)) =~= mirror_moves(
        king_step(b, p, d, dl),
    ));
}

/// Whether `m` is the king's step number `k`.
pub open spec fn king_steps_by(b: BoardView, p: Position, d: u64, k: int, m: MoveView) -> bool {
    king_step(b, p, d, king_ring()[k]).contains(m)
}

proof fn lemma_king_steps_has(b: BoardView, p: Position, d: u64, n: int, m: MoveView)
    requires
        0 <= n <= 8,
    ensures
        king_steps(b, p, d, n).contains(m) <==> exists|k: int|
            0 <= k < n && #[trigger] king_steps_by(b, p, d, k, m),
    decreases n,
{
    if n > 0 {
        lemma_king_steps_has(b, p, d, n - 1, m);
        lemma_concat_has(king_steps(b, p, d, n - 1), king_step(b, p, d, king_ring()[n - 1]), m);
        if king_step(b, p, d, king_ring()[n - 1]).contains(m) {
            assert(king_steps_by(b, p, d, n - 1, m));
        }
    }
}

/// The place in the ring of the king's steps of the step turned round.
pub open spec fn turned_place(k: int) -> int {
    if k == 0 {
        2
    } else if k == 2 {
        0
    } else if k == 3 {
        4
    } else if k == 4 {
        3
    } else if k == 5 {
        7
    } else if k == 7 {
        5
    } else {
        k
    }
}

proof fn lemma_king_ring_turns(k: int)
    requires
        0 <= k < 8,
    ensures
        0 <= turned_place(k) < 8,
        turned_place(turned_place(k)) == k,
        king_ring()[turned_place(k)] == turned_step(king_ring()[k]),
        -1 <= king_ring()[k].0 <= 1,
        -1 <= king_ring()[k].1 <= 1,
{
}

proof fn lemma_king_steps_turned(b: BoardView, p: Position, d: u64, e: u64)
    requires
        b.wf(),
        on_board(p),
        mirrored_masks(d, e),
    ensures
        turned_lists(king_steps(b, p, d, 8), king_steps(mirror_board(b), mirror(p), e, 8)),
{
    let t = mirror_board(b);
    let q = mirror(p);
    let l = king_steps(b, p, d, 8);
    let r = king_steps(t, q, e, 8);
    assert forall|m: MoveView| #[trigger] l.contains(m) implies m.in_bounds() && r.contains(
        mirror_move(m),
    ) by {
        lemma_king_steps_has(b, p, d, 8, m);
        let k = choose|k: int| 0 <= k < 8 && #[trigger] king_steps_by(b, p, d, k, m);
        lemma_king_ring_turns(k);
        lemma_king_step_turned(b, p, d, e, king_ring()[k]);
        let one = king_step(b, p, d, king_ring()[k]);
        lemma_turned_in_order(one, p);
        lemma_turned_there(one, mirror_moves(one), m);
        assert(king_steps_by(t, q, e, turned_place(k), mirror_move(m)));
        lemma_king_steps_has(t, q, e, 8, mirror_move(m));
    }
    assert forall|m: MoveView| #[trigger] r.contains(m) implies m.in_bounds() && l.contains(
        mirror_move(m),
    ) by {
        lemma_king_steps_has(t, q, e, 8, m);
        let j = choose|j: int| 0 <= j < 8 && #[trigger] king_steps_by(t, q, e, j, m);
        let k = turned_place(j);
        lemma_king_ring_turns(j);
        lemma_king_ring_turns(k);
        lemma_king_step_turned(b, p, d, e, king_ring()[k]);
        let one = king_step(b, p, d, king_ring()[k]);
        lemma_turned_in_order(one, p);
        lemma_turned_here(one, mirror_moves(one), m);
        assert(king_steps_by(b, p, d, k, mirror_move(m)));
        lemma_king_steps_has(b, p, d, 8, mirror_move(m));
    }
    lemma_turned_intro(l, r);
}

proof fn lemma_castling_turned(b: BoardView, p: Position, c: Color, d: u64, e: u64)
    requires
        b.wf(),
        on_board(p),
        mirrored_masks(d, e),
    ensures
        may_castle_short(mirror_board(b), mirror(p), c.inverted(), e) == may_castle_short(
            b,
            p,
            c,
            d,
        ),
        may_castle_long(mirror_board(b), mirror(p), c.inverted(), e) == may_castle_long(b, p, c, d),
{
    let y = p.1;
    lemma_mirror_board_at(b, (0, y));
    lemma_mirror_board_at(b, (1, y));
    lemma_mirror_board_at(b, (2, y));
    lemma_mirror_board_at(b, (3, y));
    lemma_mirror_board_at(b, (5, y));
    lemma_mirror_board_at(b, (6, y));
    lemma_mirror_board_at(b, (7, y));
    assert(danger_bit(e, mirror(p)) == danger_bit(d, p));
    assert(danger_bit(e, mirror((2, y))) == danger_bit(d, (2, y)));
    assert(danger_bit(e, mirror((3, y))) == danger_bit(d, (3, y)));
    assert(danger_bit(e, mirror((5, y))) == danger_bit(d, (5, y)));
    assert(danger_bit(e, mirror((6, y))) == danger_bit(d, (6, y)));
    assert(mirror_board(b).side(c.inverted()) == turned_side(b.side(c)));
}

/// A king's moves on the turned board are its moves here, turned round.
proof fn lemma_king_turned(b: BoardView, p: Position, d: u64, e: u64)
    requires
        b.wf(),
        on_board(p),
        mirrored_masks(d, e),
    ensures
        turned_lists(king_moves(b, p, d), king_moves(mirror_board(b), mirror(p), e)),
{
    let t = mirror_board(b);
    let q = mirror(p);
    lemma_mirror_board_at(b, p);
    if b.color_at(p) is Some {
        let c = b.color_at(p).unwrap();
        lemma_castling_turned(b, p, c, d, e);
        lemma_king_steps_turned(b, p, d, e);
        let short = if may_castle_short(b, p, c, d) {
            seq![king_move(p, (6, p.1), MoveType::Castling)]
        } else {
            Seq::empty()
        };
        let long = if may_castle_long(b, p, c, d) {
            seq![king_move(p, (2, p.1), MoveType::Castling)]
        } else {
            Seq::empty()
        };
        assert(all_from(short, p));
        assert(all_from(long, p));
        lemma_turned_in_order(short, p);
        lemma_turned_in_order(long, p);
        let t_short = if may_castle_short(t, q, c.inverted(), e) {
            seq![king_move(q, (6, q.1), MoveType::Castling)]
        } else {
            Seq::empty()
        };
        let t_long = if may_castle_long(t, q, c.inverted(), e) {
            seq![king_move(q, (2, q.1), MoveType::Castling)]
        } else {
            Seq::empty()
        };
        assert(t_short =~= mirror_moves(short));
        assert(t_long =~= mirror_moves(long));
        lemma_turned_joined(
            king_steps(b, p, d, 8),
            king_steps(t, q, e, 8),
            short,
            t_short,
        );
        lemma_turned_joined(
            king_steps(b, p, d, 8) + short,
            king_steps(t, q, e, 8) + t_short,
            long,
            t_long,
        );
    } else {
        lemma_turned_empty();
    }
}

/// What a program without left and right gives a piece where nothing is
/// attacked and nobody in check, it gives on the turned board, turned round.
proof fn lemma_plain_program_turned(program: Seq<Seq<Instr>>, b: BoardView, p: Position)
    requires
        b.wf(),
        on_board(p),
        program_unsided(program),
    ensures
        turned_lists(
            script_moves(program, b, p, 0, false),
            script_moves(program, mirror_board(b), mirror(p), 0, false),
        ),
{
    lemma_quiet_script_moves_mirror(program, b, p, false);
    if b.at(p) is Occupied {
        lemma_run_chains_sound(program, scene_of(b, p, 0, false), program.len() as int);
    }
    lemma_turned_in_order(script_moves(program, b, p, 0, false), p);
}

proof fn lemma_catalog_programs_unsided()
    ensures
        forall|mark: Option<Seq<char>>| program_unsided(#[trigger] rook_program(mark)),
        program_unsided(wasp_program()),
        program_unsided(tempest_rook_program()),
        program_unsided(chameleon_walk_program()),
        program_unsided(pseudo_pawn_program()),
{
    assert forall|mark: Option<Seq<char>>| program_unsided(#[trigger] rook_program(mark)) by {
        let program = rook_program(mark);
        assert forall|i: int| 0 <= i < program.len() implies chain_unsided(#[trigger] program[i]) by {
            let chain = program[i];
            assert forall|k: int| 0 <= k < chain.len() implies !is_sided(#[trigger] chain[k].op) by {}
        }
    }
    let wasp = wasp_program();
    assert forall|i: int| 0 <= i < wasp.len() implies chain_unsided(#[trigger] wasp[i]) by {
        let chain = wasp[i];
        assert forall|k: int| 0 <= k < chain.len() implies !is_sided(#[trigger] chain[k].op) by {}
    }
    let tempest = tempest_rook_program();
    assert forall|i: int| 0 <= i < tempest.len() implies chain_unsided(#[trigger] tempest[i]) by {
        let chain = tempest[i];
        assert forall|k: int| 0 <= k < chain.len() implies !is_sided(#[trigger] chain[k].op) by {}
    }
    let walk = chameleon_walk_program();
    assert forall|i: int| 0 <= i < walk.len() implies chain_unsided(#[trigger] walk[i]) by {
        let chain = walk[i];
        assert forall|k: int| 0 <= k < chain.len() implies !is_sided(#[trigger] chain[k].op) by {}
    }
    let pawn = pseudo_pawn_program();
    assert forall|i: int| 0 <= i < pawn.len() implies chain_unsided(#[trigger] pawn[i]) by {
        let chain = pawn[i];
        assert forall|k: int| 0 <= k < chain.len() implies !is_sided(#[trigger] chain[k].op) by {}
    }
}

/// A rook's moves on the turned board are its moves here, turned round.
proof fn lemma_rook_turned(b: BoardView, p: Position)
    requires
        b.wf(),
        on_board(p),
    ensures
        turned_lists(rook_moves(b, p), rook_moves(mirror_board(b), mirror(p))),
{
    lemma_mirror_board_at(b, p);
    if b.color_at(p) is Some {
        let c = b.color_at(p).unwrap();
        let mark = rook_mark(c, p);
        assert(rook_mark(c.inverted(), mirror(p)) == mark);
        lemma_catalog_programs_unsided();
        lemma_plain_program_turned(rook_program(mark), b, p);
    } else {
        lemma_turned_empty();
    }
}

/// The moves of a wasp and of a tempest rook on the turned board are their
/// moves here, turned round.
proof fn lemma_wasp_turned(b: BoardView, p: Position)
    requires
        b.wf(),
        on_board(p),
    ensures
        turned_lists(wasp_moves(b, p), wasp_moves(mirror_board(b), mirror(p))),
        turned_lists(tempest_rook_moves(b, p), tempest_rook_moves(mirror_board(b), mirror(p))),
{
    lemma_catalog_programs_unsided();
    lemma_plain_program_turned(wasp_program(), b, p);
    lemma_plain_program_turned(tempest_rook_program(), b, p);
}

proof fn lemma_marks_turned(s: Seq<Position>, q: Position)
    ensures
        Seq::new(s.len(), |i: int| mirror(s[i])).contains(mirror(q)) <==> s.contains(q),
{
    let t = Seq::new(s.len(), |i: int| mirror(s[i]));
    if s.contains(q) {
        let i = choose|i: int| 0 <= i < s.len() && s[i] == q;
        assert(t[i] == mirror(q));
    }
    if t.contains(mirror(q)) {
        let i = choose|i: int| 0 <= i < t.len() && t[i] == mirror(q);
        lemma_mirror_twice(s[i]);
        lemma_mirror_twice(q);
        assert(s[i] == q);
    }
}

proof fn lemma_arrival_turned(from: Position, to: Position, ty: MoveType, promotes: bool)
    requires
        on_board(from),
        on_board(to),
    ensures
        pawn_arrival(mirror(from), mirror(to), ty, promotes) == mirror_moves(
            pawn_arrival(from, to, ty, promotes),
        ),
        all_from(pawn_arrival(from, to, ty, promotes), from),
{
    assert(pawn_arrival(mirror(from), mirror(to), ty, promotes) =~= mirror_moves(
        pawn_arrival(from, to, ty, promotes),
    ));
}

proof fn lemma_pushes_turned(b: BoardView, p: Position, c: Color)
    requires
        b.wf(),
        pawn_has_ahead(c, p),
    ensures
        pawn_pushes(mirror_board(b), mirror(p), c.inverted()) == mirror_moves(pawn_pushes(b, p, c)),
        all_from(pawn_pushes(b, p, c), p),
{
    let one = (p.0, pawn_ahead(c, p));
    let two = (p.0, pawn_double(c));
    lemma_mirror_board_at(b, one);
    lemma_mirror_board_at(b, two);
    lemma_arrival_turned(p, one, MoveType::Move, p.1 == pawn_last(c));
    let first = pawn_arrival(p, one, MoveType::Move, p.1 == pawn_last(c));
    let second = if p.1 == pawn_home(c) && b.color_at(two) is None {
        seq![
            MoveView {
                from: p,
                take: two,
                move_to: two,
                move_type: MoveType::Move,
                state_change: Some(enpassant_mark()),
                transition: None,
            },
        ]
    } else {
        Seq::empty()
    };
    assert(mirror_moves(first + second) =~= mirror_moves(first) + mirror_moves(second));
    assert(pawn_pushes(mirror_board(b), mirror(p), c.inverted()) =~= mirror_moves(
        pawn_pushes(b, p, c),
    )) by {
        if b.color_at(one) is None {
            assert(pawn_pushes(b, p, c) == first + second);
        } else {
            assert(pawn_pushes(b, p, c) =~= Seq::<MoveView>::empty());
        }
    }
}

proof fn lemma_passes_turned(b: BoardView, p: Position, c: Color, x: u8)
    requires
        b.wf(),
        pawn_has_ahead(c, p),
        x <= 7,
    ensures
        pawn_passes_to(mirror_board(b), mirror(p), c.inverted(), x) == mirror_moves(
            pawn_passes_to(b, p, c, x),
        ),
        all_from(pawn_passes_to(b, p, c, x), p),
{
    let other = c.inverted();
    assert(other.inverted() == c);
    assert(mirror_board(b).side(c) == turned_side(b.side(other)));
    lemma_marks_turned(b.side(other).enpassant, (x, p.1));
    assert(pawn_passes_to(mirror_board(b), mirror(p), other, x) =~= mirror_moves(
        pawn_passes_to(b, p, c, x),
    ));
}

proof fn lemma_capture_turned(b: BoardView, p: Position, c: Color, x: u8)
    requires
        b.wf(),
        pawn_has_ahead(c, p),
        x <= 7,
    ensures
        pawn_capture(mirror_board(b), mirror(p), c.inverted(), x) == mirror_moves(
            pawn_capture(b, p, c, x),
        ),
        all_from(pawn_capture(b, p, c, x), p),
{
    let to = (x, pawn_ahead(c, p));
    lemma_mirror_board_at(b, to);
    lemma_arrival_turned(p, to, MoveType::Take, p.1 == pawn_last(c));
    assert(mirror_moves(Seq::<MoveView>::empty()) =~= Seq::<MoveView>::empty());
}

proof fn lemma_mirror_moves_joined(a: Seq<MoveView>, b: Seq<MoveView>, p: Position)
    requires
        all_from(a, p),
        all_from(b, p),
    ensures
        mirror_moves(a + b) == mirror_moves(a) + mirror_moves(b),
        all_from(a + b, p),
{
    assert(mirror_moves(a + b) =~= mirror_moves(a) + mirror_moves(b));
}

/// A pawn's moves on the turned board are its moves here, turned round.
proof fn lemma_pawn_turned(b: BoardView, p: Position)
    requires
        b.wf(),
        on_board(p),
    ensures
        turned_lists(pawn_moves(b, p), pawn_moves(mirror_board(b), mirror(p))),
{
    let t = mirror_board(b);
    let q = mirror(p);
    lemma_mirror_board_at(b, p);
    assert(mirror_moves(Seq::<MoveView>::empty()) =~= Seq::<MoveView>::empty());
    if b.color_at(p) is Some && pawn_has_ahead(b.color_at(p).unwrap(), p) {
        let c = b.color_at(p).unwrap();
        let o = c.inverted();
        assert(pawn_has_ahead(o, q));
        lemma_pushes_turned(b, p, c);
        let left = (p.0 - 1) as u8;
        let right = (p.0 + 1) as u8;
        let e = Seq::<MoveView>::empty();
        let pass_left = if p.0 > 0 {
            pawn_passes_to(b, p, c, left)
        } else {
            e
        };
        let pass_right = if p.0 < 7 {
            pawn_passes_to(b, p, c, right)
        } else {
            e
        };
        let take_left = if p.0 > 0 {
            pawn_capture(b, p, c, left)
        } else {
            e
        };
        let take_right = if p.0 < 7 {
            pawn_capture(b, p, c, right)
        } else {
            e
        };
        if p.0 > 0 {
            lemma_passes_turned(b, p, c, left);
            lemma_capture_turned(b, p, c, left);
        }
        if p.0 < 7 {
            lemma_passes_turned(b, p, c, right);
            lemma_capture_turned(b, p, c, right);
        }
        lemma_mirror_moves_joined(pass_left, pass_right, p);
        lemma_mirror_moves_joined(take_left, take_right, p);
        let passing = pawn_passing_moves(b, p, c);
        assert(all_from(passing, p) && pawn_passing_moves(t, q, o) == mirror_moves(passing)) by {
            if p.1 == pawn_passing(c) {
                assert(passing == pass_left + pass_right);
            }
        }
        let takes = pawn_captures(b, p, c);
        assert(takes == take_left + take_right);
        assert(pawn_captures(t, q, o) == mirror_moves(takes));
        lemma_mirror_moves_joined(pawn_pushes(b, p, c), passing, p);
        lemma_mirror_moves_joined(pawn_pushes(b, p, c) + passing, takes, p);
        assert(pawn_moves(t, q) == mirror_moves(pawn_moves(b, p)));
        lemma_turned_in_order(pawn_moves(b, p), p);
    } else {
        assert(pawn_moves(b, p) =~= Seq::<MoveView>::empty());
        assert(pawn_moves(t, q) =~= Seq::<MoveView>::empty());
        lemma_turned_empty();
    }
}

/// Whether the first `n` steps of the list hold with each step the step
/// turned round, at the place that `f` gives.
pub open spec fn steps_turn(ds: Seq<DeltaPosition>, n: int, f: spec_fn(int) -> int) -> bool {
    &&& 0 <= n <= ds.len()
    &&& forall|k: int|
        0 <= k < n ==> 0 <= #[trigger] f(k) < n && f(f(k)) == k && ds[f(k)] == turned_step(ds[k])
            && ds[k].1 > -128
}

proof fn lemma_leap_turned(b: BoardView, p: Position, d: DeltaPosition)
    requires
        b.wf(),
        on_board(p),
        d.1 > -128,
    ensures
        leap(mirror_board(b), mirror(p), turned_step(d)) == mirror_moves(leap(b, p, d)),
        all_from(leap(b, p, d), p),
{
    lemma_mirror_board_at(b, p);
    assert(step_lands(mirror(p), turned_step(d)) == step_lands(p, d));
    if step_lands(p, d) {
        let s = stepped(p, d);
        lemma_mirror_board_at(b, s);
        assert(on_board(s));
        assert(stepped(mirror(p), turned_step(d)) == mirror(s));
    }
    assert(leap(mirror_board(b), mirror(p), turned_step(d)) =~= mirror_moves(leap(b, p, d)));
}

/// Whether `m` is the leap by step number `k` of the list.
pub open spec fn leaps_by(b: BoardView, p: Position, ds: Seq<DeltaPosition>, k: int, m: MoveView) -> bool {
    leap(b, p, ds[k]).contains(m)
}

proof fn lemma_leaps_has(b: BoardView, p: Position, ds: Seq<DeltaPosition>, n: int, m: MoveView)
    requires
        0 <= n,
    ensures
        leaps(b, p, ds, n).contains(m) <==> exists|k: int|
            0 <= k < n && #[trigger] leaps_by(b, p, ds, k, m),
    decreases n,
{
    if n > 0 {
        lemma_leaps_has(b, p, ds, n - 1, m);
        lemma_concat_has(leaps(b, p, ds, n - 1), leap(b, p, ds[n - 1]), m);
        if leap(b, p, ds[n - 1]).contains(m) {
            assert(leaps_by(b, p, ds, n - 1, m));
        }
    }
}

/// The leaps of a piece by steps that hold with each step the step turned
/// round are on the turned board its leaps here, turned round.
proof fn lemma_leaps_turned(
    b: BoardView,
    p: Position,
    ds: Seq<DeltaPosition>,
    n: int,
    f: spec_fn(int) -> int,
)
    requires
        b.wf(),
        on_board(p),
        steps_turn(ds, n, f),
    ensures
        turned_lists(leaps(b, p, ds, n), leaps(mirror_board(b), mirror(p), ds, n)),
{
    let t = mirror_board(b);
    let q = mirror(p);
    let l = leaps(b, p, ds, n);
    let r = leaps(t, q, ds, n);
    assert forall|m: MoveView| #[trigger] l.contains(m) implies m.in_bounds() && r.contains(
        mirror_move(m),
    ) by {
        lemma_leaps_has(b, p, ds, n, m);
        let k = choose|k: int| 0 <= k < n && #[trigger] leaps_by(b, p, ds, k, m);
        assert(0 <= f(k) < n);
        lemma_leap_turned(b, p, ds[k]);
        lemma_turned_in_order(leap(b, p, ds[k]), p);
        lemma_turned_there(leap(b, p, ds[k]), mirror_moves(leap(b, p, ds[k])), m);
        assert(leaps_by(t, q, ds, f(k), mirror_move(m)));
        lemma_leaps_has(t, q, ds, n, mirror_move(m));
    }
    assert forall|m: MoveView| #[trigger] r.contains(m) implies m.in_bounds() && l.contains(
        mirror_move(m),
    ) by {
        lemma_leaps_has(t, q, ds, n, m);
        let j = choose|j: int| 0 <= j < n && #[trigger] leaps_by(t, q, ds, j, m);
        let k = f(j);
        assert(0 <= f(k) < n);
        lemma_leap_turned(b, p, ds[k]);
        lemma_turned_in_order(leap(b, p, ds[k]), p);
        lemma_turned_here(leap(b, p, ds[k]), mirror_moves(leap(b, p, ds[k])), m);
        assert(leaps_by(b, p, ds, k, mirror_move(m)));
        lemma_leaps_has(b, p, ds, n, mirror_move(m));
    }
    lemma_turned_intro(l, r);
}

proof fn lemma_leaps_in_step(
    b: BoardView,
    p: Position,
    ds: Seq<DeltaPosition>,
    ts: Seq<DeltaPosition>,
    n: int,
)
    requires
        b.wf(),
        on_board(p),
        0 <= n <= ds.len(),
        n <= ts.len(),
        forall|k: int| 0 <= k < n ==> (#[trigger] ds[k]).1 > -128 && ts[k] == turned_step(ds[k]),
    ensures
        leaps(mirror_board(b), mirror(p), ts, n) == mirror_moves(leaps(b, p, ds, n)),
        all_from(leaps(b, p, ds, n), p),
    decreases n,
{
    if n > 0 {
        lemma_leaps_in_step(b, p, ds, ts, n - 1);
        lemma_leap_turned(b, p, ds[n - 1]);
        lemma_mirror_moves_joined(leaps(b, p, ds, n - 1), leap(b, p, ds[n - 1]), p);
    } else {
        assert(mirror_moves(Seq::<MoveView>::empty()) =~= Seq::<MoveView>::empty());
    }
}

/// A dozer's moves on the turned board are its moves here, turned round.
proof fn lemma_dozer_turned(b: BoardView, p: Position)
    requires
        b.wf(),
        on_board(p),
    ensures
        turned_lists(dozer_moves(b, p), dozer_moves(mirror_board(b), mirror(p))),
{
    lemma_mirror_board_at(b, p);
    if b.color_at(p) is Some {
        let c = b.color_at(p).unwrap();
        let ds = dozer_steps(c);
        let ts = dozer_steps(c.inverted());
        assert forall|k: int| 0 <= k < 5 implies (#[trigger] ds[k]).1 > -128 && ts[k]
            == turned_step(ds[k]) by {}
        lemma_leaps_in_step(b, p, ds, ts, 5);
        lemma_turned_in_order(dozer_moves(b, p), p);
    } else {
        lemma_turned_empty();
    }
}

proof fn lemma_slide_turned(b: BoardView, p: Position, cur: Position, d: DeltaPosition, fuel: nat)
    requires
        b.wf(),
        on_board(p),
        on_board(cur),
        d.1 > -128,
    ensures
        slide(mirror_board(b), mirror(p), mirror(cur), turned_step(d), fuel) == mirror_moves(
            slide(b, p, cur, d, fuel),
        ),
        all_from(slide(b, p, cur, d, fuel), p),
    decreases fuel,
{
    let t = mirror_board(b);
    lemma_mirror_board_at(b, p);
    assert(step_lands(mirror(cur), turned_step(d)) == step_lands(cur, d));
    if fuel > 0 && b.color_at(p) is Some && step_lands(cur, d) {
        let next = stepped(cur, d);
        lemma_mirror_board_at(b, next);
        assert(on_board(next));
        assert(stepped(mirror(cur), turned_step(d)) == mirror(next));
        lemma_slide_turned(b, p, next, d, (fuel - 1) as nat);
    }
    assert(slide(t, mirror(p), mirror(cur), turned_step(d), fuel) =~= mirror_moves(
        slide(b, p, cur, d, fuel),
    ));
}

/// Whether `m` is on the slide by step number `k` of the list.
pub open spec fn slides_by(b: BoardView, p: Position, ds: Seq<DeltaPosition>, k: int, m: MoveView) -> bool {
    slide(b, p, p, ds[k], 8).contains(m)
}

proof fn lemma_slides_has(b: BoardView, p: Position, ds: Seq<DeltaPosition>, n: int, m: MoveView)
    requires
        0 <= n,
    ensures
        slides(b, p, ds, n).contains(m) <==> exists|k: int|
            0 <= k < n && #[trigger] slides_by(b, p, ds, k, m),
    decreases n,
{
    if n > 0 {
        lemma_slides_has(b, p, ds, n - 1, m);
        lemma_concat_has(slides(b, p, ds, n - 1), slide(b, p, p, ds[n - 1], 8), m);
        if slide(b, p, p, ds[n - 1], 8).contains(m) {
            assert(slides_by(b, p, ds, n - 1, m));
        }
    }
}

/// The slides of a piece by steps that hold with each step the step turned
/// round are on the turned board its slides here, turned round.
proof fn lemma_slides_turned(
    b: BoardView,
    p: Position,
    ds: Seq<DeltaPosition>,
    n: int,
    f: spec_fn(int) -> int,
)
    requires
        b.wf(),
        on_board(p),
        steps_turn(ds, n, f),
    ensures
        turned_lists(slides(b, p, ds, n), slides(mirror_board(b), mirror(p), ds, n)),
{
    let t = mirror_board(b);
    let q = mirror(p);
    let l = slides(b, p, ds, n);
    let r = slides(t, q, ds, n);
    assert forall|m: MoveView| #[trigger] l.contains(m) implies m.in_bounds() && r.contains(
        mirror_move(m),
    ) by {
        lemma_slides_has(b, p, ds, n, m);
        let k = choose|k: int| 0 <= k < n && #[trigger] slides_by(b, p, ds, k, m);
        assert(0 <= f(k) < n);
        lemma_slide_turned(b, p, p, ds[k], 8);
        lemma_turned_in_order(slide(b, p, p, ds[k], 8), p);
        lemma_turned_there(slide(b, p, p, ds[k], 8), mirror_moves(slide(b, p, p, ds[k], 8)), m);
        assert(slides_by(t, q, ds, f(k), mirror_move(m)));
        lemma_slides_has(t, q, ds, n, mirror_move(m));
    }
    assert forall|m: MoveView| #[trigger] r.contains(m) implies m.in_bounds() && l.contains(
        mirror_move(m),
    ) by {
        lemma_slides_has(t, q, ds, n, m);
        let j = choose|j: int| 0 <= j < n && #[trigger] slides_by(t, q, ds, j, m);
        let k = f(j);
        assert(0 <= f(k) < n);
        lemma_slide_turned(b, p, p, ds[k], 8);
        lemma_turned_in_order(slide(b, p, p, ds[k], 8), p);
        lemma_turned_here(slide(b, p, p, ds[k], 8), mirror_moves(slide(b, p, p, ds[k], 8)), m);
        assert(slides_by(b, p, ds, k, mirror_move(m)));
        lemma_slides_has(b, p, ds, n, mirror_move(m));
    }
    lemma_turned_intro(l, r);
}

/// The place of the turned step where the steps come in pairs.
pub open spec fn pair_turn(k: int) -> int {
    if k % 2 == 0 {
        k + 1
    } else {
        k - 1
    }
}

/// The place of the turned step where the steps come in pairs behind two
/// steps along the rank.
pub open spec fn late_pair_turn(k: int) -> int {
    if k < 2 {
        k
    } else {
        pair_turn(k)
    }
}

/// The place of the turned step where it stands two places from the step.
pub open spec fn far_turn(k: int) -> int {
    if k % 4 < 2 {
        k + 2
    } else {
        k - 2
    }
}

proof fn lemma_rook_steps_turn()
    ensures
        steps_turn(rook_steps(), 4, |k: int| late_pair_turn(k)),
        steps_turn(bishop_steps(), 4, |k: int| pair_turn(k)),
        steps_turn(queen_steps(), 8, |k: int| late_pair_turn(k)),
        steps_turn(alfil_steps(), 4, |k: int| pair_turn(k)),
        steps_turn(bard_steps(), 8, |k: int| late_pair_turn(k)),
{
    let r = rook_steps();
    let d = bishop_steps();
    let q = queen_steps();
    let a = alfil_steps();
    let w = bard_steps();
    assert(r[0] == (1i8, 0i8) && r[1] == (-1i8, 0i8) && r[2] == (0i8, 1i8) && r[3] == (0i8, -1i8));
    assert(d[0] == (1i8, 1i8) && d[1] == (1i8, -1i8) && d[2] == (-1i8, 1i8) && d[3] == (
        -1i8,
        -1i8,
    ));
    assert(a[0] == (2i8, 2i8) && a[1] == (2i8, -2i8) && a[2] == (-2i8, 2i8) && a[3] == (
        -2i8,
        -2i8,
    ));
    assert(q[0] == r[0] && q[1] == r[1] && q[2] == r[2] && q[3] == r[3]);
    assert(q[4] == d[0] && q[5] == d[1] && q[6] == d[2] && q[7] == d[3]);
    assert(w[0] == (2i8, 0i8) && w[1] == (-2i8, 0i8) && w[2] == (0i8, 2i8) && w[3] == (0i8, -2i8));
    assert(w[4] == a[0] && w[5] == a[1] && w[6] == a[2] && w[7] == a[3]);
}

proof fn lemma_ij_steps_turn(i: i8, j: i8)
    requires
        -127 <= i <= 127,
        -127 <= j <= 127,
    ensures
        steps_turn(ij_steps(i, j), 8, |k: int| far_turn(k)),
{
    let s = ij_steps(i, j);
    assert(s[0] == (i, j) && s[1] == (opposite(i), j) && s[2] == (i, opposite(j)) && s[3] == (
        opposite(i),
        opposite(j),
    ));
    assert(s[4] == (j, i) && s[5] == (opposite(j), i) && s[6] == (j, opposite(i)) && s[7] == (
        opposite(j),
        opposite(i),
    ));
}

proof fn lemma_ij_turned(b: BoardView, p: Position, i: i8, j: i8)
    requires
        b.wf(),
        on_board(p),
        -127 <= i <= 127,
        -127 <= j <= 127,
    ensures
        turned_lists(ij_moves(b, p, i, j), ij_moves(mirror_board(b), mirror(p), i, j)),
{
    lemma_ij_steps_turn(i, j);
    lemma_leaps_turned(b, p, ij_steps(i, j), 8, |k: int| far_turn(k));
}

/// What the leapers and riders of the catalog do on the turned board is
/// what they do here, turned round.
proof fn lemma_catalog_turned(b: BoardView, p: Position)
    requires
        b.wf(),
        on_board(p),
    ensures
        turned_lists(knight_moves(b, p), knight_moves(mirror_board(b), mirror(p))),
        turned_lists(bishop_moves(b, p), bishop_moves(mirror_board(b), mirror(p))),
        turned_lists(queen_moves(b, p), queen_moves(mirror_board(b), mirror(p))),
        turned_lists(alfil_moves(b, p), alfil_moves(mirror_board(b), mirror(p))),
        turned_lists(bard_moves(b, p), bard_moves(mirror_board(b), mirror(p))),
        turned_lists(amazon_moves(b, p), amazon_moves(mirror_board(b), mirror(p))),
        turned_lists(chancellor_moves(b, p), chancellor_moves(mirror_board(b), mirror(p))),
        turned_lists(archbishop_moves(b, p), archbishop_moves(mirror_board(b), mirror(p))),
        turned_lists(centaur_moves(b, p), centaur_moves(mirror_board(b), mirror(p))),
{
    let t = mirror_board(b);
    let q = mirror(p);
    lemma_rook_steps_turn();
    lemma_ij_turned(b, p, 2, 1);
    lemma_slides_turned(b, p, bishop_steps(), 4, |k: int| pair_turn(k));
    lemma_slides_turned(b, p, rook_steps(), 4, |k: int| late_pair_turn(k));
    lemma_slides_turned(b, p, queen_steps(), 8, |k: int| late_pair_turn(k));
    lemma_leaps_turned(b, p, queen_steps(), 8, |k: int| late_pair_turn(k));
    lemma_leaps_turned(b, p, alfil_steps(), 4, |k: int| pair_turn(k));
    lemma_leaps_turned(b, p, bard_steps(), 8, |k: int| late_pair_turn(k));
    lemma_turned_joined(
        knight_moves(b, p),
        knight_moves(t, q),
        slides(b, p, queen_steps(), 8),
        slides(t, q, queen_steps(), 8),
    );
    lemma_turned_joined(
        knight_moves(b, p),
        knight_moves(t, q),
        slides(b, p, rook_steps(), 4),
        slides(t, q, rook_steps(), 4),
    );
    lemma_turned_joined(
        knight_moves(b, p),
        knight_moves(t, q),
        slides(b, p, bishop_steps(), 4),
        slides(t, q, bishop_steps(), 4),
    );
    lemma_turned_joined(
        knight_moves(b, p),
        knight_moves(t, q),
        leaps(b, p, queen_steps(), 8),
        leaps(t, q, queen_steps(), 8),
    );
}

proof fn lemma_catch_turned(b: BoardView, p: Position, d: DeltaPosition)
    requires
        b.wf(),
        on_board(p),
        d.1 > -128,
    ensures
        chameleon_catch(mirror_board(b), mirror(p), turned_step(d)) == mirror_moves(
            chameleon_catch(b, p, d),
        ),
        all_from(chameleon_catch(b, p, d), p),
{
    lemma_mirror_board_at(b, p);
    assert(step_lands(mirror(p), turned_step(d)) == step_lands(p, d));
    if step_lands(p, d) {
        let s = stepped(p, d);
        lemma_mirror_board_at(b, s);
        assert(on_board(s));
        assert(stepped(mirror(p), turned_step(d)) == mirror(s));
    }
    assert(chameleon_catch(mirror_board(b), mirror(p), turned_step(d)) =~= mirror_moves(
        chameleon_catch(b, p, d),
    ));
}

/// Whether `m` is the chameleon's catch number `k`.
pub open spec fn catches_by(b: BoardView, p: Position, k: int, m: MoveView) -> bool {
    chameleon_catch(b, p, alfil_steps()[k]).contains(m)
}

proof fn lemma_catches_has(b: BoardView, p: Position, n: int, m: MoveView)
    requires
        0 <= n,
    ensures
        chameleon_catches(b, p, n).contains(m) <==> exists|k: int|
            0 <= k < n && #[trigger] catches_by(b, p, k, m),
    decreases n,
{
    if n > 0 {
        lemma_catches_has(b, p, n - 1, m);
        lemma_concat_has(
            chameleon_catches(b, p, n - 1),
            chameleon_catch(b, p, alfil_steps()[n - 1]),
            m,
        );
        if chameleon_catch(b, p, alfil_steps()[n - 1]).contains(m) {
            assert(catches_by(b, p, n - 1, m));
        }
    }
}

proof fn lemma_catches_turned(b: BoardView, p: Position)
    requires
        b.wf(),
        on_board(p),
    ensures
        turned_lists(chameleon_catches(b, p, 4), chameleon_catches(mirror_board(b), mirror(p), 4)),
{
    let t = mirror_board(b);
    let q = mirror(p);
    let ds = alfil_steps();
    let l = chameleon_catches(b, p, 4);
    let r = chameleon_catches(t, q, 4);
    lemma_rook_steps_turn();
    let f = |k: int| pair_turn(k);
    assert(steps_turn(ds, 4, f));
    assert forall|m: MoveView| #[trigger] l.contains(m) implies m.in_bounds() && r.contains(
        mirror_move(m),
    ) by {
        lemma_catches_has(b, p, 4, m);
        let k = choose|k: int| 0 <= k < 4 && #[trigger] catches_by(b, p, k, m);
        assert(0 <= f(k) < 4);
        let one = chameleon_catch(b, p, ds[k]);
        lemma_catch_turned(b, p, ds[k]);
        lemma_turned_in_order(one, p);
        lemma_turned_there(one, mirror_moves(one), m);
        assert(catches_by(t, q, f(k), mirror_move(m)));
        lemma_catches_has(t, q, 4, mirror_move(m));
    }
    assert forall|m: MoveView| #[trigger] r.contains(m) implies m.in_bounds() && l.contains(
        mirror_move(m),
    ) by {
        lemma_catches_has(t, q, 4, m);
        let j = choose|j: int| 0 <= j < 4 && #[trigger] catches_by(t, q, j, m);
        let k = f(j);
        assert(0 <= f(k) < 4);
        let one = chameleon_catch(b, p, ds[k]);
        lemma_catch_turned(b, p, ds[k]);
        lemma_turned_in_order(one, p);
        lemma_turned_here(one, mirror_moves(one), m);
        assert(catches_by(b, p, k, mirror_move(m)));
        lemma_catches_has(b, p, 4, mirror_move(m));
    }
    lemma_turned_intro(l, r);
}

/// A chameleon's moves on the turned board are its moves here, turned
/// round.
proof fn lemma_chameleon_turned(b: BoardView, p: Position)
    requires
        b.wf(),
        on_board(p),
    ensures
        turned_lists(chameleon_moves(b, p), chameleon_moves(mirror_board(b), mirror(p))),
{
    lemma_catalog_programs_unsided();
    lemma_plain_program_turned(chameleon_walk_program(), b, p);
    lemma_catches_turned(b, p);
    lemma_turned_joined(
        script_moves(chameleon_walk_program(), b, p, 0, false),
        script_moves(chameleon_walk_program(), mirror_board(b), mirror(p), 0, false),
        chameleon_catches(b, p, 4),
        chameleon_catches(mirror_board(b), mirror(p), 4),
    );
}

/// The beacon's move from `p` to square `i` of the grid.
pub open spec fn beacon_to(p: Position, i: int) -> MoveView {
    MoveView {
        from: p,
        take: p,
        move_to: square_at(i),
        move_type: MoveType::Shift,
        state_change: None,
        transition: None,
    }
}

/// Whether `m` is the move of the beacon of `c` on `p` to square `i`.
pub open spec fn beacon_by(b: BoardView, p: Position, c: Color, i: int, m: MoveView) -> bool {
    beacon_reaches(b, c, i) && m == beacon_to(p, i)
}

proof fn lemma_beacon_has(b: BoardView, p: Position, c: Color, n: int, m: MoveView)
    requires
        0 <= n,
    ensures
        beacon_moves_upto(b, p, c, n).contains(m) <==> exists|i: int|
            0 <= i < n && #[trigger] beacon_by(b, p, c, i, m),
    decreases n,
{
    if n > 0 {
        lemma_beacon_has(b, p, c, n - 1, m);
        lemma_push_has(beacon_moves_upto(b, p, c, n - 1), beacon_to(p, n - 1), m);
        if beacon_reaches(b, c, n - 1) && m == beacon_to(p, n - 1) {
            assert(beacon_by(b, p, c, n - 1, m));
        }
    }
}

proof fn lemma_beacon_there(b: BoardView, p: Position, c: Color, i: int)
    requires
        b.wf(),
        on_board(p),
        0 <= i < 64,
    ensures
        0 <= turned_index(i) < 64,
        beacon_reaches(mirror_board(b), c.inverted(), turned_index(i)) == beacon_reaches(b, c, i),
        beacon_to(mirror(p), turned_index(i)) == mirror_move(beacon_to(p, i)),
        beacon_to(p, i).in_bounds(),
{
    lemma_turned_index(i);
    lemma_mirror_board_at(b, square_at(i));
}

/// A beacon's moves on the turned board are its moves here, turned round.
proof fn lemma_beacon_turned(b: BoardView, p: Position)
    requires
        b.wf(),
        on_board(p),
    ensures
        turned_lists(beacon_moves(b, p), beacon_moves(mirror_board(b), mirror(p))),
{
    let t = mirror_board(b);
    let q = mirror(p);
    lemma_mirror_board_at(b, p);
    lemma_mirror_twice(p);
    if b.color_at(p) is Some {
        let c = b.color_at(p).unwrap();
        let o = c.inverted();
        let l = beacon_moves_upto(b, p, c, 64);
        let r = beacon_moves_upto(t, q, o, 64);
        assert forall|m: MoveView| #[trigger] l.contains(m) implies m.in_bounds() && r.contains(
            mirror_move(m),
        ) by {
            lemma_beacon_has(b, p, c, 64, m);
            let i = choose|i: int| 0 <= i < 64 && #[trigger] beacon_by(b, p, c, i, m);
            lemma_beacon_there(b, p, c, i);
            assert(beacon_by(t, q, o, turned_index(i), mirror_move(m)));
            lemma_beacon_has(t, q, o, 64, mirror_move(m));
        }
        assert forall|m: MoveView| #[trigger] r.contains(m) implies m.in_bounds() && l.contains(
            mirror_move(m),
        ) by {
            lemma_beacon_has(t, q, o, 64, m);
            let j = choose|j: int| 0 <= j < 64 && #[trigger] beacon_by(t, q, o, j, m);
            let i = turned_index(j);
            lemma_turned_index(j);
            lemma_turned_index(i);
            lemma_beacon_there(b, p, c, i);
            assert(turned_index(i) == j);
            lemma_mirror_move_twice(beacon_to(p, i));
            assert(beacon_by(b, p, c, i, mirror_move(m)));
            lemma_beacon_has(b, p, c, 64, mirror_move(m));
        }
        lemma_turned_intro(l, r);
    } else {
        lemma_turned_empty();
    }
}

proof fn lemma_mirrored_move_turned(b: BoardView, c: Color, m: MoveView)
    requires
        b.wf(),
    ensures
        mirrored_move(mirror_board(b), c.inverted(), mirror_move(m)) == mirror_move(
            mirrored_move(b, c, m),
        ),
        mirrored_move(b, c, m).in_bounds() == m.in_bounds(),
{
    lemma_mirror_board_at(b, m.take);
}

proof fn lemma_mirrored_base_turned(b: BoardView, p: Position, piece: Seq<char>)
    requires
        b.wf(),
        on_board(p),
    ensures
        turned_lists(mirrored_base(b, p, piece), mirrored_base(mirror_board(b), mirror(p), piece)),
{
    lemma_catalog_programs_unsided();
    lemma_plain_program_turned(pseudo_pawn_program(), b, p);
    lemma_catalog_turned(b, p);
    lemma_rook_steps_turn();
    lemma_slides_turned(b, p, rook_steps(), 4, |k: int| late_pair_turn(k));
    lemma_turned_empty();
}

/// The moves of a mirrored piece on the turned board are its moves here,
/// turned round.
proof fn lemma_mirrored_turned(b: BoardView, p: Position, piece: Seq<char>)
    requires
        b.wf(),
        on_board(p),
    ensures
        turned_lists(
            mirrored_moves(b, p, piece),
            mirrored_moves(mirror_board(b), mirror(p), piece),
        ),
{
    let t = mirror_board(b);
    let q = mirror(p);
    lemma_mirror_board_at(b, p);
    if b.color_at(p) is Some {
        let c = b.color_at(p).unwrap();
        let o = c.inverted();
        let base = mirrored_base(b, p, piece);
        let tbase = mirrored_base(t, q, piece);
        let l = mirrored_moves(b, p, piece);
        let r = mirrored_moves(t, q, piece);
        lemma_mirrored_base_turned(b, p, piece);
        assert forall|m: MoveView| #[trigger] l.contains(m) implies m.in_bounds() && r.contains(
            mirror_move(m),
        ) by {
            let i = choose|i: int| 0 <= i < l.len() && l[i] == m;
            let x = base[i];
            assert(base.contains(x));
            lemma_turned_there(base, tbase, x);
            let j = choose|j: int| 0 <= j < tbase.len() && tbase[j] == mirror_move(x);
            lemma_mirrored_move_turned(b, c, x);
            assert(r[j] == mirror_move(m));
        }
        assert forall|m: MoveView| #[trigger] r.contains(m) implies m.in_bounds() && l.contains(
            mirror_move(m),
        ) by {
            let j = choose|j: int| 0 <= j < r.len() && r[j] == m;
            let y = tbase[j];
            assert(tbase.contains(y));
            lemma_turned_here(base, tbase, y);
            let x = mirror_move(y);
            let i = choose|i: int| 0 <= i < base.len() && base[i] == x;
            lemma_mirror_move_twice(y);
            lemma_mirrored_move_turned(b, c, x);
            lemma_mirror_move_twice(mirrored_move(b, c, x));
            assert(l[i] == mirror_move(m));
        }
        lemma_turned_intro(l, r);
    } else {
        lemma_turned_empty();
    }
}

proof fn lemma_kind_names()
    ensures
        "pawn"@.len() == 4 && "pawn"@[0] == 'p',
        "king"@.len() == 4 && "king"@[0] == 'k',
        "rook"@.len() == 4 && "rook"@[0] == 'r',
        "knight"@.len() == 6 && "knight"@[0] == 'k',
        "bishop"@.len() == 6 && "bishop"@[0] == 'b' && "bishop"@[1] == 'i',
        "queen"@.len() == 5 && "queen"@[0] == 'q',
        "tempest-rook"@.len() == 12 && "tempest-rook"@[0] == 't',
        "dozer"@.len() == 5 && "dozer"@[0] == 'd',
        "alfil"@.len() == 5 && "alfil"@[0] == 'a',
        "bard"@.len() == 4 && "bard"@[0] == 'b',
        "wasp"@.len() == 4 && "wasp"@[0] == 'w',
        "amazon"@.len() == 6 && "amazon"@[0] == 'a',
        "chancellor"@.len() == 10 && "chancellor"@[0] == 'c',
        "archbishop"@.len() == 10 && "archbishop"@[0] == 'a',
        "centaur"@.len() == 7 && "centaur"@[0] == 'c',
        "zebra"@.len() == 5 && "zebra"@[0] == 'z',
        "giraffe"@.len() == 7 && "giraffe"@[0] == 'g',
        "camel"@.len() == 5 && "camel"@[0] == 'c',
        "beacon"@.len() == 6 && "beacon"@[0] == 'b' && "beacon"@[1] == 'e',
        "chameleon"@.len() == 9 && "chameleon"@[0] == 'c',
        "mirrored-pawn"@.len() == 13 && "mirrored-pawn"@[0] == 'm',
        "mirrored-bishop"@.len() == 15 && "mirrored-bishop"@[0] == 'm',
        "mirrored-rook"@.len() == 13 && "mirrored-rook"@[0] == 'm',
        "mirrored-knight"@.len() == 15 && "mirrored-knight"@[0] == 'm',
        "mirrored-queen"@.len() == 14 && "mirrored-queen"@[0] == 'm',
{
    reveal_strlit("pawn");
    reveal_strlit("king");
    reveal_strlit("rook");
    reveal_strlit("knight");
    reveal_strlit("bishop");
    reveal_strlit("queen");
    reveal_strlit("tempest-rook");
    reveal_strlit("dozer");
    reveal_strlit("alfil");
    reveal_strlit("bard");
    reveal_strlit("wasp");
    reveal_strlit("amazon");
    reveal_strlit("chancellor");
    reveal_strlit("archbishop");
    reveal_strlit("centaur");
    reveal_strlit("zebra");
    reveal_strlit("giraffe");
    reveal_strlit("camel");
    reveal_strlit("beacon");
    reveal_strlit("chameleon");
    reveal_strlit("mirrored-pawn");
    reveal_strlit("mirrored-bishop");
    reveal_strlit("mirrored-rook");
    reveal_strlit("mirrored-knight");
    reveal_strlit("mirrored-queen");
}

/// The moves of a piece on the turned board are its moves here, turned
/// round: `e` marks the mirrored squares of those that `d` marks, and
/// `check` has the same answer on both boards.
pub proof fn lemma_piece_turned(b: BoardView, p: Position, d: u64, e: u64, checked: bool)
    requires
        turns_evenly(b),
        on_board(p),
        mirrored_masks(d, e),
    ensures
        turned_lists(
            piece_moves(b, p, d, checked),
            piece_moves(mirror_board(b), mirror(p), e, checked),
        ),
{
    reveal(piece_moves);
    lemma_kind_names();
    lemma_mirror_board_at(b, p);
    match b.at(p) {
        Square::Empty => {
            lemma_turned_empty();
        },
        Square::Occupied { kind, color } => {
            assert(b.at(p) == b.squares[square_index(p)]);
            if kind == "pawn"@ {
                lemma_pawn_turned(b, p);
            } else if kind == "king"@ {
                lemma_king_turned(b, p, d, e);
            } else if kind == "rook"@ {
                lemma_rook_turned(b, p);
            } else if kind == "tempest-rook"@ || kind == "wasp"@ {
                lemma_wasp_turned(b, p);
            } else if kind == "dozer"@ {
                lemma_dozer_turned(b, p);
            } else if kind == "zebra"@ {
                lemma_ij_turned(b, p, 3, 2);
            } else if kind == "giraffe"@ {
                lemma_ij_turned(b, p, 4, 1);
            } else if kind == "camel"@ {
                lemma_ij_turned(b, p, 3, 1);
            } else if kind == "beacon"@ {
                lemma_beacon_turned(b, p);
            } else if kind == "chameleon"@ {
                lemma_chameleon_turned(b, p);
            } else if kind == "mirrored-pawn"@ || kind == "mirrored-bishop"@ || kind
                == "mirrored-rook"@ || kind == "mirrored-knight"@ || kind == "mirrored-queen"@ {
                lemma_mirrored_turned(b, p, kind);
            } else if is_built_in(kind) {
                lemma_catalog_turned(b, p);
            } else {
                lemma_script_moves_mirror(b.program, b, p, d, e, checked);
                lemma_run_chains_sound(
                    b.program,
                    scene_of(b, p, d, checked),
                    b.program.len() as int,
                );
                lemma_turned_in_order(script_moves(b.program, b, p, d, checked), p);
            }
        },
    }
}

} // verus!
