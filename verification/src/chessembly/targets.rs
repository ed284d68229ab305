//! No two moves of one piece share capture square and landing square: the
//! law, kind by kind, and for every piece of a position.

use vstd::prelude::*;
use crate::chessembly::behavior::{Instr, Opcode};
use crate::chessembly::board::BoardView;
use crate::chessembly::catalog::{
    alfil_moves, alfil_steps, amazon_moves, archbishop_moves, bard_moves, bard_steps,
    beacon_moves_upto, bishop_moves, bishop_steps, centaur_moves, chameleon_catch,
    chameleon_catches, chameleon_moves, chameleon_walk_program, chancellor_moves, dozer_moves,
    dozer_steps, ij_moves, ij_steps, king_move, king_moves, king_ring, king_step, king_steps,
    knight_moves, may_castle_long, may_castle_short, mirrored_base, mirrored_moves, op_delta,
    pawn_captures, pawn_has_ahead, pawn_last, pawn_moves, pawn_passing_moves, pawn_pushes,
    piece_moves, pseudo_rook_moves, queen_moves, queen_steps, rook_steps,
};
use crate::chessembly::catalog_laws::{
    all_by_steps, all_plain, lemma_join_distinct, lemma_leaps_shape, lemma_leaps_then_leaps,
    lemma_leaps_then_slides, lemma_slides_shape, offset_x, offset_y, on_ray, steps_are_units,
    steps_differ,
};
use crate::chessembly::geometry::stepped;
use crate::chessembly::machine::{
    first_same_target, first_take_on, is_control, is_probe, LOOP_CAP, push_node, run, Run,
    run_chains, Scene, scene_of, script_moves, step, swap_removed, without_take,
};
use crate::chessembly::machine_laws::{
    lemma_first_same_target, lemma_first_take_on, lemma_run_chains_sound, lemma_step_sound,
};
use crate::chessembly::rules::{attack_mask, in_check, pseudo_moves, quiet_check};
use crate::chessembly::{
    Color, distinct_targets, MoveType, MoveView, on_board, Position, Square, square_at,
};

verus! {

proof fn lemma_queen_steps()
    ensures
        queen_steps().len() == 8,
        steps_are_units(queen_steps(), 8),
        steps_differ(queen_steps(), 8),
        steps_are_units(bishop_steps(), 4),
        steps_differ(bishop_steps(), 4),
        steps_are_units(rook_steps(), 4),
        steps_differ(rook_steps(), 4),
{
    let q = queen_steps();
    assert(q =~= seq![
        (1i8, 0i8),
        (-1i8, 0i8),
        (0i8, 1i8),
        (0i8, -1i8),
        (1i8, 1i8),
        (1i8, -1i8),
        (-1i8, 1i8),
        (-1i8, -1i8),
    ]);
}

/// The steps of a leaper that goes two different, non-zero distances.
proof fn lemma_ij_steps(i: i8, j: i8)
    requires
        0 < i <= 8,
        0 < j <= 8,
        i != j,
    ensures
        steps_differ(ij_steps(i, j), 8),
        forall|k: int, r: int|
            0 <= k < 8 && 0 <= r < 8 ==> !on_ray(
                #[trigger] queen_steps()[r],
                (#[trigger] ij_steps(i, j)[k]).0 as int,
                ij_steps(i, j)[k].1 as int,
            ),
        forall|k: int, r: int|
            0 <= k < 8 && 0 <= r < 8 ==> #[trigger] ij_steps(i, j)[k] != #[trigger] queen_steps()[r],
{
    lemma_queen_steps();
    let q = queen_steps();
    assert(q =~= seq![
        (1i8, 0i8),
        (-1i8, 0i8),
        (0i8, 1i8),
        (0i8, -1i8),
        (1i8, 1i8),
        (1i8, -1i8),
        (-1i8, 1i8),
        (-1i8, -1i8),
    ]);
}

/// The built-in leapers and riders: no two of their moves share a target.
pub proof fn lemma_plain_kinds_distinct(b: BoardView, p: Position)
    requires
        on_board(p),
    ensures
        distinct_targets(knight_moves(b, p)),
        distinct_targets(ij_moves(b, p, 3, 2)),
        distinct_targets(ij_moves(b, p, 4, 1)),
        distinct_targets(ij_moves(b, p, 3, 1)),
        distinct_targets(bishop_moves(b, p)),
        distinct_targets(pseudo_rook_moves(b, p)),
        distinct_targets(queen_moves(b, p)),
        distinct_targets(alfil_moves(b, p)),
        distinct_targets(bard_moves(b, p)),
        distinct_targets(dozer_moves(b, p)),
        distinct_targets(amazon_moves(b, p)),
        distinct_targets(archbishop_moves(b, p)),
        distinct_targets(chancellor_moves(b, p)),
        distinct_targets(centaur_moves(b, p)),
{
    lemma_queen_steps();
    lemma_ij_steps(2, 1);
    lemma_ij_steps(3, 2);
    lemma_ij_steps(4, 1);
    lemma_ij_steps(3, 1);
    lemma_leaps_shape(b, p, ij_steps(2, 1), 8);
    lemma_leaps_shape(b, p, ij_steps(3, 2), 8);
    lemma_leaps_shape(b, p, ij_steps(4, 1), 8);
    lemma_leaps_shape(b, p, ij_steps(3, 1), 8);
    lemma_slides_shape(b, p, bishop_steps(), 4);
    lemma_slides_shape(b, p, rook_steps(), 4);
    lemma_slides_shape(b, p, queen_steps(), 8);
    lemma_leaps_shape(b, p, alfil_steps(), 4);
    assert(bard_steps() =~= seq![
        (2i8, 0i8),
        (-2i8, 0i8),
        (0i8, 2i8),
        (0i8, -2i8),
        (2i8, 2i8),
        (2i8, -2i8),
        (-2i8, 2i8),
        (-2i8, -2i8),
    ]);
    lemma_leaps_shape(b, p, bard_steps(), 8);
    match b.color_at(p) {
        Some(c) => {
            lemma_leaps_shape(b, p, dozer_steps(c), 5);
        },
        None => {},
    }
    lemma_leaps_then_slides(b, p, ij_steps(2, 1), 8, queen_steps(), 8);
    assert forall|k: int, r: int| 0 <= k < 8 && 0 <= r < 4 implies !on_ray(
        #[trigger] bishop_steps()[r],
        (#[trigger] ij_steps(2, 1)[k]).0 as int,
        ij_steps(2, 1)[k].1 as int,
    ) by {
        assert(bishop_steps()[r] == queen_steps()[r + 4]);
    }
    lemma_leaps_then_slides(b, p, ij_steps(2, 1), 8, bishop_steps(), 4);
    assert forall|k: int, r: int| 0 <= k < 8 && 0 <= r < 4 implies !on_ray(
        #[trigger] rook_steps()[r],
        (#[trigger] ij_steps(2, 1)[k]).0 as int,
        ij_steps(2, 1)[k].1 as int,
    ) by {
        assert(rook_steps()[r] == queen_steps()[r]);
    }
    lemma_leaps_then_slides(b, p, ij_steps(2, 1), 8, rook_steps(), 4);
    lemma_leaps_then_leaps(b, p, ij_steps(2, 1), 8, queen_steps(), 8);
}

proof fn lemma_king_steps_shape(b: BoardView, p: Position, danger: u64, n: int)
    requires
        on_board(p),
        0 <= n <= 8,
    ensures
        all_plain(king_steps(b, p, danger, n)),
        distinct_targets(king_steps(b, p, danger, n)),
        all_by_steps(king_steps(b, p, danger, n), p, king_ring(), n),
    decreases n,
{
    if n > 0 {
        lemma_king_steps_shape(b, p, danger, n - 1);
        let ds = king_ring();
        let before = king_steps(b, p, danger, n - 1);
        let here = king_step(b, p, danger, ds[n - 1]);
        let l = king_steps(b, p, danger, n);
        assert(distinct_targets(here));
        assert forall|i: int, j: int| 0 <= i < before.len() && 0 <= j < here.len() implies !(
        #[trigger] before[i]).same_target(#[trigger] here[j]) by {
            let k = choose|k: int|
                0 <= k < n - 1 && offset_x(p, before[i].move_to) == ds[k].0 && offset_y(
                    p,
                    before[i].move_to,
                ) == ds[k].1;
            assert(ds[k] != ds[n - 1]);
        }
        lemma_join_distinct(before, here);
        assert forall|i: int| 0 <= i < l.len() implies (#[trigger] l[i]).take == l[i].move_to
            && on_board(l[i].move_to) && exists|k: int|
            0 <= k < n && offset_x(p, l[i].move_to) == ds[k].0 && offset_y(p, l[i].move_to)
                == ds[k].1 by {
            if i < before.len() {
                assert(l[i] == before[i]);
                let k = choose|k: int|
                    0 <= k < n - 1 && offset_x(p, before[i].move_to) == ds[k].0 && offset_y(
                        p,
                        before[i].move_to,
                    ) == ds[k].1;
                assert(0 <= k < n);
            } else {
                assert(l[i] == here[i - before.len()]);
                assert(offset_x(p, l[i].move_to) == ds[n - 1].0 && offset_y(p, l[i].move_to)
                    == ds[n - 1].1);
            }
        }
    }
}

/// The names of the king and the rook are two names.
proof fn lemma_king_is_no_rook()
    ensures
        "king"@ != "rook"@,
{
    reveal_strlit("king");
    reveal_strlit("rook");
    assert("king"@[0] == 'k');
    assert("rook"@[0] == 'r');
}

/// A king: no two of its moves share a target.
pub proof fn lemma_king_distinct(b: BoardView, p: Position, danger: u64)
    requires
        b.wf(),
        b.kind_at(p) == Some("king"@),
    ensures
        distinct_targets(king_moves(b, p, danger)),
{
    lemma_king_is_no_rook();
    lemma_king_steps_shape(b, p, danger, 8);
    let c = b.color_at(p).unwrap();
    let steps = king_steps(b, p, danger, 8);
    let short = if may_castle_short(b, p, c, danger) {
        seq![king_move(p, (6, p.1), MoveType::Castling)]
    } else {
        Seq::empty()
    };
    let long = if may_castle_long(b, p, c, danger) {
        seq![king_move(p, (2, p.1), MoveType::Castling)]
    } else {
        Seq::empty()
    };
    assert forall|i: int, j: int| 0 <= i < steps.len() && 0 <= j < short.len() implies !(
    #[trigger] steps[i]).same_target(#[trigger] short[j]) by {
        assert(p.0 != 5 && p.0 != 6 && p.0 != 7);
        let k = choose|k: int|
            0 <= k < 8 && offset_x(p, steps[i].move_to) == king_ring()[k].0 && offset_y(
                p,
                steps[i].move_to,
            ) == king_ring()[k].1;
        assert(-1 <= king_ring()[k].0 <= 1);
    }
    assert(distinct_targets(short));
    lemma_join_distinct(steps, short);
    let both = steps + short;
    assert forall|i: int, j: int| 0 <= i < both.len() && 0 <= j < long.len() implies !(
    #[trigger] both[i]).same_target(#[trigger] long[j]) by {
        assert(p.0 != 0 && p.0 != 1 && p.0 != 2 && p.0 != 3);
        if i < steps.len() {
            assert(both[i] == steps[i]);
            let k = choose|k: int|
                0 <= k < 8 && offset_x(p, steps[i].move_to) == king_ring()[k].0 && offset_y(
                    p,
                    steps[i].move_to,
                ) == king_ring()[k].1;
            assert(-1 <= king_ring()[k].0 <= 1);
        } else {
            assert(both[i] == short[i - steps.len()]);
        }
    }
    assert(distinct_targets(long));
    lemma_join_distinct(both, long);
}

/// A pawn that does not promote: no two of its moves share a target.
pub proof fn lemma_pawn_distinct(b: BoardView, p: Position)
    requires
        b.wf(),
        b.color_at(p) is Some,
        p.1 != pawn_last(b.color_at(p).unwrap()),
    ensures
        distinct_targets(pawn_moves(b, p)),
{
    let c = b.color_at(p).unwrap();
    if pawn_has_ahead(c, p) {
        let pushes = pawn_pushes(b, p, c);
        let passing = pawn_passing_moves(b, p, c);
        let captures = pawn_captures(b, p, c);
        assert(forall|i: int|
            0 <= i < pushes.len() ==> (#[trigger] pushes[i]).take == pushes[i].move_to
                && pushes[i].move_to.0 == p.0);
        assert(distinct_targets(pushes));
        assert(forall|i: int|
            0 <= i < passing.len() ==> (#[trigger] passing[i]).take != passing[i].move_to);
        assert(distinct_targets(passing));
        assert(forall|i: int|
            0 <= i < captures.len() ==> (#[trigger] captures[i]).take == captures[i].move_to
                && captures[i].move_to.0 != p.0);
        assert(distinct_targets(captures));
        lemma_join_distinct(pushes, passing);
        let first = pushes + passing;
        assert forall|i: int, j: int| 0 <= i < first.len() && 0 <= j < captures.len() implies !(
        #[trigger] first[i]).same_target(#[trigger] captures[j]) by {
            if i < pushes.len() {
                assert(first[i] == pushes[i]);
            } else {
                assert(first[i] == passing[i - pushes.len()]);
            }
        }
        lemma_join_distinct(first, captures);
    }
}

/// A beacon: no two of its moves share a target.
pub proof fn lemma_beacon_distinct(b: BoardView, p: Position, c: Color, n: int)
    requires
        0 <= n <= 64,
    ensures
        distinct_targets(beacon_moves_upto(b, p, c, n)),
        forall|i: int|
            0 <= i < beacon_moves_upto(b, p, c, n).len() ==> exists|k: int|
                0 <= k < n && (#[trigger] beacon_moves_upto(b, p, c, n)[i]).move_to == square_at(k),
    decreases n,
{
    if n > 0 {
        lemma_beacon_distinct(b, p, c, n - 1);
        let before = beacon_moves_upto(b, p, c, n - 1);
        let l = beacon_moves_upto(b, p, c, n);
        assert forall|i: int| 0 <= i < l.len() implies exists|k: int|
            0 <= k < n && (#[trigger] l[i]).move_to == square_at(k) by {
            if i < before.len() {
                assert(l[i] == before[i]);
                let k = choose|k: int| 0 <= k < n - 1 && before[i].move_to == square_at(k);
                assert(0 <= k < n);
            } else {
                assert(l[i].move_to == square_at(n - 1));
            }
        }
        assert forall|i: int, j: int| 0 <= i < j < l.len() implies !(#[trigger] l[i]).same_target(
            #[trigger] l[j],
        ) by {
            assert(l[i] == before[i]);
            if j < before.len() {
                assert(l[j] == before[j]);
            } else {
                let k = choose|k: int| 0 <= k < n - 1 && before[i].move_to == square_at(k);
                assert(square_at(k) != square_at(n - 1));
            }
        }
    }
}

/// A chain without an instruction that leaves the piece on its square.
pub open spec fn chain_leaves(chain: Seq<Instr>) -> bool {
    forall|i: int|
        0 <= i < chain.len() ==> (#[trigger] chain[i]).op != Opcode::Catch && chain[i].op
            != Opcode::Shift
}

/// No move of the list lands on `origin`.
pub open spec fn all_away(nodes: Seq<MoveView>, origin: Position) -> bool {
    forall|i: int| 0 <= i < nodes.len() ==> (#[trigger] nodes[i]).move_to != origin
}

proof fn lemma_swap_removed_away(nodes: Seq<MoveView>, i: int, origin: Position)
    requires
        0 <= i < nodes.len(),
        all_away(nodes, origin),
    ensures
        all_away(swap_removed(nodes, i), origin),
{
    let r = swap_removed(nodes, i);
    assert forall|k: int| 0 <= k < r.len() implies (#[trigger] r[k]).move_to != origin by {
        if k == i {
            assert(r[k] == nodes[nodes.len() - 1]);
        } else {
            assert(r[k] == nodes[k]);
        }
    }
}

proof fn lemma_push_node_away(nodes: Seq<MoveView>, m: MoveView, origin: Position)
    requires
        all_away(nodes, origin),
        m.move_to != origin,
    ensures
        all_away(push_node(nodes, m), origin),
{
    lemma_first_same_target(nodes, m, 0);
    let i = first_same_target(nodes, m, 0);
    if i < nodes.len() {
        lemma_swap_removed_away(nodes, i, origin);
    }
}

proof fn lemma_without_take_away(nodes: Seq<MoveView>, t: Position, origin: Position)
    requires
        all_away(nodes, origin),
    ensures
        all_away(without_take(nodes, t), origin),
{
    lemma_first_take_on(nodes, t, 0);
    let i = first_take_on(nodes, t, 0);
    if i < nodes.len() {
        lemma_swap_removed_away(nodes, i, origin);
    }
}

proof fn lemma_step_away(chain: Seq<Instr>, sc: Scene, st: Run)
    requires
        sc.wf(),
        sc.friendly(sc.origin),
        st.sound(sc),
        st.live(chain),
        chain_leaves(chain),
        all_away(st.nodes, sc.origin),
    ensures
        all_away(step(chain, sc, st).nodes, sc.origin),
{
    let jumped = !st.flag() && !is_control(chain[st.ip].op);
    if jumped && !(st.frames.len() > 1 && 0 <= st.frames.last().1 < chain.len()) {
    } else {
        let s = if jumped {
            Run { ip: st.frames.last().1, ..st }
        } else {
            st
        };
        let ins = chain[s.ip];
        let d = crate::chessembly::behavior::reflected(ins.delta, sc.color);
        let b = stepped(s.anchor(), d);
        if is_probe(ins.op) {
            let n = s.with_anchor(b);
            if b != sc.origin {
                lemma_push_node_away(n.nodes, n.node(sc, b, b, MoveType::TakeMove), sc.origin);
                lemma_push_node_away(n.nodes, n.node(sc, b, b, MoveType::Take), sc.origin);
                lemma_push_node_away(n.nodes, n.node(sc, b, b, MoveType::Move), sc.origin);
            }
        } else if ins.op == Opcode::Jump {
            match s.takes.last() {
                Some(t) => {
                    lemma_without_take_away(s.nodes, t, sc.origin);
                    let n = Run { nodes: without_take(s.nodes, t), ..s }.with_anchor(b);
                    if b != sc.origin {
                        lemma_push_node_away(
                            n.nodes,
                            n.node(sc, t, b, MoveType::TakeJump),
                            sc.origin,
                        );
                    }
                },
                None => {},
            }
        } else {
        }
    }
}

proof fn lemma_run_away(chain: Seq<Instr>, sc: Scene, st: Run, fuel: nat)
    requires
        sc.wf(),
        sc.friendly(sc.origin),
        st.halted || st.sound(sc),
        chain_leaves(chain),
        all_away(st.nodes, sc.origin),
    ensures
        all_away(run(chain, sc, st, fuel), sc.origin),
    decreases fuel,
{
    if fuel > 0 && st.live(chain) {
        lemma_step_away(chain, sc, st);
        lemma_step_sound(chain, sc, st);
        lemma_run_away(chain, sc, step(chain, sc, st), (fuel - 1) as nat);
    }
}

proof fn lemma_chains_away(program: Seq<Seq<Instr>>, sc: Scene, n: int)
    requires
        sc.wf(),
        sc.friendly(sc.origin),
        0 <= n <= program.len(),
        forall|i: int| 0 <= i < program.len() ==> chain_leaves(#[trigger] program[i]),
    ensures
        all_away(run_chains(program, sc, n), sc.origin),
    decreases n,
{
    if n > 0 {
        lemma_chains_away(program, sc, n - 1);
        lemma_run_chains_sound(program, sc, n - 1);
        let st = Run::begin(program[n - 1], sc.origin, run_chains(program, sc, n - 1));
        assert(st.sound(sc));
        lemma_run_away(program[n - 1], sc, st, LOOP_CAP as nat);
    }
}

proof fn lemma_catches_shape(b: BoardView, p: Position, n: int)
    requires
        on_board(p),
        0 <= n <= 4,
    ensures
        distinct_targets(chameleon_catches(b, p, n)),
        forall|i: int|
            0 <= i < chameleon_catches(b, p, n).len() ==> (#[trigger] chameleon_catches(
                b,
                p,
                n,
            )[i]).move_to == p && exists|k: int|
                0 <= k < n && offset_x(p, chameleon_catches(b, p, n)[i].take) == alfil_steps()[k].0
                    && offset_y(p, chameleon_catches(b, p, n)[i].take) == alfil_steps()[k].1,
    decreases n,
{
    if n > 0 {
        lemma_catches_shape(b, p, n - 1);
        let ds = alfil_steps();
        let before = chameleon_catches(b, p, n - 1);
        let here = chameleon_catch(b, p, ds[n - 1]);
        let l = chameleon_catches(b, p, n);
        assert(distinct_targets(here));
        assert forall|i: int, j: int| 0 <= i < before.len() && 0 <= j < here.len() implies !(
        #[trigger] before[i]).same_target(#[trigger] here[j]) by {
            let k = choose|k: int|
                0 <= k < n - 1 && offset_x(p, before[i].take) == ds[k].0 && offset_y(
                    p,
                    before[i].take,
                ) == ds[k].1;
            assert(ds[k] != ds[n - 1]);
        }
        lemma_join_distinct(before, here);
        assert forall|i: int| 0 <= i < l.len() implies (#[trigger] l[i]).move_to == p && exists|
            k: int,
        |
            0 <= k < n && offset_x(p, l[i].take) == ds[k].0 && offset_y(p, l[i].take) == ds[k].1 by {
            if i < before.len() {
                assert(l[i] == before[i]);
                let k = choose|k: int|
                    0 <= k < n - 1 && offset_x(p, before[i].take) == ds[k].0 && offset_y(
                        p,
                        before[i].take,
                    ) == ds[k].1;
                assert(0 <= k < n);
            } else {
                assert(l[i] == here[i - before.len()]);
                assert(offset_x(p, l[i].take) == ds[n - 1].0 && offset_y(p, l[i].take) == ds[n
                    - 1].1);
            }
        }
    }
}

/// A chameleon: no two of its moves share a target.
pub proof fn lemma_chameleon_distinct(b: BoardView, p: Position)
    requires
        b.wf(),
        b.at(p) is Occupied,
    ensures
        distinct_targets(chameleon_moves(b, p)),
{
    let program = chameleon_walk_program();
    let sc = scene_of(b, p, 0, false);
    lemma_run_chains_sound(program, sc, program.len() as int);
    assert forall|i: int| 0 <= i < program.len() implies chain_leaves(#[trigger] program[i]) by {
        assert(program[i] =~= seq![op_delta(Opcode::Move, queen_steps()[i])]);
    }
    lemma_chains_away(program, sc, program.len() as int);
    lemma_catches_shape(b, p, 4);
    let walk = script_moves(program, b, p, 0, false);
    let catches = chameleon_catches(b, p, 4);
    assert forall|i: int, j: int| 0 <= i < walk.len() && 0 <= j < catches.len() implies !(
    #[trigger] walk[i]).same_target(#[trigger] catches[j]) by {
        assert(walk[i].move_to != p);
    }
    lemma_join_distinct(walk, catches);
}

/// The moves that a program gives a piece differ in their targets.
pub proof fn lemma_script_distinct(
    program: Seq<Seq<Instr>>,
    b: BoardView,
    p: Position,
    danger: u64,
    checked: bool,
)
    requires
        b.wf(),
    ensures
        distinct_targets(script_moves(program, b, p, danger, checked)),
{
    if b.at(p) is Occupied {
        lemma_run_chains_sound(program, scene_of(b, p, danger, checked), program.len() as int);
    }
}

/// A mirrored piece: no two of its moves share a target.
pub proof fn lemma_mirrored_distinct(b: BoardView, p: Position, piece: Seq<char>)
    requires
        b.wf(),
        on_board(p),
    ensures
        distinct_targets(mirrored_moves(b, p, piece)),
{
    lemma_plain_kinds_distinct(b, p);
    lemma_script_distinct(crate::chessembly::catalog::pseudo_pawn_program(), b, p, 0, false);
    let base = mirrored_base(b, p, piece);
    assert(distinct_targets(base));
    let l = mirrored_moves(b, p, piece);
    match b.color_at(p) {
        Some(c) => {
            assert forall|i: int, j: int| 0 <= i < j < l.len() implies !(#[trigger] l[i]).same_target(
                #[trigger] l[j],
            ) by {
                assert(!base[i].same_target(base[j]));
            }
        },
        None => {},
    }
}

/// Whether the piece on `p` is a pawn that promotes with its next move: it
/// stands on the rank before the last and has a move.
pub open spec fn promotes_next(b: BoardView, p: Position) -> bool {
    b.at(p) matches Square::Occupied { kind, color } && kind == "pawn"@ && p.1 == pawn_last(color)
        && pawn_moves(b, p).len() > 0
}

/// No two moves of one piece share capture square and landing square. The
/// one exception is the pawn that promotes: each of its arrivals is four
/// moves, one for each piece that it may become.
pub proof fn lemma_piece_moves_distinct(b: BoardView, p: Position, danger: u64, checked: bool)
    requires
        b.wf(),
        !promotes_next(b, p),
    ensures
        distinct_targets(piece_moves(b, p, danger, checked)),
{
    reveal(piece_moves);
    match b.kind_at(p) {
        None => {},
        Some(kind) => {
            assert(on_board(p));
            lemma_plain_kinds_distinct(b, p);
            if kind == "pawn"@ {
                let c = b.color_at(p).unwrap();
                if p.1 != pawn_last(c) {
                    lemma_pawn_distinct(b, p);
                }
            } else if kind == "king"@ {
                lemma_king_distinct(b, p, danger);
            } else if kind == "rook"@ {
                let c = b.color_at(p).unwrap();
                lemma_script_distinct(
                    crate::chessembly::catalog::rook_program(
                        crate::chessembly::catalog::rook_mark(c, p),
                    ),
                    b,
                    p,
                    0, false);
            } else if kind == "tempest-rook"@ {
                lemma_script_distinct(
                    crate::chessembly::catalog::tempest_rook_program(),
                    b,
                    p,
                    0, false);
            } else if kind == "bouncing-bishop"@ {
                lemma_script_distinct(
                    crate::chessembly::script::compile(
                        crate::chessembly::catalog::BOUNCING_BISHOP_SCRIPT@,
                    ),
                    b,
                    p,
                    0, false);
            } else if kind == "wasp"@ {
                lemma_script_distinct(crate::chessembly::catalog::wasp_program(), b, p, 0, false);
            } else if kind == "beacon"@ {
                lemma_beacon_distinct(b, p, b.color_at(p).unwrap(), 64);
            } else if kind == "chameleon"@ {
                lemma_chameleon_distinct(b, p);
            } else if kind == "mirrored-pawn"@ || kind == "mirrored-bishop"@ || kind
                == "mirrored-rook"@ || kind == "mirrored-knight"@ || kind == "mirrored-queen"@ {
                lemma_mirrored_distinct(b, p, kind);
            } else if kind == "windmill-rook"@ {
                lemma_script_distinct(
                    crate::chessembly::script::compile(
                        crate::chessembly::catalog::WINDMILL_ROOK_SCRIPT@,
                    ),
                    b,
                    p,
                    0, false);
            } else if kind == "windmill-bishop"@ {
                lemma_script_distinct(
                    crate::chessembly::script::compile(
                        crate::chessembly::catalog::WINDMILL_BISHOP_SCRIPT@,
                    ),
                    b,
                    p,
                    0, false);
            } else {
                lemma_script_distinct(b.program, b, p, danger, checked);
            }
        },
    }
}

/// No two pseudo-legal moves of one piece share capture square and landing
/// square, but for the arrivals of a pawn that promotes.
pub proof fn lemma_pseudo_moves_distinct(b: BoardView, p: Position, check_danger: bool)
    requires
        b.wf(),
        !promotes_next(b, p),
    ensures
        distinct_targets(pseudo_moves(b, p, check_danger)),
{
    match b.color_at(p) {
        Some(c) => {
            lemma_piece_moves_distinct(b, p, 0, quiet_check(b, c));
            lemma_piece_moves_distinct(b, p, attack_mask(b, c.inverted()), in_check(b, c));
        },
        None => {},
    }
}

} // verus!
