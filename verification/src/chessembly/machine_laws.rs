//! What every run keeps: its moves start at the piece, stay on the board and
//! differ in their targets.

use vstd::prelude::*;
use crate::chessembly::behavior::{Instr, Opcode, reflected};
use crate::chessembly::geometry::{lemma_no_collision_lands, step_lands, stepped};
use crate::chessembly::machine::{
    first_same_target, first_take_on, is_probe, is_wall_test, push_node, run, Run, run_chains,
    Scene, step, step_flow, step_jump, step_probe, swap_removed, without_take,
};
use crate::chessembly::{all_from, distinct_targets, MoveType, MoveView, on_board, Position};

verus! {

/// Where the first move with the targets of `m` stands.
pub proof fn lemma_first_same_target(nodes: Seq<MoveView>, m: MoveView, i: int)
    requires
        0 <= i <= nodes.len(),
    ensures
        i <= first_same_target(nodes, m, i) <= nodes.len(),
        first_same_target(nodes, m, i) < nodes.len() ==> nodes[first_same_target(
            nodes,
            m,
            i,
        )].same_target(m),
        forall|k: int| i <= k < first_same_target(nodes, m, i) ==> !(#[trigger] nodes[k]).same_target(m),
    decreases nodes.len() - i,
{
    if i < nodes.len() && !nodes[i].same_target(m) {
        lemma_first_same_target(nodes, m, i + 1);
    }
}

/// Where the first `Take` on `t` stands.
pub proof fn lemma_first_take_on(nodes: Seq<MoveView>, t: Position, i: int)
    requires
        0 <= i <= nodes.len(),
    ensures
        i <= first_take_on(nodes, t, i) <= nodes.len(),
    decreases nodes.len() - i,
{
    if i < nodes.len() && !(nodes[i].move_type == MoveType::Take && nodes[i].take == t) {
        lemma_first_take_on(nodes, t, i + 1);
    }
}

/// Taking a move out of a list keeps what held of the list.
pub proof fn lemma_swap_removed_sound(nodes: Seq<MoveView>, i: int, origin: Position)
    requires
        0 <= i < nodes.len(),
        all_from(nodes, origin),
        distinct_targets(nodes),
    ensures
        all_from(swap_removed(nodes, i), origin),
        distinct_targets(swap_removed(nodes, i)),
        forall|k: int|
            0 <= k < swap_removed(nodes, i).len() ==> exists|j: int|
                0 <= j < nodes.len() && j != i && nodes[j] == #[trigger] swap_removed(nodes, i)[k],
{
    let r = swap_removed(nodes, i);
    let last = nodes.len() - 1;
    assert forall|k: int| 0 <= k < r.len() implies exists|j: int|
        0 <= j < nodes.len() && j != i && nodes[j] == #[trigger] r[k] by {
        if k == i {
            assert(nodes[last] == r[k]);
        } else {
            assert(nodes[k] == r[k]);
        }
    }
    assert forall|a: int, b: int| 0 <= a < b < r.len() implies !(#[trigger] r[a]).same_target(
        #[trigger] r[b],
    ) by {
        let ja = if a == i { last } else { a };
        let jb = if b == i { last } else { b };
        assert(r[a] == nodes[ja]);
        assert(r[b] == nodes[jb]);
        if ja < jb {
            assert(!nodes[ja].same_target(nodes[jb]));
        } else {
            assert(!nodes[jb].same_target(nodes[ja]));
        }
    }
}

/// Emitting a move keeps what holds of the list.
pub proof fn lemma_push_node_sound(nodes: Seq<MoveView>, m: MoveView, origin: Position)
    requires
        all_from(nodes, origin),
        distinct_targets(nodes),
        m.from == origin,
        m.in_bounds(),
    ensures
        all_from(push_node(nodes, m), origin),
        distinct_targets(push_node(nodes, m)),
{
    lemma_first_same_target(nodes, m, 0);
    let i = first_same_target(nodes, m, 0);
    let r = push_node(nodes, m);
    if i < nodes.len() {
        lemma_swap_removed_sound(nodes, i, origin);
        let s = swap_removed(nodes, i);
        assert forall|k: int| 0 <= k < s.len() implies !(#[trigger] s[k]).same_target(m) by {
            let j = choose|j: int| 0 <= j < nodes.len() && j != i && nodes[j] == s[k];
            if j < i {
                assert(!nodes[j].same_target(nodes[i]));
            } else {
                assert(!nodes[i].same_target(nodes[j]));
            }
        }
        assert forall|a: int, b: int| 0 <= a < b < r.len() implies !(#[trigger] r[a]).same_target(
            #[trigger] r[b],
        ) by {
            if b < s.len() {
                assert(!s[a].same_target(s[b]));
            } else {
                assert(!s[a].same_target(m));
            }
        }
    } else {
        assert forall|a: int, b: int| 0 <= a < b < r.len() implies !(#[trigger] r[a]).same_target(
            #[trigger] r[b],
        ) by {
            if b < nodes.len() {
                assert(!nodes[a].same_target(nodes[b]));
            } else {
                assert(!nodes[a].same_target(m));
            }
        }
    }
}

/// Withdrawing a capture keeps what holds of the list.
pub proof fn lemma_without_take_sound(nodes: Seq<MoveView>, t: Position, origin: Position)
    requires
        all_from(nodes, origin),
        distinct_targets(nodes),
    ensures
        all_from(without_take(nodes, t), origin),
        distinct_targets(without_take(nodes, t)),
{
    lemma_first_take_on(nodes, t, 0);
    let i = first_take_on(nodes, t, 0);
    if i < nodes.len() {
        lemma_swap_removed_sound(nodes, i, origin);
    }
}

/// An emission keeps a sound state sound.
pub proof fn lemma_emit_sound(sc: Scene, st: Run, take: Position, move_to: Position, ty: MoveType)
    requires
        st.sound(sc),
        sc.wf(),
        on_board(take),
        on_board(move_to),
    ensures
        st.emit(sc, take, move_to, ty).sound(sc),
{
    lemma_push_node_sound(st.nodes, st.node(sc, take, move_to, ty), sc.origin);
}

/// Moving the cursor on the board keeps a sound state sound.
pub proof fn lemma_with_anchor_sound(sc: Scene, st: Run, a: Position)
    requires
        st.sound(sc),
        on_board(a),
    ensures
        st.with_anchor(a).sound(sc),
        st.with_anchor(a).nodes == st.nodes,
{
}

/// An instruction that looks at a square keeps a sound state sound.
pub proof fn lemma_probe_sound(sc: Scene, st: Run, ins: Instr)
    requires
        st.sound(sc),
        sc.wf(),
        is_probe(ins.op),
    ensures
        step_probe(sc, st, ins.op, reflected(ins.delta, sc.color), ins.name).sound(sc),
{
    let d = reflected(ins.delta, sc.color);
    let b = stepped(st.anchor(), d);
    lemma_no_collision_lands(st.anchor(), d, sc.color);
    if step_lands(st.anchor(), d) {
        assert(on_board(b));
        lemma_with_anchor_sound(sc, st, b);
        let s = st.with_anchor(b);
        lemma_emit_sound(sc, s, b, b, MoveType::TakeMove);
        lemma_emit_sound(sc, s, b, b, MoveType::Take);
        lemma_emit_sound(sc, s, b, b, MoveType::Move);
        lemma_emit_sound(sc, s, b, sc.origin, MoveType::Catch);
        lemma_emit_sound(sc, s, sc.origin, b, MoveType::Shift);
    }
}

/// `jump` keeps a sound state sound.
pub proof fn lemma_jump_sound(sc: Scene, st: Run, d: (i8, i8))
    requires
        st.sound(sc),
        sc.wf(),
    ensures
        step_jump(sc, st, d).sound(sc),
{
    match st.takes.last() {
        Some(t) => {
            assert(on_board(t));
            lemma_without_take_sound(st.nodes, t, sc.origin);
            let s = Run { nodes: without_take(st.nodes, t), ..st };
            assert(s.sound(sc));
            lemma_no_collision_lands(st.anchor(), d, sc.color);
            if step_lands(st.anchor(), d) {
                let b = stepped(st.anchor(), d);
                lemma_with_anchor_sound(sc, s, b);
                lemma_emit_sound(sc, s.with_anchor(b), t, b, MoveType::TakeJump);
            }
        },
        None => {},
    }
}

/// An instruction of control keeps a sound state sound and emits nothing.
pub proof fn lemma_flow_sound(chain: Seq<Instr>, sc: Scene, st: Run, ins: Instr)
    requires
        st.sound(sc),
        st.live(chain),
    ensures
        step_flow(chain, st, ins).halted || step_flow(chain, st, ins).sound(sc),
        step_flow(chain, st, ins).nodes == st.nodes,
{
    crate::chessembly::machine_laws::lemma_scan_bounds(chain, st.ip);
    crate::chessembly::machine_laws::lemma_label_bounds(chain, ins.name, 0);
}

/// The beginning of a loop lies at or before its end.
pub proof fn lemma_scan_bounds(chain: Seq<Instr>, i: int)
    requires
        0 <= i < chain.len(),
    ensures
        forall|depth: int| 0 <= #[trigger] crate::chessembly::machine::scan_do(chain, i, depth) <= i,
    decreases i,
{
    if i > 0 {
        lemma_scan_bounds(chain, i - 1);
    }
    assert forall|depth: int| 0 <= #[trigger] crate::chessembly::machine::scan_do(
        chain,
        i,
        depth,
    ) <= i by {
        let d = if chain[i].op == Opcode::While {
            depth + 1
        } else if chain[i].op == Opcode::Do {
            depth - 1
        } else {
            depth
        };
        if i > 0 {
            assert(0 <= crate::chessembly::machine::scan_do(chain, i - 1, d) <= i - 1);
        }
    }
}

/// A label is found within the chain or not at all.
pub proof fn lemma_label_bounds(chain: Seq<Instr>, name: Seq<char>, i: int)
    requires
        0 <= i <= chain.len(),
    ensures
        i <= crate::chessembly::machine::label_index(chain, name, i) <= chain.len(),
    decreases chain.len() - i,
{
    if i < chain.len() {
        lemma_label_bounds(chain, name, i + 1);
    }
}

/// A step keeps the moves of a run sound: they start at the piece, stay on
/// the board and differ in their targets.
pub proof fn lemma_step_sound(chain: Seq<Instr>, sc: Scene, st: Run)
    requires
        st.sound(sc),
        st.live(chain),
        sc.wf(),
    ensures
        all_from(step(chain, sc, st).nodes, sc.origin),
        distinct_targets(step(chain, sc, st).nodes),
        step(chain, sc, st).halted || step(chain, sc, st).sound(sc),
{
    let jumped = !st.flag() && !crate::chessembly::machine::is_control(chain[st.ip].op);
    if jumped && !(st.frames.len() > 1 && 0 <= st.frames.last().1 < chain.len()) {
    } else {
        let s = if jumped {
            Run { ip: st.frames.last().1, ..st }
        } else {
            st
        };
        assert(s.sound(sc));
        assert(s.live(chain));
        let ins = chain[s.ip];
        let d = reflected(ins.delta, sc.color);
        if is_probe(ins.op) {
            lemma_probe_sound(sc, s, ins);
        } else if ins.op == Opcode::Jump {
            lemma_jump_sound(sc, s, d);
        } else if is_wall_test(ins.op) {
        } else {
            lemma_flow_sound(chain, sc, s, ins);
        }
    }
}

/// Whatever a run does, its moves stay sound.
pub proof fn lemma_run_sound(chain: Seq<Instr>, sc: Scene, st: Run, fuel: nat)
    requires
        all_from(st.nodes, sc.origin),
        distinct_targets(st.nodes),
        st.halted || st.sound(sc),
        sc.wf(),
    ensures
        all_from(run(chain, sc, st, fuel), sc.origin),
        distinct_targets(run(chain, sc, st, fuel)),
    decreases fuel,
{
    if fuel > 0 && st.live(chain) {
        lemma_step_sound(chain, sc, st);
        lemma_run_sound(chain, sc, step(chain, sc, st), (fuel - 1) as nat);
    }
}

/// The moves that a program gives a piece start at the piece, stay on the
/// board, and no two of them share capture square and landing square.
pub proof fn lemma_run_chains_sound(program: Seq<Seq<Instr>>, sc: Scene, n: int)
    requires
        sc.wf(),
        n <= program.len(),
    ensures
        all_from(run_chains(program, sc, n), sc.origin),
        distinct_targets(run_chains(program, sc, n)),
    decreases n,
{
    if n > 0 {
        lemma_run_chains_sound(program, sc, n - 1);
        let nodes = run_chains(program, sc, n - 1);
        let st = Run::begin(program[n - 1], sc.origin, nodes);
        assert(st.sound(sc));
        lemma_run_sound(program[n - 1], sc, st, crate::chessembly::machine::LOOP_CAP as nat);
    }
}

} // verus!
