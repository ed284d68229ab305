//! The board turned round: ranks mirrored and colours swapped. A program
//! that does not tell left from right gives a piece the same moves on the
//! turned board, turned round.

use vstd::prelude::*;
use crate::chessembly::behavior::{Instr, Opcode, reflected};
use crate::chessembly::board::{BoardView, SideView};
use crate::chessembly::geometry::{step_lands, stepped, wall_class, zero_vector};
use crate::chessembly::machine::{
    danger_bit, first_same_target, first_take_on, is_control, is_probe, is_wall_test, king_attacked,
    LOOP_CAP, push_node, Run, run, run_chains, Scene, scene_of, script_moves, step, step_flow,
    step_jump, step_probe, step_state, wall_test, without_take,
};
use crate::chessembly::machine_laws::{
    lemma_first_same_target, lemma_first_take_on, lemma_run_chains_sound, lemma_step_sound,
};
use crate::chessembly::{
    Color, DeltaPosition, MoveType, MoveView, on_board, Position, Square, square_at, square_index,
};

verus! {

/// The square on the same file of the mirrored rank.
pub open spec fn mirror(p: Position) -> Position {
    if p.1 <= 7 {
        (p.0, (7 - p.1) as u8)
    } else {
        p
    }
}

/// The same piece of the other colour.
pub open spec fn recolored(s: Square) -> Square {
    match s {
        Square::Empty => Square::Empty,
        Square::Occupied { kind, color } => Square::Occupied { kind, color: color.inverted() },
    }
}

/// The state of a side with its en-passant squares mirrored.
pub open spec fn turned_side(s: SideView) -> SideView {
    SideView { enpassant: Seq::new(s.enpassant.len(), |i: int| mirror(s.enpassant[i])), ..s }
}

/// The board turned round: every piece stands on the mirrored square in the
/// other colour, the sides have changed their states, with the en-passant
/// squares mirrored, and the other side is to move.
pub open spec fn mirror_board(b: BoardView) -> BoardView {
    BoardView {
        squares: Seq::new(64, |i: int| recolored(b.at(mirror(square_at(i))))),
        turn: b.turn.inverted(),
        white: turned_side(b.black),
        black: turned_side(b.white),
        ..b
    }
}

/// The move turned round.
pub open spec fn mirror_move(m: MoveView) -> MoveView {
    MoveView { from: mirror(m.from), take: mirror(m.take), move_to: mirror(m.move_to), ..m }
}

/// The moves turned round, in their order.
pub open spec fn mirror_moves(l: Seq<MoveView>) -> Seq<MoveView> {
    Seq::new(l.len(), |i: int| mirror_move(l[i]))
}

/// Whether `e` marks the mirrored squares of those that `d` marks.
pub open spec fn mirrored_masks(d: u64, e: u64) -> bool {
    forall|p: Position| on_board(p) ==> danger_bit(e, mirror(p)) == #[trigger] danger_bit(d, p)
}

/// The instructions that tell the left wall from the right one.
pub open spec fn is_sided(op: Opcode) -> bool {
    op == Opcode::EdgeLeft || op == Opcode::EdgeRight || op == Opcode::CornerTopLeft || op
        == Opcode::CornerTopRight || op == Opcode::CornerBottomLeft || op
        == Opcode::CornerBottomRight
}

/// A chain without an instruction that tells left from right.
pub open spec fn chain_unsided(chain: Seq<Instr>) -> bool {
    forall|i: int| 0 <= i < chain.len() ==> !is_sided(#[trigger] chain[i].op)
}

/// A program without an instruction that tells left from right.
pub open spec fn program_unsided(program: Seq<Seq<Instr>>) -> bool {
    forall|i: int| 0 <= i < program.len() ==> chain_unsided(#[trigger] program[i])
}

/// The scene turned round, `e` marking the squares that the other side
/// attacks there.
pub open spec fn mirror_scene(sc: Scene, e: u64) -> Scene {
    Scene {
        board: mirror_board(sc.board),
        origin: mirror(sc.origin),
        color: sc.color.inverted(),
        kind: sc.kind,
        danger: e,
        checked: sc.checked,
    }
}

/// The capture slot turned round.
pub open spec fn mirror_slot(t: Option<Position>) -> Option<Position> {
    match t {
        Some(p) => Some(mirror(p)),
        None => None,
    }
}

/// The state of a run turned round.
pub open spec fn mirror_run(st: Run) -> Run {
    Run {
        frames: Seq::new(st.frames.len(), |i: int| (mirror(st.frames[i].0), st.frames[i].1)),
        takes: Seq::new(st.takes.len(), |i: int| mirror_slot(st.takes[i])),
        nodes: mirror_moves(st.nodes),
        ..st
    }
}

/// Mirroring twice is mirroring not at all.
pub proof fn lemma_mirror_twice(p: Position)
    ensures
        mirror(mirror(p)) == p,
        on_board(mirror(p)) == on_board(p),
{
}

/// The turned board holds on the mirrored square the same piece in the
/// other colour.
pub proof fn lemma_mirror_board_at(b: BoardView, p: Position)
    requires
        b.wf(),
    ensures
        mirror_board(b).wf(),
        mirror_board(b).at(mirror(p)) == recolored(b.at(p)),
{
    if on_board(p) {
        let q = mirror(p);
        assert(square_at(square_index(q)) == q);
        lemma_mirror_twice(p);
    }
}

/// A step from the mirrored square, as the other side takes it, is the
/// mirrored step.
pub proof fn lemma_mirror_step(a: Position, raw: DeltaPosition, c: Color)
    requires
        on_board(a),
    ensures
        ({
            let d = reflected(raw, c);
            let e = reflected(raw, c.inverted());
            &&& zero_vector(e) == zero_vector(d)
            &&& step_lands(mirror(a), e) == step_lands(a, d)
            &&& step_lands(a, d) ==> stepped(mirror(a), e) == mirror(stepped(a, d))
            &&& forall|op: Opcode|
                !is_sided(op) ==> #[trigger] wall_test(op, wall_class(mirror(a), e, c.inverted()))
                    == wall_test(op, wall_class(a, d, c))
        }),
{
}

proof fn lemma_mirror_same_target(x: MoveView, y: MoveView)
    ensures
        mirror_move(x).same_target(mirror_move(y)) == x.same_target(y),
{
    lemma_mirror_twice(x.take);
    lemma_mirror_twice(y.take);
    lemma_mirror_twice(x.move_to);
    lemma_mirror_twice(y.move_to);
}

proof fn lemma_mirror_first_same_target(nodes: Seq<MoveView>, m: MoveView, i: int)
    requires
        0 <= i <= nodes.len(),
    ensures
        first_same_target(mirror_moves(nodes), mirror_move(m), i) == first_same_target(nodes, m, i),
    decreases nodes.len() - i,
{
    if i < nodes.len() {
        lemma_mirror_same_target(nodes[i], m);
        lemma_mirror_first_same_target(nodes, m, i + 1);
    }
}

proof fn lemma_mirror_first_take_on(nodes: Seq<MoveView>, t: Position, i: int)
    requires
        0 <= i <= nodes.len(),
    ensures
        first_take_on(mirror_moves(nodes), mirror(t), i) == first_take_on(nodes, t, i),
    decreases nodes.len() - i,
{
    if i < nodes.len() {
        lemma_mirror_twice(nodes[i].take);
        lemma_mirror_twice(t);
        lemma_mirror_first_take_on(nodes, t, i + 1);
    }
}

proof fn lemma_mirror_push_node(nodes: Seq<MoveView>, m: MoveView)
    ensures
        push_node(mirror_moves(nodes), mirror_move(m)) == mirror_moves(push_node(nodes, m)),
{
    lemma_mirror_first_same_target(nodes, m, 0);
    lemma_first_same_target(nodes, m, 0);
    assert(push_node(mirror_moves(nodes), mirror_move(m)) =~= mirror_moves(push_node(nodes, m)));
}

proof fn lemma_mirror_without_take(nodes: Seq<MoveView>, t: Position)
    ensures
        without_take(mirror_moves(nodes), mirror(t)) == mirror_moves(without_take(nodes, t)),
{
    lemma_mirror_first_take_on(nodes, t, 0);
    lemma_first_take_on(nodes, t, 0);
    assert(without_take(mirror_moves(nodes), mirror(t)) =~= mirror_moves(without_take(nodes, t)));
}

/// How the turned state follows the changes of the state.
proof fn lemma_mirror_run_ops(sc: Scene, e: u64, st: Run)
    requires
        st.frames.len() >= 1,
        st.flags.len() >= 1,
        st.takes.len() >= 1,
    ensures
        mirror_run(st).anchor() == mirror(st.anchor()),
        mirror_run(st).flag() == st.flag(),
        mirror_run(st).takes.last() == mirror_slot(st.takes.last()),
        mirror_run(st).frames.last().1 == st.frames.last().1,
        mirror_run(st.advance()) == mirror_run(st).advance(),
        mirror_run(st.halt()) == mirror_run(st).halt(),
        mirror_run(st.fail()) == mirror_run(st).fail(),
        forall|b: bool| #[trigger] mirror_run(st.with_flag(b)) == mirror_run(st).with_flag(b),
        forall|a: Position|
            #[trigger] mirror_run(st.with_anchor(a)) == mirror_run(st).with_anchor(mirror(a)),
        forall|t: Position, m: Position, ty: MoveType|
            #[trigger] mirror_run(st.emit(sc, t, m, ty)) == mirror_run(st).emit(
                mirror_scene(sc, e),
                mirror(t),
                mirror(m),
                ty,
            ),
        forall|ip: int| #[trigger] mirror_run(Run { ip, ..st }) == (Run { ip, ..mirror_run(st) }),
{
    assert(mirror_run(st.fail()) == mirror_run(st).fail()) by {
        assert(mirror_run(st.fail()).frames =~= mirror_run(st).fail().frames);
        assert(mirror_run(st.fail()).takes =~= mirror_run(st).fail().takes);
    }
    assert forall|b: bool| #[trigger] mirror_run(st.with_flag(b)) == mirror_run(st).with_flag(
        b,
    ) by {
        assert(mirror_run(st.with_flag(b)).frames =~= mirror_run(st).with_flag(b).frames);
        assert(mirror_run(st.with_flag(b)).takes =~= mirror_run(st).with_flag(b).takes);
    }
    assert forall|a: Position| #[trigger]
        mirror_run(st.with_anchor(a)) == mirror_run(st).with_anchor(mirror(a)) by {
        assert(mirror_run(st.with_anchor(a)).frames =~= mirror_run(st).with_anchor(
            mirror(a),
        ).frames);
        assert(mirror_run(st.with_anchor(a)).takes =~= mirror_run(st).with_anchor(mirror(a)).takes);
    }
    assert forall|t: Position, m: Position, ty: MoveType| #[trigger]
        mirror_run(st.emit(sc, t, m, ty)) == mirror_run(st).emit(
            mirror_scene(sc, e),
            mirror(t),
            mirror(m),
            ty,
        ) by {
        lemma_mirror_push_node(st.nodes, st.node(sc, t, m, ty));
        assert(mirror_move(st.node(sc, t, m, ty)) == mirror_run(st).node(
            mirror_scene(sc, e),
            mirror(t),
            mirror(m),
            ty,
        ));
        assert(mirror_run(st.emit(sc, t, m, ty)).frames =~= mirror_run(st).frames);
        assert(mirror_run(st.emit(sc, t, m, ty)).takes =~= mirror_run(st).takes);
    }
    assert forall|ip: int| #[trigger]
        mirror_run(Run { ip, ..st }) == (Run { ip, ..mirror_run(st) }) by {
        assert(mirror_run(Run { ip, ..st }).frames =~= mirror_run(st).frames);
        assert(mirror_run(Run { ip, ..st }).takes =~= mirror_run(st).takes);
    }
    assert(mirror_run(st.advance()).frames =~= mirror_run(st).frames);
    assert(mirror_run(st.advance()).takes =~= mirror_run(st).takes);
    assert(mirror_run(st.halt()).frames =~= mirror_run(st).frames);
    assert(mirror_run(st.halt()).takes =~= mirror_run(st).takes);
}

/// What the turned scene says of the mirrored square.
proof fn lemma_mirror_scene_at(sc: Scene, e: u64, p: Position)
    requires
        sc.wf(),
        mirrored_masks(sc.danger, e),
    ensures
        mirror_scene(sc, e).wf(),
        mirror_scene(sc, e).friendly(mirror(p)) == sc.friendly(p),
        mirror_scene(sc, e).enemy(mirror(p)) == sc.enemy(p),
        mirror_scene(sc, e).empty(mirror(p)) == sc.empty(p),
        forall|name: Seq<char>|
            #[trigger] mirror_scene(sc, e).board.at(mirror(p)).is_kind(name) == sc.board.at(
                p,
            ).is_kind(name),
        danger_bit(e, mirror(p)) == danger_bit(sc.danger, p),
{
    lemma_mirror_board_at(sc.board, p);
    lemma_mirror_twice(p);
    lemma_mirror_twice(sc.origin);
    if on_board(p) {
        assert(danger_bit(e, mirror(p)) == danger_bit(sc.danger, p));
    }
}

/// Every place of the grid is the place of its square.
proof fn lemma_grid_places(i: int)
    requires
        0 <= i < 64,
    ensures
        on_board(square_at(i)),
        square_index(square_at(i)) == i,
        on_board(mirror(square_at(i))),
        0 <= square_index(mirror(square_at(i))) < 64,
        square_at(square_index(mirror(square_at(i)))) == mirror(square_at(i)),
        mirror(mirror(square_at(i))) == square_at(i),
{
}

proof fn lemma_king_attack_turns(b: BoardView, c: Color, d: u64, e: u64)
    requires
        b.wf(),
        forall|p: Position| on_board(p) ==> danger_bit(e, mirror(p)) == #[trigger] danger_bit(d, p),
        forall|i: int|
            0 <= i < 64 ==> mirror_board(b).at(mirror(square_at(i))) == recolored(
                #[trigger] b.at(square_at(i)),
            ),
        king_attacked(b, c, d),
    ensures
        king_attacked(mirror_board(b), c.inverted(), e),
{
    let i = choose|i: int|
        0 <= i < 64 && #[trigger] b.at(square_at(i)) == (Square::Occupied { kind: "king"@, color: c })
            && danger_bit(d, square_at(i));
    lemma_grid_places(i);
    let p = square_at(i);
    let j = square_index(mirror(p));
    assert(danger_bit(e, mirror(p)) == danger_bit(d, p));
    assert(mirror_board(b).at(square_at(j)) == (Square::Occupied {
        kind: "king"@,
        color: c.inverted(),
    }) && danger_bit(e, square_at(j)));
}

proof fn lemma_king_attack_turns_back(b: BoardView, c: Color, d: u64, e: u64)
    requires
        b.wf(),
        forall|p: Position| on_board(p) ==> danger_bit(e, mirror(p)) == #[trigger] danger_bit(d, p),
        forall|i: int|
            0 <= i < 64 ==> #[trigger] mirror_board(b).at(square_at(i)) == recolored(
                b.at(mirror(square_at(i))),
            ),
        king_attacked(mirror_board(b), c.inverted(), e),
    ensures
        king_attacked(b, c, d),
{
    let mb = mirror_board(b);
    let j = choose|j: int|
        0 <= j < 64 && #[trigger] mb.at(square_at(j)) == (Square::Occupied {
            kind: "king"@,
            color: c.inverted(),
        }) && danger_bit(e, square_at(j));
    lemma_grid_places(j);
    let q = square_at(j);
    let p = mirror(q);
    let i = square_index(p);
    assert(danger_bit(e, mirror(p)) == danger_bit(d, p));
    assert(b.at(square_at(i)) == (Square::Occupied { kind: "king"@, color: c }) && danger_bit(
        d,
        square_at(i),
    ));
}

/// A king is attacked on the turned board exactly when it is attacked here:
/// where the masks mirror each other, `check` has the same answer on both
/// boards.
pub proof fn lemma_mirror_king_attacked(b: BoardView, c: Color, d: u64, e: u64)
    requires
        b.wf(),
        mirrored_masks(d, e),
    ensures
        king_attacked(mirror_board(b), c.inverted(), e) == king_attacked(b, c, d),
{
    assert forall|i: int| 0 <= i < 64 implies mirror_board(b).at(mirror(square_at(i)))
        == recolored(#[trigger] b.at(square_at(i))) by {
        lemma_mirror_board_at(b, square_at(i));
    }
    assert forall|i: int| 0 <= i < 64 implies #[trigger] mirror_board(b).at(square_at(i))
        == recolored(b.at(mirror(square_at(i)))) by {
        lemma_grid_places(i);
        lemma_mirror_board_at(b, mirror(square_at(i)));
    }
    if king_attacked(b, c, d) {
        lemma_king_attack_turns(b, c, d, e);
    }
    if king_attacked(mirror_board(b), c.inverted(), e) {
        lemma_king_attack_turns_back(b, c, d, e);
    }
}

proof fn lemma_mirror_probe(sc: Scene, e: u64, st: Run, ins: Instr)
    requires
        sc.wf(),
        st.sound(sc),
        mirrored_masks(sc.danger, e),
        is_probe(ins.op),
    ensures
        step_probe(
            mirror_scene(sc, e),
            mirror_run(st),
            ins.op,
            reflected(ins.delta, sc.color.inverted()),
            ins.name,
        ) == mirror_run(step_probe(sc, st, ins.op, reflected(ins.delta, sc.color), ins.name)),
{
    let d = reflected(ins.delta, sc.color);
    let a = st.anchor();
    let b = stepped(a, d);
    lemma_mirror_run_ops(sc, e, st);
    lemma_mirror_step(a, ins.delta, sc.color);
    lemma_mirror_scene_at(sc, e, b);
    if step_lands(a, d) {
        let s = st.with_anchor(b);
        lemma_mirror_run_ops(sc, e, s);
        lemma_mirror_run_ops(sc, e, s.emit(sc, b, b, MoveType::TakeMove));
        lemma_mirror_run_ops(sc, e, s.emit(sc, b, b, MoveType::Take));
        lemma_mirror_run_ops(sc, e, s.emit(sc, b, b, MoveType::Move));
        lemma_mirror_run_ops(sc, e, s.emit(sc, b, sc.origin, MoveType::Catch));
        lemma_mirror_run_ops(sc, e, s.emit(sc, sc.origin, b, MoveType::Shift));
        lemma_mirror_run_ops(sc, e, st.with_flag(sc.enemy(b)));
        lemma_mirror_run_ops(sc, e, st.with_flag(sc.friendly(b)));
        lemma_mirror_run_ops(sc, e, st.with_flag(sc.board.at(b).is_kind(ins.name)));
        lemma_mirror_run_ops(sc, e, st.with_flag(danger_bit(sc.danger, b)));
        if ins.op == Opcode::Take && sc.enemy(b) {
            let t = s.emit(sc, b, b, MoveType::Take);
            let u = Run { takes: t.takes.update(t.takes.len() - 1, Some(b)), ..t };
            let mt = mirror_run(t);
            let mu = Run { takes: mt.takes.update(mt.takes.len() - 1, Some(mirror(b))), ..mt };
            assert(mirror_run(u).takes =~= mu.takes);
            assert(mirror_run(u).frames =~= mu.frames);
            assert(mirror_run(u) == mu);
            lemma_mirror_run_ops(sc, e, u);
        }
    }
}

proof fn lemma_mirror_jump(sc: Scene, e: u64, st: Run, raw: DeltaPosition)
    requires
        sc.wf(),
        st.sound(sc),
        mirrored_masks(sc.danger, e),
    ensures
        step_jump(mirror_scene(sc, e), mirror_run(st), reflected(raw, sc.color.inverted()))
            == mirror_run(step_jump(sc, st, reflected(raw, sc.color))),
{
    let d = reflected(raw, sc.color);
    let a = st.anchor();
    let b = stepped(a, d);
    lemma_mirror_run_ops(sc, e, st);
    lemma_mirror_step(a, raw, sc.color);
    lemma_mirror_scene_at(sc, e, b);
    match st.takes.last() {
        Some(t) => {
            let s = Run { nodes: without_take(st.nodes, t), ..st };
            lemma_mirror_without_take(st.nodes, t);
            let ms = Run { nodes: without_take(mirror_run(st).nodes, mirror(t)), ..mirror_run(st) };
            assert(mirror_run(s).frames =~= ms.frames);
            assert(mirror_run(s).takes =~= ms.takes);
            assert(mirror_run(s) == ms);
            lemma_mirror_run_ops(sc, e, s);
            if step_lands(a, d) {
                lemma_mirror_run_ops(sc, e, s.with_anchor(b));
                lemma_mirror_run_ops(sc, e, s.with_anchor(b).emit(sc, t, b, MoveType::TakeJump));
            }
        },
        None => {},
    }
}

proof fn lemma_mirror_state(sc: Scene, e: u64, st: Run, ins: Instr)
    requires
        sc.wf(),
        st.sound(sc),
        mirrored_masks(sc.danger, e),
    ensures
        step_state(mirror_scene(sc, e), mirror_run(st), ins) == mirror_run(step_state(sc, st, ins)),
{
    lemma_mirror_run_ops(sc, e, st);
    lemma_mirror_run_ops(sc, e, st.with_flag(sc.kind == ins.name));
    lemma_mirror_run_ops(sc, e, st.with_flag(sc.checked));
    lemma_mirror_run_ops(
        sc,
        e,
        st.with_flag(
            crate::chessembly::board::register_value(sc.board.side(sc.color).register, ins.name)
                == ins.count,
        ),
    );
    if ins.op == Opcode::SetState {
        let u = Run {
            changes: Some(
                match st.changes {
                    Some(c) => c.push((ins.name, ins.count)),
                    None => seq![(ins.name, ins.count)],
                },
            ),
            ..st
        };
        assert(mirror_run(u).frames =~= mirror_run(st).frames);
        assert(mirror_run(u).takes =~= mirror_run(st).takes);
        lemma_mirror_run_ops(sc, e, u);
    }
    if ins.op == Opcode::Transition {
        let u = Run {
            transition: if ins.name.len() == 0 {
                None
            } else {
                Some(ins.name)
            },
            ..st
        };
        assert(mirror_run(u).frames =~= mirror_run(st).frames);
        assert(mirror_run(u).takes =~= mirror_run(st).takes);
        lemma_mirror_run_ops(sc, e, u);
    }
}

proof fn lemma_mirror_flow(chain: Seq<Instr>, sc: Scene, e: u64, st: Run, ins: Instr)
    requires
        st.sound(sc),
    ensures
        step_flow(chain, mirror_run(st), ins) == mirror_run(step_flow(chain, st, ins)),
{
    lemma_mirror_run_ops(sc, e, st);
    lemma_mirror_run_ops(sc, e, st.with_flag(!st.flag()));
    lemma_mirror_run_ops(sc, e, st.with_flag(true));
    let r = step_flow(chain, st, ins);
    let m = step_flow(chain, mirror_run(st), ins);
    assert(m.frames =~= mirror_run(r).frames);
    assert(m.takes =~= mirror_run(r).takes);
    assert(m.nodes =~= mirror_run(r).nodes);
    assert(m.flags =~= mirror_run(r).flags);
}

/// A step on the turned scene is the turned step.
pub proof fn lemma_mirror_step_run(chain: Seq<Instr>, sc: Scene, e: u64, st: Run)
    requires
        sc.wf(),
        st.sound(sc),
        st.live(chain),
        mirrored_masks(sc.danger, e),
        chain_unsided(chain),
    ensures
        step(chain, mirror_scene(sc, e), mirror_run(st)) == mirror_run(step(chain, sc, st)),
        mirror_run(st).live(chain),
{
    lemma_mirror_run_ops(sc, e, st);
    let jumped = !st.flag() && !is_control(chain[st.ip].op);
    if jumped && !(st.frames.len() > 1 && 0 <= st.frames.last().1 < chain.len()) {
    } else {
        let s = if jumped {
            Run { ip: st.frames.last().1, ..st }
        } else {
            st
        };
        assert(s.sound(sc));
        lemma_mirror_run_ops(sc, e, s);
        let ins = chain[s.ip];
        assert(!is_sided(ins.op));
        if is_probe(ins.op) {
            lemma_mirror_probe(sc, e, s, ins);
        } else if ins.op == Opcode::Jump {
            lemma_mirror_jump(sc, e, s, ins.delta);
        } else if is_wall_test(ins.op) {
            lemma_mirror_step(s.anchor(), ins.delta, sc.color);
            let d = reflected(ins.delta, sc.color);
            lemma_mirror_run_ops(
                sc,
                e,
                s.with_flag(wall_test(ins.op, wall_class(s.anchor(), d, sc.color))),
            );
        } else {
            match ins.op {
                Opcode::Piece
                | Opcode::Check
                | Opcode::IfState
                | Opcode::SetState
                | Opcode::Transition => {
                    lemma_mirror_state(sc, e, s, ins);
                },
                _ => {
                    lemma_mirror_flow(chain, sc, e, s, ins);
                },
            }
        }
    }
}

proof fn lemma_mirror_whole_run(chain: Seq<Instr>, sc: Scene, e: u64, st: Run, fuel: nat)
    requires
        sc.wf(),
        st.halted || st.sound(sc),
        mirrored_masks(sc.danger, e),
        chain_unsided(chain),
    ensures
        run(chain, mirror_scene(sc, e), mirror_run(st), fuel) == mirror_moves(
            run(chain, sc, st, fuel),
        ),
    decreases fuel,
{
    if fuel > 0 && st.live(chain) {
        lemma_mirror_step_run(chain, sc, e, st);
        lemma_step_sound(chain, sc, st);
        lemma_mirror_whole_run(chain, sc, e, step(chain, sc, st), (fuel - 1) as nat);
    } else {
        assert(mirror_run(st).live(chain) == st.live(chain));
    }
}

proof fn lemma_mirror_chains(program: Seq<Seq<Instr>>, sc: Scene, e: u64, n: int)
    requires
        sc.wf(),
        mirrored_masks(sc.danger, e),
        program_unsided(program),
        0 <= n <= program.len(),
    ensures
        run_chains(program, mirror_scene(sc, e), n) == mirror_moves(run_chains(program, sc, n)),
    decreases n,
{
    if n > 0 {
        lemma_mirror_chains(program, sc, e, n - 1);
        lemma_run_chains_sound(program, sc, n - 1);
        let chain = program[n - 1];
        let nodes = run_chains(program, sc, n - 1);
        let st = Run::begin(chain, sc.origin, nodes);
        assert(st.sound(sc));
        let mst = Run::begin(chain, mirror(sc.origin), mirror_moves(nodes));
        assert(mirror_run(st).frames =~= mst.frames);
        assert(mirror_run(st).takes =~= mst.takes);
        assert(mirror_run(st) == mst);
        lemma_mirror_whole_run(chain, sc, e, st, LOOP_CAP as nat);
    } else {
        assert(run_chains(program, mirror_scene(sc, e), 0) =~= mirror_moves(
            run_chains(program, sc, 0),
        ));
    }
}

/// Side-reflection symmetry. On the board turned round, with the ranks
/// mirrored, the colours swapped and the two sides' states changed over, a
/// program gives the piece on the mirrored square the moves that it gives
/// the piece here, each turned round and in the same order. This holds of
/// every program without an instruction that tells the left wall from the
/// right one, `e` marking the mirrored squares of those that `d` marks, and
/// `check` having the same answer on both boards.
pub proof fn lemma_script_moves_mirror(
    program: Seq<Seq<Instr>>,
    b: BoardView,
    p: Position,
    d: u64,
    e: u64,
    checked: bool,
)
    requires
        b.wf(),
        program_unsided(program),
        mirrored_masks(d, e),
    ensures
        script_moves(program, mirror_board(b), mirror(p), e, checked) == mirror_moves(
            script_moves(program, b, p, d, checked),
        ),
{
    lemma_mirror_board_at(b, p);
    if b.at(p) is Occupied {
        let sc = scene_of(b, p, d, checked);
        assert(on_board(p));
        assert(scene_of(mirror_board(b), mirror(p), e, checked) == mirror_scene(sc, e));
        lemma_mirror_chains(program, sc, e, program.len() as int);
    } else {
        assert(mirror_moves(Seq::<MoveView>::empty()) =~= Seq::<MoveView>::empty());
    }
}

/// Side-reflection symmetry where attacks do not count: without a mask on
/// either side, the turned board gives the turned moves.
pub proof fn lemma_quiet_script_moves_mirror(
    program: Seq<Seq<Instr>>,
    b: BoardView,
    p: Position,
    checked: bool,
)
    requires
        b.wf(),
        program_unsided(program),
    ensures
        script_moves(program, mirror_board(b), mirror(p), 0, checked) == mirror_moves(
            script_moves(program, b, p, 0, checked),
        ),
{
    assert forall|q: Position| on_board(q) implies danger_bit(0, mirror(q)) == #[trigger] danger_bit(
        0,
        q,
    ) by {
        lemma_no_bit_set(q);
        lemma_no_bit_set(mirror(q));
    }
    lemma_script_moves_mirror(program, b, p, 0, 0, checked);
}

/// The empty mask marks no square.
pub proof fn lemma_no_bit_set(p: Position)
    ensures
        !danger_bit(0, p),
{
    if on_board(p) {
        let k = (8 * p.1 + p.0) as u64;
        assert(0u64 & (1u64 << k) == 0) by (bit_vector);
    }
}

/// A chain that asks neither for check nor for attacked squares.
pub open spec fn chain_asks_nothing(chain: Seq<Instr>) -> bool {
    forall|i: int|
        0 <= i < chain.len() ==> (#[trigger] chain[i]).op != Opcode::Check && chain[i].op
            != Opcode::Danger
}

/// A program that asks neither for check nor for attacked squares.
pub open spec fn program_asks_nothing(program: Seq<Seq<Instr>>) -> bool {
    forall|i: int| 0 <= i < program.len() ==> chain_asks_nothing(#[trigger] program[i])
}

/// The scene with other answers to `danger` and `check`.
pub open spec fn with_answers(sc: Scene, danger: u64, checked: bool) -> Scene {
    Scene { danger, checked, ..sc }
}

proof fn lemma_step_asks_nothing(chain: Seq<Instr>, sc: Scene, danger: u64, checked: bool, st: Run)
    requires
        st.live(chain),
        chain_asks_nothing(chain),
    ensures
        step(chain, with_answers(sc, danger, checked), st) == step(chain, sc, st),
{
    let jumped = !st.flag() && !is_control(chain[st.ip].op);
    if jumped && !(st.frames.len() > 1 && 0 <= st.frames.last().1 < chain.len()) {
    } else {
        let s = if jumped {
            Run { ip: st.frames.last().1, ..st }
        } else {
            st
        };
        let ins = chain[s.ip];
        assert(ins.op != Opcode::Check && ins.op != Opcode::Danger);
    }
}

proof fn lemma_run_asks_nothing(
    chain: Seq<Instr>,
    sc: Scene,
    danger: u64,
    checked: bool,
    st: Run,
    fuel: nat,
)
    requires
        chain_asks_nothing(chain),
    ensures
        run(chain, with_answers(sc, danger, checked), st, fuel) == run(chain, sc, st, fuel),
    decreases fuel,
{
    if fuel > 0 && st.live(chain) {
        lemma_step_asks_nothing(chain, sc, danger, checked, st);
        lemma_run_asks_nothing(chain, sc, danger, checked, step(chain, sc, st), (fuel - 1) as nat);
    }
}

proof fn lemma_chains_ask_nothing(
    program: Seq<Seq<Instr>>,
    sc: Scene,
    danger: u64,
    checked: bool,
    n: int,
)
    requires
        program_asks_nothing(program),
        0 <= n <= program.len(),
    ensures
        run_chains(program, with_answers(sc, danger, checked), n) == run_chains(program, sc, n),
    decreases n,
{
    if n > 0 {
        lemma_chains_ask_nothing(program, sc, danger, checked, n - 1);
        lemma_run_asks_nothing(
            program[n - 1],
            sc,
            danger,
            checked,
            Run::begin(program[n - 1], sc.origin, run_chains(program, sc, n - 1)),
            LOOP_CAP as nat,
        );
    }
}

/// A program that asks neither for check nor for attacked squares gives the
/// same moves whatever the answers would be.
pub proof fn lemma_answers_do_not_count(
    program: Seq<Seq<Instr>>,
    b: BoardView,
    p: Position,
    d: u64,
    x: bool,
    e: u64,
    y: bool,
)
    requires
        program_asks_nothing(program),
    ensures
        script_moves(program, b, p, d, x) == script_moves(program, b, p, e, y),
{
    if b.at(p) is Occupied {
        let sc = scene_of(b, p, d, x);
        assert(scene_of(b, p, e, y) == with_answers(sc, e, y));
        lemma_chains_ask_nothing(program, sc, e, y, program.len() as int);
    }
}

/// Side-reflection symmetry of the programs that ask nothing: a program
/// that neither tells left from right nor asks for check or for attacked
/// squares gives the piece on the mirrored square of the turned board the
/// moves that it gives the piece here, turned round, whatever is attacked
/// on either board.
pub proof fn lemma_plain_script_moves_mirror(
    program: Seq<Seq<Instr>>,
    b: BoardView,
    p: Position,
    d: u64,
    x: bool,
    e: u64,
    y: bool,
)
    requires
        b.wf(),
        program_unsided(program),
        program_asks_nothing(program),
    ensures
        script_moves(program, mirror_board(b), mirror(p), e, y) == mirror_moves(
            script_moves(program, b, p, d, x),
        ),
{
    lemma_quiet_script_moves_mirror(program, b, p, false);
    lemma_answers_do_not_count(program, b, p, d, x, 0, false);
    lemma_answers_do_not_count(program, mirror_board(b), mirror(p), e, y, 0, false);
}

} // verus!
