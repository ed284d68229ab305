//! The interpreter: it runs the chains of a program for the piece on a
//! square and hands back the moves that they emit.

use vstd::prelude::*;
use crate::chessembly::behavior::{Behavior, chain_view, Opcode};
use crate::chessembly::board::{Board, BoardView};
use crate::chessembly::geometry::{stepped, wall_class, WallCollision, zero_vector};
use crate::chessembly::machine::{
    danger_bit, execute, first_same_target, first_take_on, is_control, is_probe, is_wall_test,
    king_attacked, label_index, LOOP_CAP, push_node, Run, run, run_chain, run_chains, scan_close,
    scan_do, Scene, scene_of, script_moves, step, step_flow, step_jump, step_probe, step_state,
    swap_removed, wall_test, without_take,
};
use crate::chessembly::machine_laws::{lemma_run_chains_sound, lemma_step_sound};
use crate::chessembly::script::ChessemblyCompiled;
use crate::chessembly::{
    all_from, changes_view, ChessMove, Color, color_is, copy_changes, DeltaPosition,
    distinct_targets, lemma_list_view_push, list_view, MoveType, MoveView, on_board, Position,
    Square, square_at,
};
use crate::text::same_text;

verus! {

/// The frames of a run as plain values.
pub open spec fn frames_view(v: Seq<(Position, usize)>) -> Seq<(Position, int)> {
    Seq::new(v.len(), |i: int| (v[i].0, v[i].1 as int))
}

/// An optional name as a plain value.
pub open spec fn name_view<'a>(name: Option<&'a str>) -> Option<Seq<char>> {
    match name {
        Some(t) => Some(t@),
        None => None,
    }
}

/// Optional register updates as plain values.
pub open spec fn updates_view<'a>(changes: Option<Vec<(&'a str, u8)>>) -> Option<
    Seq<(Seq<char>, u8)>,
> {
    match changes {
        Some(v) => Some(changes_view(v@)),
        None => None,
    }
}

/// The state of a run of one chain.
struct Machine<'a> {
    ip: usize,
    frames: Vec<(Position, usize)>,
    takes: Vec<Option<Position>>,
    flags: Vec<bool>,
    transition: Option<&'a str>,
    changes: Option<Vec<(&'a str, u8)>>,
    nodes: Vec<ChessMove<'a>>,
    halted: bool,
}

impl<'a> View for Machine<'a> {
    type V = Run;

    closed spec fn view(&self) -> Run {
        Run {
            ip: self.ip as int,
            frames: frames_view(self.frames@),
            takes: self.takes@,
            flags: self.flags@,
            transition: name_view(self.transition),
            changes: updates_view(self.changes),
            nodes: list_view(self.nodes@),
            halted: self.halted,
        }
    }
}

impl<'a> Machine<'a> {
    fn begin(chain_len: usize, origin: Position, nodes: Vec<ChessMove<'a>>) -> (r: Machine<'a>)
        ensures
            r@ == (Run {
                ip: 0,
                frames: seq![(origin, chain_len as int)],
                takes: seq![None],
                flags: seq![true],
                transition: None,
                changes: None,
                nodes: list_view(nodes@),
                halted: false,
            }),
    {
        let mut frames: Vec<(Position, usize)> = Vec::new();
        frames.push((origin, chain_len));
        let mut takes: Vec<Option<Position>> = Vec::new();
        takes.push(None);
        let mut flags: Vec<bool> = Vec::new();
        flags.push(true);
        let r = Machine {
            ip: 0,
            frames,
            takes,
            flags,
            transition: None,
            changes: None,
            nodes,
            halted: false,
        };
        proof {
            assert(frames_view(r.frames@) =~= seq![(origin, chain_len as int)]);
            assert(r.takes@ =~= seq![None]);
            assert(r.flags@ =~= seq![true]);
        }
        r
    }

    fn flag(&self) -> (r: bool)
        requires
            self@.flags.len() >= 1,
        ensures
            r == self@.flag(),
    {
        self.flags[self.flags.len() - 1]
    }

    fn anchor(&self) -> (r: Position)
        requires
            self@.frames.len() >= 1,
        ensures
            r == self@.anchor(),
    {
        self.frames[self.frames.len() - 1].0
    }

    fn set_flag(&mut self, b: bool)
        requires
            old(self)@.flags.len() >= 1,
        ensures
            final(self)@ == old(self)@.with_flag(b),
    {
        let n = self.flags.len();
        self.flags.set(n - 1, b);
    }

    fn set_anchor(&mut self, a: Position)
        requires
            old(self)@.frames.len() >= 1,
        ensures
            final(self)@ == old(self)@.with_anchor(a),
    {
        let n = self.frames.len();
        let end = self.frames[n - 1].1;
        self.frames.set(n - 1, (a, end));
        proof {
            assert(frames_view(self.frames@) =~= frames_view(old(self).frames@).update(
                n - 1,
                (a, end as int),
            ));
        }
    }

    fn advance(&mut self)
        requires
            old(self)@.ip < usize::MAX,
        ensures
            final(self)@ == old(self)@.advance(),
    {
        self.ip = self.ip + 1;
    }

    fn fail(&mut self)
        requires
            old(self)@.flags.len() >= 1,
            old(self)@.ip < usize::MAX,
        ensures
            final(self)@ == old(self)@.fail(),
    {
        self.set_flag(false);
        self.advance();
    }

    fn halt(&mut self)
        ensures
            final(self)@ == old(self)@.halt(),
    {
        self.halted = true;
    }

    fn emit(&mut self, origin: Position, take: Position, move_to: Position, ty: MoveType)
        ensures
            final(self)@ == (Run {
                nodes: push_node(
                    old(self)@.nodes,
                    MoveView {
                        from: origin,
                        take,
                        move_to,
                        move_type: ty,
                        state_change: old(self)@.changes,
                        transition: old(self)@.transition,
                    },
                ),
                ..old(self)@
            }),
    {
        let state_change = match &self.changes {
            Some(v) => Some(copy_changes(v)),
            None => None,
        };
        let node = ChessMove {
            from: origin,
            take,
            move_to,
            move_type: ty,
            state_change,
            transition: self.transition,
        };
        ChessemblyCompiled::push_node(&mut self.nodes, node);
    }
}

/// Whether bit `8 * y + x` of the mask is set.
fn mask_bit(mask: u64, x: u8, y: u8) -> (r: bool)
    ensures
        r == danger_bit(mask, (x, y)),
{
    if x < 8 && y < 8 {
        let k: u8 = 8 * y + x;
        (mask & (1u64 << (k as u64))) != 0
    } else {
        false
    }
}

/// Whether a king of `color` stands on a square that the mask marks.
pub fn king_in_mask(board: &Board, color: Color, mask: u64) -> (r: bool)
    requires
        board.wf(),
    ensures
        r == king_attacked(board@, color, mask),
{
    let mut i: u8 = 0;
    while i < 64
        invariant
            i <= 64,
            board.wf(),
            forall|k: int|
                0 <= k < i ==> !(#[trigger] board@.at(square_at(k)) == (Square::Occupied {
                    kind: "king"@,
                    color,
                }) && danger_bit(mask, square_at(k))),
        decreases 64 - i,
    {
        let p: Position = (i % 8, i / 8);
        assert(p == square_at(i as int));
        if board.holds(&p, "king") && color_is(board.color_on(&p), color) && mask_bit(
            mask,
            p.0,
            p.1,
        ) {
            return true;
        }
        i = i + 1;
    }
    false
}

fn passes_wall_test(op: Opcode, wall: WallCollision) -> (r: bool)
    ensures
        r == wall_test(op, wall),
{
    match op {
        Opcode::Bound => wall != WallCollision::NoCollision,
        Opcode::Edge => wall == WallCollision::EdgeTop || wall == WallCollision::EdgeBottom || wall
            == WallCollision::EdgeLeft || wall == WallCollision::EdgeRight,
        Opcode::Corner => wall == WallCollision::CornerTopLeft || wall
            == WallCollision::CornerTopRight || wall == WallCollision::CornerBottomLeft || wall
            == WallCollision::CornerBottomRight,
        Opcode::EdgeTop => wall == WallCollision::EdgeTop,
        Opcode::EdgeBottom => wall == WallCollision::EdgeBottom,
        Opcode::EdgeLeft => wall == WallCollision::EdgeLeft,
        Opcode::EdgeRight => wall == WallCollision::EdgeRight,
        Opcode::CornerTopLeft => wall == WallCollision::CornerTopLeft,
        Opcode::CornerTopRight => wall == WallCollision::CornerTopRight,
        Opcode::CornerBottomLeft => wall == WallCollision::CornerBottomLeft,
        Opcode::CornerBottomRight => wall == WallCollision::CornerBottomRight,
        _ => false,
    }
}

fn probes(op: Opcode) -> (r: bool)
    ensures
        r == is_probe(op),
{
    match op {
        Opcode::Move
        | Opcode::Take
        | Opcode::TakeMove
        | Opcode::Catch
        | Opcode::Shift
        | Opcode::Anchor
        | Opcode::Peek
        | Opcode::Observe
        | Opcode::Enemy
        | Opcode::Friendly
        | Opcode::PieceOn
        | Opcode::Danger => true,
        _ => false,
    }
}

fn tests_wall(op: Opcode) -> (r: bool)
    ensures
        r == is_wall_test(op),
{
    match op {
        Opcode::Bound
        | Opcode::Edge
        | Opcode::Corner
        | Opcode::EdgeTop
        | Opcode::EdgeBottom
        | Opcode::EdgeLeft
        | Opcode::EdgeRight
        | Opcode::CornerTopLeft
        | Opcode::CornerTopRight
        | Opcode::CornerBottomLeft
        | Opcode::CornerBottomRight => true,
        _ => false,
    }
}

/// What the run needs to know of the piece that moves.
struct Mover<'a> {
    origin: Position,
    color: Color,
    kind: &'a str,
    danger: u64,
    checked: bool,
}

impl<'a> Mover<'a> {
    spec fn scene(&self, board: BoardView) -> Scene {
        Scene {
            board,
            origin: self.origin,
            color: self.color,
            kind: self.kind@,
            danger: self.danger,
            checked: self.checked,
        }
    }
}

fn run_probe<'a>(
    board: &Board<'a>,
    mover: &Mover<'a>,
    st: &mut Machine<'a>,
    op: Opcode,
    d: DeltaPosition,
    name: &'a str,
)
    requires
        board.wf(),
        is_probe(op),
        old(st)@.frames.len() >= 1,
        old(st)@.flags.len() >= 1,
        old(st)@.takes.len() >= 1,
        old(st)@.ip < usize::MAX,
    ensures
        final(st)@ == step_probe(mover.scene(board@), old(st)@, op, d, name@),
{
    let ghost sc = mover.scene(board@);
    let refuses_zero = match op {
        Opcode::Move | Opcode::Take | Opcode::TakeMove | Opcode::Catch => true,
        _ => false,
    };
    if refuses_zero && ChessemblyCompiled::is_zero_vector(&d) {
        st.fail();
        return;
    }
    let mut b = st.anchor();
    let wc = ChessemblyCompiled::move_anchor(&mut b, &d, board, mover.color);
    if wc != WallCollision::NoCollision {
        st.fail();
        return;
    }
    let friendly = ChessemblyCompiled::is_friendly(&b, board, mover.color);
    let enemy = ChessemblyCompiled::is_enemy(&b, board, mover.color);
    let empty = board.color_on(&b).is_none();
    match op {
        Opcode::TakeMove => {
            if friendly {
                st.fail();
            } else if enemy {
                st.set_anchor(b);
                st.emit(mover.origin, b, b, MoveType::TakeMove);
                st.fail();
            } else {
                st.set_anchor(b);
                st.emit(mover.origin, b, b, MoveType::TakeMove);
                st.advance();
            }
        },
        Opcode::Take => {
            if friendly {
                st.fail();
            } else if enemy {
                st.set_anchor(b);
                st.emit(mover.origin, b, b, MoveType::Take);
                let n = st.takes.len();
                st.takes.set(n - 1, Some(b));
                st.advance();
            } else {
                st.set_anchor(b);
                st.advance();
            }
        },
        Opcode::Catch => {
            if friendly {
                st.fail();
            } else if enemy {
                st.set_anchor(b);
                st.emit(mover.origin, b, mover.origin, MoveType::Catch);
                st.advance();
            } else {
                st.set_anchor(b);
                st.advance();
            }
        },
        Opcode::Move => {
            if empty {
                st.set_anchor(b);
                st.emit(mover.origin, b, b, MoveType::Move);
                st.advance();
            } else {
                st.fail();
            }
        },
        Opcode::Shift => {
            if empty {
                st.set_anchor(b);
                st.advance();
            } else {
                st.set_anchor(b);
                st.emit(mover.origin, mover.origin, b, MoveType::Shift);
                st.advance();
            }
        },
        Opcode::Anchor => {
            st.set_anchor(b);
            st.advance();
        },
        Opcode::Peek => {
            if empty {
                st.set_anchor(b);
                st.advance();
            } else {
                st.fail();
            }
        },
        Opcode::Observe => {
            if empty {
                st.advance();
            } else {
                st.fail();
            }
        },
        Opcode::Enemy => {
            st.set_flag(enemy);
            st.advance();
        },
        Opcode::Friendly => {
            st.set_flag(friendly);
            st.advance();
        },
        Opcode::PieceOn => {
            st.set_flag(board.holds(&b, name));
            st.advance();
        },
        Opcode::Danger => {
            st.set_flag(mask_bit(mover.danger, b.0, b.1));
            st.advance();
        },
        _ => {
            st.halt();
        },
    }
}

fn run_jump<'a>(board: &Board<'a>, mover: &Mover<'a>, st: &mut Machine<'a>, d: DeltaPosition)
    requires
        board.wf(),
        old(st)@.frames.len() >= 1,
        old(st)@.flags.len() >= 1,
        old(st)@.takes.len() >= 1,
        old(st)@.ip < usize::MAX,
    ensures
        final(st)@ == step_jump(mover.scene(board@), old(st)@, d),
{
    let latest = st.takes[st.takes.len() - 1];
    match latest {
        Some(t) => {
            remove_take(&mut st.nodes, t);
            if ChessemblyCompiled::is_zero_vector(&d) {
                st.fail();
                return;
            }
            let mut b = st.anchor();
            let wc = ChessemblyCompiled::move_anchor(&mut b, &d, board, mover.color);
            if wc != WallCollision::NoCollision {
                st.fail();
                return;
            }
            st.set_anchor(b);
            if board.color_on(&b).is_none() {
                st.emit(mover.origin, t, b, MoveType::TakeJump);
                st.advance();
            } else {
                st.fail();
            }
        },
        None => {
            st.fail();
        },
    }
}

/// Takes the first `Take` on `t` out of the list.
fn remove_take<'a>(nodes: &mut Vec<ChessMove<'a>>, t: Position)
    ensures
        list_view(final(nodes)@) == without_take(list_view(old(nodes)@), t),
{
    let ghost views = list_view(nodes@);
    let mut i: usize = 0;
    while i < nodes.len()
        invariant
            i <= nodes@.len(),
            nodes@ == old(nodes)@,
            views == list_view(nodes@),
            first_take_on(views, t, i as int) == first_take_on(views, t, 0),
        decreases nodes@.len() - i,
    {
        let found = nodes[i].move_type == MoveType::Take && nodes[i].take.0 == t.0
            && nodes[i].take.1 == t.1;
        proof {
            assert(views[i as int] == nodes@[i as int]@);
        }
        if found {
            nodes.swap_remove(i);
            proof {
                assert(list_view(nodes@) =~= swap_removed(views, i as int));
            }
            return;
        }
        i = i + 1;
    }
}

fn run_state<'a>(board: &Board<'a>, mover: &Mover<'a>, st: &mut Machine<'a>, ins: Behavior<'a>)
    requires
        board.wf(),
        old(st)@.flags.len() >= 1,
        old(st)@.ip < usize::MAX,
    ensures
        final(st)@ == step_state(mover.scene(board@), old(st)@, ins@),
{
    match ins.op {
        Opcode::Piece => {
            st.set_flag(same_text(mover.kind, ins.name));
            st.advance();
        },
        Opcode::Check => {
            st.set_flag(mover.checked);
            st.advance();
        },
        Opcode::IfState => {
            let v = board.state(mover.color).register_value(ins.name);
            st.set_flag(v == ins.count);
            st.advance();
        },
        Opcode::SetState => {
            let ghost before = updates_view(st.changes);
            let mut list = match &st.changes {
                Some(v) => copy_changes(v),
                None => Vec::new(),
            };
            list.push((ins.name, ins.count));
            proof {
                match before {
                    Some(c) => {
                        assert(changes_view(list@) =~= c.push((ins.name@, ins.count)));
                    },
                    None => {
                        assert(changes_view(list@) =~= seq![(ins.name@, ins.count)]);
                    },
                }
            }
            st.changes = Some(list);
            st.advance();
        },
        Opcode::Transition => {
            if ins.name.unicode_len() == 0 {
                st.transition = None;
            } else {
                st.transition = Some(ins.name);
            }
            st.advance();
        },
        _ => {
            st.halt();
        },
    }
}

/// Where the block that opens at `from` closes.
fn find_close<'a>(chain: &Vec<Behavior<'a>>, from: usize) -> (r: usize)
    requires
        from < chain@.len(),
        chain@[from as int].op == Opcode::BlockOpen,
    ensures
        r as int == scan_close(chain_view(chain@), from as int, 0),
        r <= chain@.len(),
{
    let ghost c = chain_view(chain@);
    let mut end: usize = from;
    let mut depth: usize = 0;
    while end < chain.len()
        invariant
            from <= end <= chain@.len(),
            c == chain_view(chain@),
            c[from as int].op == Opcode::BlockOpen,
            depth <= end - from,
            end > from ==> depth >= 1,
            scan_close(c, end as int, depth as int) == scan_close(c, from as int, 0),
        decreases chain@.len() - end,
    {
        proof {
            assert(c[end as int] == chain@[end as int]@);
        }
        match chain[end].op {
            Opcode::BlockOpen => {
                depth = depth + 1;
            },
            Opcode::BlockClose => {
                if depth == 1 {
                    return end;
                }
                depth = depth - 1;
            },
            _ => {},
        }
        end = end + 1;
    }
    end
}

/// Where the loop that ends at `from` begins.
fn find_do<'a>(chain: &Vec<Behavior<'a>>, from: usize) -> (r: usize)
    requires
        from < chain@.len(),
        chain@[from as int].op == Opcode::While,
    ensures
        r as int == scan_do(chain_view(chain@), from as int, 0),
        r <= from,
{
    let ghost c = chain_view(chain@);
    let mut i: usize = from;
    let mut depth: usize = 0;
    let n = chain.len();
    loop
        invariant
            i <= from < chain@.len() == n,
            c == chain_view(chain@),
            c[from as int].op == Opcode::While,
            depth <= from - i,
            i < from ==> depth >= 1,
            scan_do(c, i as int, depth as int) == scan_do(c, from as int, 0),
        decreases i,
    {
        proof {
            assert(c[i as int] == chain@[i as int]@);
        }
        match chain[i].op {
            Opcode::While => {
                depth = depth + 1;
            },
            Opcode::Do => {
                if depth == 1 {
                    return i;
                }
                depth = depth - 1;
            },
            _ => {},
        }
        if i == 0 {
            return 0;
        }
        i = i - 1;
    }
}

/// The first label of the given name.
fn find_label<'a>(chain: &Vec<Behavior<'a>>, name: &str) -> (r: usize)
    ensures
        r as int == label_index(chain_view(chain@), name@, 0),
        r <= chain@.len(),
{
    let ghost c = chain_view(chain@);
    let mut i: usize = 0;
    while i < chain.len()
        invariant
            i <= chain@.len(),
            c == chain_view(chain@),
            label_index(c, name@, i as int) == label_index(c, name@, 0),
        decreases chain@.len() - i,
    {
        proof {
            assert(c[i as int] == chain@[i as int]@);
        }
        if chain[i].op == Opcode::Label && same_text(chain[i].name, name) {
            return i;
        }
        i = i + 1;
    }
    i
}

fn run_flow<'a>(chain: &Vec<Behavior<'a>>, st: &mut Machine<'a>, ins: Behavior<'a>)
    requires
        old(st)@.live(chain_view(chain@)),
        ins@ == chain_view(chain@)[old(st)@.ip],
    ensures
        final(st)@ == step_flow(chain_view(chain@), old(st)@, ins@),
{
    let ghost c = chain_view(chain@);
    let n = chain.len();
    proof {
        assert(c[st.ip as int] == chain@[st.ip as int]@);
    }
    match ins.op {
        Opcode::BlockOpen => {
            let end = find_close(chain, st.ip);
            let a = st.anchor();
            let latest = st.takes[st.takes.len() - 1];
            st.frames.push((a, end));
            st.takes.push(latest);
            st.flags.push(true);
            proof {
                assert(frames_view(st.frames@) =~= frames_view(old(st).frames@).push(
                    (a, end as int),
                ));
            }
            st.advance();
        },
        Opcode::BlockClose => {
            if st.frames.len() > 1 && st.flags.len() > 1 {
                st.frames.pop();
                st.flags.pop();
                if st.takes.len() > 1 {
                    st.takes.pop();
                }
                proof {
                    assert(frames_view(st.frames@) =~= frames_view(old(st).frames@).drop_last());
                    assert(st.flags@ =~= old(st).flags@.drop_last());
                    if old(st).takes@.len() > 1 {
                        assert(st.takes@ =~= old(st).takes@.drop_last());
                    }
                }
                st.advance();
            } else {
                st.halt();
            }
        },
        Opcode::Repeat => {
            if ins.count == 0 || ins.count as usize > st.ip {
                st.halt();
            } else {
                st.ip = st.ip - ins.count as usize;
            }
        },
        Opcode::Not => {
            let f = st.flag();
            st.set_flag(!f);
            st.advance();
        },
        Opcode::Do => {
            if n - st.ip <= 1 {
                st.halt();
            } else {
                proof {
                    assert(c[st.ip + 1] == chain@[st.ip + 1]@);
                }
                if chain[st.ip + 1].op == Opcode::While {
                    st.ip = st.ip + 2;
                } else {
                    st.flags.push(true);
                    st.advance();
                }
            }
        },
        Opcode::While => {
            if st.flag() {
                st.ip = find_do(chain, st.ip);
            } else {
                st.flags.pop();
                proof {
                    assert(st.flags@ =~= old(st).flags@.drop_last());
                }
                if st.flags.len() == 0 {
                    st.halt();
                } else {
                    st.advance();
                }
            }
        },
        Opcode::Label => {
            st.advance();
        },
        Opcode::Jmp => {
            if st.flag() {
                let target = find_label(chain, ins.name);
                if target < n {
                    st.ip = target;
                } else {
                    st.halt();
                }
            } else {
                st.set_flag(true);
                st.advance();
            }
        },
        Opcode::Jne => {
            if !st.flag() {
                let target = find_label(chain, ins.name);
                if target < n {
                    st.ip = target;
                    st.set_flag(true);
                } else {
                    st.halt();
                }
            } else {
                st.advance();
            }
        },
        _ => {
            st.halt();
        },
    }
}

/// Runs the instruction at the instruction pointer.
fn run_instruction<'a>(
    chain: &Vec<Behavior<'a>>,
    board: &Board<'a>,
    mover: &Mover<'a>,
    st: &mut Machine<'a>,
)
    requires
        board.wf(),
        old(st)@.live(chain_view(chain@)),
    ensures
        final(st)@ == execute(chain_view(chain@), mover.scene(board@), old(st)@),
{
    let n = chain.len();
    let raw = chain[st.ip];
    proof {
        assert(chain_view(chain@)[st.ip as int] == raw@);
        assert(st@.ip < n);
    }
    let ins = raw.reflect_turn(mover.color);
    if probes(ins.op) {
        run_probe(board, mover, st, ins.op, ins.delta, ins.name);
    } else if ins.op == Opcode::Jump {
        run_jump(board, mover, st, ins.delta);
    } else if tests_wall(ins.op) {
        let a = st.anchor();
        let wall = ChessemblyCompiled::wall_collision(&a, &ins.delta, board, mover.color);
        st.set_flag(passes_wall_test(ins.op, wall));
        st.advance();
    } else {
        match ins.op {
            Opcode::Piece
            | Opcode::Check
            | Opcode::IfState
            | Opcode::SetState
            | Opcode::Transition => {
                run_state(board, mover, st, raw);
            },
            _ => {
                run_flow(chain, st, raw);
            },
        }
    }
}

fn controls(op: Opcode) -> (r: bool)
    ensures
        r == is_control(op),
{
    match op {
        Opcode::While | Opcode::Jmp | Opcode::Jne | Opcode::Label | Opcode::Not => true,
        _ => false,
    }
}

/// One step of a live run.
fn run_step<'a>(
    chain: &Vec<Behavior<'a>>,
    board: &Board<'a>,
    mover: &Mover<'a>,
    st: &mut Machine<'a>,
)
    requires
        board.wf(),
        old(st)@.live(chain_view(chain@)),
    ensures
        final(st)@ == step(chain_view(chain@), mover.scene(board@), old(st)@),
{
    proof {
        assert(chain_view(chain@)[st.ip as int] == chain@[st.ip as int]@);
    }
    if !st.flag() && !controls(chain[st.ip].op) {
        let frames = st.frames.len();
        let end = st.frames[frames - 1].1;
        if frames > 1 && end < chain.len() {
            st.ip = end;
            run_instruction(chain, board, mover, st);
        } else {
            st.halt();
        }
    } else {
        run_instruction(chain, board, mover, st);
    }
}

/// Runs one chain on the moves of the chains before it.
fn run_one<'a>(
    chain: &Vec<Behavior<'a>>,
    board: &Board<'a>,
    mover: &Mover<'a>,
    nodes: Vec<ChessMove<'a>>,
) -> (r: Vec<ChessMove<'a>>)
    requires
        board.wf(),
        on_board(mover.origin),
        all_from(list_view(nodes@), mover.origin),
        distinct_targets(list_view(nodes@)),
    ensures
        list_view(r@) == run_chain(chain_view(chain@), mover.scene(board@), list_view(nodes@)),
{
    let ghost c = chain_view(chain@);
    let ghost sc = mover.scene(board@);
    let mut st = Machine::begin(chain.len(), mover.origin, nodes);
    let mut loops: usize = 0;
    proof {
        board.lemma_view_wf();
        assert(st@ == Run::begin(c, sc.origin, list_view(nodes@)));
        assert(st@.sound(sc));
    }
    while loops < LOOP_CAP && !st.halted && st.ip < chain.len()
        invariant
            board.wf(),
            sc.wf(),
            c == chain_view(chain@),
            sc == mover.scene(board@),
            loops <= LOOP_CAP,
            st@.halted || st@.sound(sc),
            all_from(st@.nodes, sc.origin),
            distinct_targets(st@.nodes),
            run(c, sc, st@, (LOOP_CAP - loops) as nat) == run_chain(c, sc, list_view(nodes@)),
        decreases LOOP_CAP - loops,
    {
        proof {
            assert(st@.live(c));
            lemma_step_sound(c, sc, st@);
        }
        run_step(chain, board, mover, &mut st);
        loops = loops + 1;
    }
    proof {
        if loops < LOOP_CAP {
            assert(!st@.live(c));
        }
    }
    st.nodes
}

impl<'a> ChessemblyCompiled<'a> {
    /// The wall that a piece of `color` runs into when it steps from
    /// `anchor` by `delta`.
    pub fn wall_collision(anchor: &Position, delta: &DeltaPosition, board: &Board, color: Color) -> (r:
        WallCollision)
        ensures
            r == wall_class(*anchor, *delta, color),
    {
        let width: i16 = board.get_width() as i16;
        let height: i16 = board.get_height() as i16;
        let a0: i16 = anchor.0 as i16 + delta.0 as i16;
        let a1: i16 = anchor.1 as i16 - delta.1 as i16;
        let left = a0 < 0;
        let right = a0 >= width;
        let top = a1 < 0;
        let bottom = a1 >= height;
        let white = match color {
            Color::White => true,
            Color::Black => false,
        };
        if left && top {
            if white { WallCollision::CornerTopLeft } else { WallCollision::CornerBottomRight }
        } else if right && top {
            if white { WallCollision::CornerTopRight } else { WallCollision::CornerBottomLeft }
        } else if left && bottom {
            if white { WallCollision::CornerBottomLeft } else { WallCollision::CornerTopRight }
        } else if right && bottom {
            if white { WallCollision::CornerBottomRight } else { WallCollision::CornerTopLeft }
        } else if left {
            if white { WallCollision::EdgeLeft } else { WallCollision::EdgeRight }
        } else if right {
            if white { WallCollision::EdgeRight } else { WallCollision::EdgeLeft }
        } else if top {
            if white { WallCollision::EdgeTop } else { WallCollision::EdgeBottom }
        } else if bottom {
            if white { WallCollision::EdgeBottom } else { WallCollision::EdgeTop }
        } else {
            WallCollision::NoCollision
        }
    }

    /// Takes the step where it stays on the board, and says what it ran
    /// into where it does not; the anchor then stays where it was.
    pub fn move_anchor(anchor: &mut Position, delta: &DeltaPosition, board: &Board, color: Color) -> (r:
        WallCollision)
        ensures
            r == wall_class(*old(anchor), *delta, color),
            r == WallCollision::NoCollision ==> *final(anchor) == stepped(*old(anchor), *delta),
            r != WallCollision::NoCollision ==> *final(anchor) == *old(anchor),
    {
        let wc = ChessemblyCompiled::wall_collision(anchor, delta, board, color);
        if wc == WallCollision::NoCollision {
            let a0: i16 = anchor.0 as i16 + delta.0 as i16;
            let a1: i16 = anchor.1 as i16 - delta.1 as i16;
            *anchor = (a0 as u8, a1 as u8);
            return WallCollision::NoCollision;
        }
        wc
    }

    /// Takes a step back.
    pub fn cancel_move_anchor(anchor: &mut Position, delta: &DeltaPosition)
        requires
            0 <= old(anchor).0 - delta.0 <= u8::MAX,
            0 <= old(anchor).1 + delta.1 <= u8::MAX,
        ensures
            final(anchor).0 == old(anchor).0 - delta.0,
            final(anchor).1 == old(anchor).1 + delta.1,
    {
        let a0: i16 = anchor.0 as i16 - delta.0 as i16;
        let a1: i16 = anchor.1 as i16 + delta.1 as i16;
        *anchor = (a0 as u8, a1 as u8);
    }

    /// Whether a piece of the other side than `color` stands on `anchor`.
    pub fn is_enemy(anchor: &Position, board: &Board, color: Color) -> (r: bool)
        requires
            board.wf(),
        ensures
            r == (board@.color_at(*anchor) == Some(color.inverted())),
    {
        color_is(board.color_on(anchor), color.invert())
    }

    /// Whether a piece of `color` stands on `anchor`.
    pub fn is_friendly(anchor: &Position, board: &Board, color: Color) -> (r: bool)
        requires
            board.wf(),
        ensures
            r == (board@.color_at(*anchor) == Some(color)),
    {
        color_is(board.color_on(anchor), color)
    }

    /// Whether the step moves nowhere.
    pub fn is_zero_vector(delta: &DeltaPosition) -> (r: bool)
        ensures
            r == zero_vector(*delta),
    {
        delta.0 == 0 && delta.1 == 0
    }

    /// Whether bit `8 * y + x` of the mask is set. A square off the board
    /// has no bit.
    pub fn is_danger_bit(danger_zones_bit: u64, x: u8, y: u8) -> (r: bool)
        ensures
            r == danger_bit(danger_zones_bit, (x, y)),
    {
        mask_bit(danger_zones_bit, x, y)
    }

    /// Appends `node`, and first takes out the earliest move that has its
    /// capture and landing squares: of two such moves the later one stays.
    pub fn push_node(nodes: &mut Vec<ChessMove<'a>>, node: ChessMove<'a>)
        ensures
            list_view(final(nodes)@) == push_node(list_view(old(nodes)@), node@),
    {
        let ghost views = list_view(nodes@);
        let mut i: usize = 0;
        let mut found = false;
        while i < nodes.len() && !found
            invariant
                i <= nodes@.len(),
                nodes@ == old(nodes)@,
                views == list_view(nodes@),
                !found ==> first_same_target(views, node@, i as int) == first_same_target(
                    views,
                    node@,
                    0,
                ),
                found ==> i < nodes@.len() && first_same_target(views, node@, 0) == i,
            decreases nodes@.len() - i + if found { 0int } else { 1int },
        {
            let x = &nodes[i];
            proof {
                assert(views[i as int] == nodes@[i as int]@);
            }
            if x.move_to.0 == node.move_to.0 && x.move_to.1 == node.move_to.1 && x.take.0
                == node.take.0 && x.take.1 == node.take.1 {
                found = true;
            } else {
                i = i + 1;
            }
        }
        if found {
            nodes.swap_remove(i);
            proof {
                assert(list_view(nodes@) =~= swap_removed(views, i as int));
            }
        }
        proof {
            lemma_list_view_push(nodes@, node);
        }
        nodes.push(node);
    }

    /// The moves that this program gives the piece on `position`. `danger`
    /// marks the squares that the instruction `danger` finds attacked, and
    /// `checked` is the answer of the instruction `check`. Every chain runs
    /// in turn. The moves start at `position`, stay on the board, and no two
    /// share capture square and landing square. No piece, no moves.
    pub fn run(&self, board: &Board<'a>, position: &Position, danger: u64, checked: bool) -> (r: Vec<
        ChessMove<'a>,
    >)
        requires
            board.wf(),
        ensures
            list_view(r@) == script_moves(self@, board@, *position, danger, checked),
            all_from(list_view(r@), *position),
            distinct_targets(list_view(r@)),
    {
        let mut nodes: Vec<ChessMove<'a>> = Vec::new();
        let (color, kind) = match board.square(position) {
            crate::chessembly::PieceSpan::Piece(p) => (p.color, p.piece_type),
            crate::chessembly::PieceSpan::Empty => {
                proof {
                    assert(list_view(nodes@) =~= Seq::empty());
                }
                return nodes;
            },
        };
        let mover = Mover { origin: *position, color, kind, danger, checked };
        let ghost sc = scene_of(board@, *position, danger, checked);
        proof {
            board.lemma_view_wf();
            assert(mover.scene(board@) == sc);
            assert(on_board(*position));
            assert(list_view(nodes@) =~= run_chains(self@, sc, 0));
            lemma_run_chains_sound(self@, sc, 0);
        }
        let mut k: usize = 0;
        while k < self.chains.len()
            invariant
                board.wf(),
                sc.wf(),
                k <= self.chains@.len(),
                sc == mover.scene(board@),
                sc.origin == mover.origin,
                list_view(nodes@) == run_chains(self@, sc, k as int),
                all_from(list_view(nodes@), sc.origin),
                distinct_targets(list_view(nodes@)),
            decreases self.chains@.len() - k,
        {
            proof {
                assert(self@[k as int] == chain_view(self.chains@[k as int]@));
                lemma_run_chains_sound(self@, sc, k + 1);
            }
            nodes = run_one(&self.chains[k], board, &mover, nodes);
            k = k + 1;
        }
        nodes
    }
}

} // verus!
