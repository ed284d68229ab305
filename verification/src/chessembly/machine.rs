//! What a chain of instructions means: the state of a run, and the step that
//! one instruction takes from state to state.

use vstd::prelude::*;
use crate::chessembly::behavior::{Instr, Opcode, reflected};
use crate::chessembly::board::{BoardView, register_value};
use crate::chessembly::geometry::{step_lands, stepped, wall_class, WallCollision, zero_vector};
use crate::chessembly::{
    Color, DeltaPosition, MoveType, MoveView, on_board, Position, Square, square_at,
};

verus! {

/// The number of instructions that one chain may run.
pub const LOOP_CAP: usize = 1000;

/// What a chain runs on: the board, the piece that moves, the squares that
/// the other side attacks, one bit for each, and whether the mover's side
/// is in check.
pub struct Scene {
    pub board: BoardView,
    pub origin: Position,
    pub color: Color,
    pub kind: Seq<char>,
    /// What `danger` sees.
    pub danger: u64,
    /// What `check` says.
    pub checked: bool,
}

/// The state of a run.
pub struct Run {
    /// The instruction to run next.
    pub ip: int,
    /// One frame for each open block, the chain's own first: the anchor, and
    /// where the block ends.
    pub frames: Seq<(Position, int)>,
    /// For each frame, the square of its latest capture.
    pub takes: Seq<Option<Position>>,
    /// The state flags, the current one last.
    pub flags: Seq<bool>,
    /// The kind that the moves emitted from now on turn the piece into.
    pub transition: Option<Seq<char>>,
    /// The register updates that the moves emitted from now on carry.
    pub changes: Option<Seq<(Seq<char>, u8)>>,
    /// The moves emitted so far.
    pub nodes: Seq<MoveView>,
    /// Whether the chain has ended before its last instruction.
    pub halted: bool,
}

/// Whether bit `8 * rank + file` of the mask is set; no bit stands for a
/// square off the board.
pub open spec fn danger_bit(mask: u64, p: Position) -> bool {
    on_board(p) && mask & (1u64 << ((8 * p.1 + p.0) as u64)) != 0
}

/// Whether a king of `color` stands on a square that the mask marks.
pub open spec fn king_attacked(board: BoardView, color: Color, mask: u64) -> bool {
    exists|i: int|
        0 <= i < 64 && #[trigger] board.at(square_at(i)) == (Square::Occupied {
            kind: "king"@,
            color,
        }) && danger_bit(mask, square_at(i))
}

/// The first index from `i` on of a move with the capture and landing
/// squares of `m`, or the length.
pub open spec fn first_same_target(nodes: Seq<MoveView>, m: MoveView, i: int) -> int
    decreases nodes.len() - i,
{
    if i >= nodes.len() || i < 0 {
        nodes.len() as int
    } else if nodes[i].same_target(m) {
        i
    } else {
        first_same_target(nodes, m, i + 1)
    }
}

/// The first index from `i` on of a `Take` that captures on `t`, or the
/// length.
pub open spec fn first_take_on(nodes: Seq<MoveView>, t: Position, i: int) -> int
    decreases nodes.len() - i,
{
    if i >= nodes.len() || i < 0 {
        nodes.len() as int
    } else if nodes[i].move_type == MoveType::Take && nodes[i].take == t {
        i
    } else {
        first_take_on(nodes, t, i + 1)
    }
}

/// The list without entry `i`, the last entry in its place.
pub open spec fn swap_removed(nodes: Seq<MoveView>, i: int) -> Seq<MoveView> {
    nodes.update(i, nodes.last()).drop_last()
}

/// The list with `m` at its end, and without the first earlier move that
/// has the same capture and landing squares.
pub open spec fn push_node(nodes: Seq<MoveView>, m: MoveView) -> Seq<MoveView> {
    let i = first_same_target(nodes, m, 0);
    if i < nodes.len() {
        swap_removed(nodes, i).push(m)
    } else {
        nodes.push(m)
    }
}

/// The list without its first `Take` on `t`.
pub open spec fn without_take(nodes: Seq<MoveView>, t: Position) -> Seq<MoveView> {
    let i = first_take_on(nodes, t, 0);
    if i < nodes.len() {
        swap_removed(nodes, i)
    } else {
        nodes
    }
}

/// Where the block that opens at or after `i` closes, `depth` blocks being
/// open already: the index of its `}`, or the length of the chain.
pub open spec fn scan_close(chain: Seq<Instr>, i: int, depth: int) -> int
    decreases chain.len() - i,
{
    if i >= chain.len() || i < 0 {
        chain.len() as int
    } else if chain[i].op == Opcode::BlockOpen {
        scan_close(chain, i + 1, depth + 1)
    } else if chain[i].op == Opcode::BlockClose {
        if depth - 1 == 0 {
            i
        } else {
            scan_close(chain, i + 1, depth - 1)
        }
    } else {
        scan_close(chain, i + 1, depth)
    }
}

/// Where the loop that ends at or before `i` begins, `depth` loops being
/// open already: the index of its `do`, or 0.
pub open spec fn scan_do(chain: Seq<Instr>, i: int, depth: int) -> int
    decreases i,
{
    if i >= chain.len() || i < 0 {
        0
    } else {
        let d = if chain[i].op == Opcode::While {
            depth + 1
        } else if chain[i].op == Opcode::Do {
            depth - 1
        } else {
            depth
        };
        if chain[i].op == Opcode::Do && d == 0 {
            i
        } else if i == 0 {
            0
        } else {
            scan_do(chain, i - 1, d)
        }
    }
}

/// The first index from `i` on of the label `name`, or the length.
pub open spec fn label_index(chain: Seq<Instr>, name: Seq<char>, i: int) -> int
    decreases chain.len() - i,
{
    if i >= chain.len() || i < 0 {
        chain.len() as int
    } else if chain[i].op == Opcode::Label && chain[i].name == name {
        i
    } else {
        label_index(chain, name, i + 1)
    }
}

/// The instructions that run whatever the state flag says.
pub open spec fn is_control(op: Opcode) -> bool {
    op == Opcode::While || op == Opcode::Jmp || op == Opcode::Jne || op == Opcode::Label || op
        == Opcode::Not
}

/// The instructions that ask which wall a step runs into.
pub open spec fn is_wall_test(op: Opcode) -> bool {
    match op {
        Opcode::Bound
        | Opcode::Edge
        | Opcode::Corner
        | Opcode::EdgeTop
        | Opcode::EdgeBottom
        | Opcode::EdgeLeft
        | Opcode::EdgeRight
        | Opcode::CornerTopLeft
        | Opcode::CornerTopRight
        | Opcode::CornerBottomLeft
        | Opcode::CornerBottomRight => true,
        _ => false,
    }
}

/// What a wall test says of the wall that the step runs into.
pub open spec fn wall_test(op: Opcode, wall: WallCollision) -> bool {
    match op {
        Opcode::Bound => wall != WallCollision::NoCollision,
        Opcode::Edge => wall == WallCollision::EdgeTop || wall == WallCollision::EdgeBottom || wall
            == WallCollision::EdgeLeft || wall == WallCollision::EdgeRight,
        Opcode::Corner => wall == WallCollision::CornerTopLeft || wall
            == WallCollision::CornerTopRight || wall == WallCollision::CornerBottomLeft || wall
            == WallCollision::CornerBottomRight,
        Opcode::EdgeTop => wall == WallCollision::EdgeTop,
        Opcode::EdgeBottom => wall == WallCollision::EdgeBottom,
        Opcode::EdgeLeft => wall == WallCollision::EdgeLeft,
        Opcode::EdgeRight => wall == WallCollision::EdgeRight,
        Opcode::CornerTopLeft => wall == WallCollision::CornerTopLeft,
        Opcode::CornerTopRight => wall == WallCollision::CornerTopRight,
        Opcode::CornerBottomLeft => wall == WallCollision::CornerBottomLeft,
        Opcode::CornerBottomRight => wall == WallCollision::CornerBottomRight,
        _ => false,
    }
}

impl Scene {
    /// Whether a piece of the mover's side stands on `p`.
    pub open spec fn friendly(self, p: Position) -> bool {
        self.board.color_at(p) == Some(self.color)
    }

    /// Whether a piece of the other side stands on `p`.
    pub open spec fn enemy(self, p: Position) -> bool {
        self.board.color_at(p) == Some(self.color.inverted())
    }

    /// Whether no piece stands on `p`.
    pub open spec fn empty(self, p: Position) -> bool {
        self.board.color_at(p) is None
    }

    /// The board has its squares, and the piece stands on it.
    pub open spec fn wf(self) -> bool {
        self.board.wf() && on_board(self.origin)
    }
}

impl Run {
    /// The state in which a chain begins.
    pub open spec fn begin(chain: Seq<Instr>, origin: Position, nodes: Seq<MoveView>) -> Run {
        Run {
            ip: 0,
            frames: seq![(origin, chain.len() as int)],
            takes: seq![None],
            flags: seq![true],
            transition: None,
            changes: None,
            nodes,
            halted: false,
        }
    }

    /// The current state flag.
    pub open spec fn flag(self) -> bool {
        self.flags.last()
    }

    /// The cursor of the current frame.
    pub open spec fn anchor(self) -> Position {
        self.frames.last().0
    }

    /// The state with the current flag set to `b`.
    pub open spec fn with_flag(self, b: bool) -> Run {
        Run { flags: self.flags.update(self.flags.len() - 1, b), ..self }
    }

    /// The state with the cursor on `a`.
    pub open spec fn with_anchor(self, a: Position) -> Run {
        Run {
            frames: self.frames.update(self.frames.len() - 1, (a, self.frames.last().1)),
            ..self
        }
    }

    /// The state at the next instruction.
    pub open spec fn advance(self) -> Run {
        Run { ip: self.ip + 1, ..self }
    }

    /// The flag goes down and the run goes on.
    pub open spec fn fail(self) -> Run {
        self.with_flag(false).advance()
    }

    /// The state of a chain that has ended.
    pub open spec fn halt(self) -> Run {
        Run { halted: true, ..self }
    }

    /// The move that the run emits now.
    pub open spec fn node(self, sc: Scene, take: Position, move_to: Position, ty: MoveType)
        -> MoveView {
        MoveView {
            from: sc.origin,
            take,
            move_to,
            move_type: ty,
            state_change: self.changes,
            transition: self.transition,
        }
    }

    /// The state with one move more.
    pub open spec fn emit(self, sc: Scene, take: Position, move_to: Position, ty: MoveType) -> Run {
        Run { nodes: push_node(self.nodes, self.node(sc, take, move_to, ty)), ..self }
    }

    /// Whether the run can take a step: it has not ended, and it has a
    /// frame, a flag and a capture slot to work on.
    pub open spec fn live(self, chain: Seq<Instr>) -> bool {
        &&& !self.halted
        &&& 0 <= self.ip < chain.len()
        &&& self.frames.len() >= 1
        &&& self.flags.len() >= 1
        &&& self.takes.len() >= 1
    }

    /// What holds of every state of a run: the stacks are not empty, every
    /// square in them is on the board, and the moves start at the origin,
    /// stay on the board and differ in their targets.
    pub open spec fn sound(self, sc: Scene) -> bool {
        &&& self.ip >= 0
        &&& self.frames.len() >= 1
        &&& self.flags.len() >= 1
        &&& self.takes.len() >= 1
        &&& forall|i: int| 0 <= i < self.frames.len() ==> on_board(#[trigger] self.frames[i].0)
        &&& forall|i: int|
            0 <= i < self.takes.len() ==> ((#[trigger] self.takes[i]) matches Some(t) ==> on_board(t))
        &&& crate::chessembly::all_from(self.nodes, sc.origin)
        &&& crate::chessembly::distinct_targets(self.nodes)
    }
}

/// The instructions that step the anchor and look at the square they reach.
pub open spec fn is_probe(op: Opcode) -> bool {
    match op {
        Opcode::Move
        | Opcode::Take
        | Opcode::TakeMove
        | Opcode::Catch
        | Opcode::Shift
        | Opcode::Anchor
        | Opcode::Peek
        | Opcode::Observe
        | Opcode::Enemy
        | Opcode::Friendly
        | Opcode::PieceOn
        | Opcode::Danger => true,
        _ => false,
    }
}

/// One of the instructions that step the anchor by `d` and look at the
/// square they reach.
pub open spec fn step_probe(sc: Scene, st: Run, op: Opcode, d: DeltaPosition, name: Seq<char>)
    -> Run {
    let b = stepped(st.anchor(), d);
    let refuses_zero = op == Opcode::Move || op == Opcode::Take || op == Opcode::TakeMove || op
        == Opcode::Catch;
    if refuses_zero && zero_vector(d) {
        st.fail()
    } else if !step_lands(st.anchor(), d) {
        st.fail()
    } else {
        match op {
            Opcode::TakeMove => {
                if sc.friendly(b) {
                    st.fail()
                } else if sc.enemy(b) {
                    st.with_anchor(b).emit(sc, b, b, MoveType::TakeMove).fail()
                } else {
                    st.with_anchor(b).emit(sc, b, b, MoveType::TakeMove).advance()
                }
            },
            Opcode::Take => {
                if sc.friendly(b) {
                    st.fail()
                } else if sc.enemy(b) {
                    let s = st.with_anchor(b).emit(sc, b, b, MoveType::Take);
                    Run { takes: s.takes.update(s.takes.len() - 1, Some(b)), ..s }.advance()
                } else {
                    st.with_anchor(b).advance()
                }
            },
            Opcode::Catch => {
                if sc.friendly(b) {
                    st.fail()
                } else if sc.enemy(b) {
                    st.with_anchor(b).emit(sc, b, sc.origin, MoveType::Catch).advance()
                } else {
                    st.with_anchor(b).advance()
                }
            },
            Opcode::Move => {
                if sc.empty(b) {
                    st.with_anchor(b).emit(sc, b, b, MoveType::Move).advance()
                } else {
                    st.fail()
                }
            },
            Opcode::Shift => {
                if sc.empty(b) {
                    st.with_anchor(b).advance()
                } else {
                    st.with_anchor(b).emit(sc, sc.origin, b, MoveType::Shift).advance()
                }
            },
            Opcode::Anchor => st.with_anchor(b).advance(),
            Opcode::Peek => {
                if sc.empty(b) {
                    st.with_anchor(b).advance()
                } else {
                    st.fail()
                }
            },
            Opcode::Observe => {
                if sc.empty(b) {
                    st.advance()
                } else {
                    st.fail()
                }
            },
            Opcode::Enemy => st.with_flag(sc.enemy(b)).advance(),
            Opcode::Friendly => st.with_flag(sc.friendly(b)).advance(),
            Opcode::PieceOn => st.with_flag(sc.board.at(b).is_kind(name)).advance(),
            Opcode::Danger => st.with_flag(danger_bit(sc.danger, b)).advance(),
            _ => st.halt(),
        }
    }
}

/// `jump`: the latest capture of the frame is withdrawn, and where the step
/// by `d` reaches an empty square the piece captures there and lands here.
pub open spec fn step_jump(sc: Scene, st: Run, d: DeltaPosition) -> Run {
    match st.takes.last() {
        Some(t) => {
            let s = Run { nodes: without_take(st.nodes, t), ..st };
            if zero_vector(d) || !step_lands(st.anchor(), d) {
                s.fail()
            } else {
                let b = stepped(st.anchor(), d);
                if sc.empty(b) {
                    s.with_anchor(b).emit(sc, t, b, MoveType::TakeJump).advance()
                } else {
                    s.with_anchor(b).fail()
                }
            }
        },
        None => st.fail(),
    }
}

/// The instructions that read or write what the moves carry, or ask about
/// the piece itself.
pub open spec fn step_state(sc: Scene, st: Run, ins: Instr) -> Run {
    match ins.op {
        Opcode::Piece => st.with_flag(sc.kind == ins.name).advance(),
        Opcode::Check => st.with_flag(sc.checked).advance(),
        Opcode::IfState => st.with_flag(
            register_value(sc.board.side(sc.color).register, ins.name) == ins.count,
        ).advance(),
        Opcode::SetState => Run {
            changes: Some(
                match st.changes {
                    Some(c) => c.push((ins.name, ins.count)),
                    None => seq![(ins.name, ins.count)],
                },
            ),
            ..st
        }.advance(),
        Opcode::Transition => Run {
            transition: if ins.name.len() == 0 {
                None
            } else {
                Some(ins.name)
            },
            ..st
        }.advance(),
        _ => st.halt(),
    }
}

/// The instructions that move the instruction pointer or the stacks.
pub open spec fn step_flow(chain: Seq<Instr>, st: Run, ins: Instr) -> Run {
    match ins.op {
        Opcode::BlockOpen => Run {
            frames: st.frames.push((st.anchor(), scan_close(chain, st.ip, 0))),
            takes: st.takes.push(st.takes.last()),
            flags: st.flags.push(true),
            ..st
        }.advance(),
        Opcode::BlockClose => {
            if st.frames.len() > 1 && st.flags.len() > 1 {
                Run {
                    frames: st.frames.drop_last(),
                    flags: st.flags.drop_last(),
                    takes: if st.takes.len() > 1 {
                        st.takes.drop_last()
                    } else {
                        st.takes
                    },
                    ..st
                }.advance()
            } else {
                st.halt()
            }
        },
        Opcode::Repeat => {
            if ins.count == 0 || ins.count > st.ip {
                st.halt()
            } else {
                Run { ip: st.ip - ins.count, ..st }
            }
        },
        Opcode::Not => st.with_flag(!st.flag()).advance(),
        Opcode::Do => {
            if st.ip + 1 >= chain.len() {
                st.halt()
            } else if chain[st.ip + 1].op == Opcode::While {
                Run { ip: st.ip + 2, ..st }
            } else {
                Run { flags: st.flags.push(true), ..st }.advance()
            }
        },
        Opcode::While => {
            if st.flag() {
                Run { ip: scan_do(chain, st.ip, 0), ..st }
            } else if st.flags.len() <= 1 {
                Run { flags: st.flags.drop_last(), ..st }.halt()
            } else {
                Run { flags: st.flags.drop_last(), ..st }.advance()
            }
        },
        Opcode::Label => st.advance(),
        Opcode::Jmp => {
            if st.flag() {
                let target = label_index(chain, ins.name, 0);
                if target < chain.len() {
                    Run { ip: target, ..st }
                } else {
                    st.halt()
                }
            } else {
                st.with_flag(true).advance()
            }
        },
        Opcode::Jne => {
            if !st.flag() {
                let target = label_index(chain, ins.name, 0);
                if target < chain.len() {
                    Run { ip: target, ..st }.with_flag(true)
                } else {
                    st.halt()
                }
            } else {
                st.advance()
            }
        },
        _ => st.halt(),
    }
}

/// What the instruction at the instruction pointer does.
pub open spec fn execute(chain: Seq<Instr>, sc: Scene, st: Run) -> Run {
    let ins = chain[st.ip];
    let d = reflected(ins.delta, sc.color);
    if is_probe(ins.op) {
        step_probe(sc, st, ins.op, d, ins.name)
    } else if ins.op == Opcode::Jump {
        step_jump(sc, st, d)
    } else if is_wall_test(ins.op) {
        st.with_flag(wall_test(ins.op, wall_class(st.anchor(), d, sc.color))).advance()
    } else {
        match ins.op {
            Opcode::Piece
            | Opcode::Check
            | Opcode::IfState
            | Opcode::SetState
            | Opcode::Transition => step_state(sc, st, ins),
            _ => step_flow(chain, st, ins),
        }
    }
}

/// One step of a live run. Under a lowered flag an instruction that is no
/// control instruction does not run: the run goes to the end of the current
/// block and runs what stands there, or ends where no block is open.
pub open spec fn step(chain: Seq<Instr>, sc: Scene, st: Run) -> Run {
    if !st.flag() && !is_control(chain[st.ip].op) {
        if st.frames.len() > 1 && 0 <= st.frames.last().1 < chain.len() {
            execute(chain, sc, Run { ip: st.frames.last().1, ..st })
        } else {
            st.halt()
        }
    } else {
        execute(chain, sc, st)
    }
}

/// The moves after at most `fuel` more steps.
pub open spec fn run(chain: Seq<Instr>, sc: Scene, st: Run, fuel: nat) -> Seq<MoveView>
    decreases fuel,
{
    if fuel == 0 || !st.live(chain) {
        st.nodes
    } else {
        run(chain, sc, step(chain, sc, st), (fuel - 1) as nat)
    }
}

/// The moves after one chain has run on the moves of the chains before it.
pub open spec fn run_chain(chain: Seq<Instr>, sc: Scene, nodes: Seq<MoveView>) -> Seq<MoveView> {
    run(chain, sc, Run::begin(chain, sc.origin, nodes), LOOP_CAP as nat)
}

/// The moves after the first `n` chains of a program have run.
pub open spec fn run_chains(program: Seq<Seq<Instr>>, sc: Scene, n: int) -> Seq<MoveView>
    decreases n,
{
    if n <= 0 {
        Seq::empty()
    } else {
        run_chain(program[n - 1], sc, run_chains(program, sc, n - 1))
    }
}

/// The scene of the piece on `p`.
pub open spec fn scene_of(board: BoardView, p: Position, danger: u64, checked: bool) -> Scene {
    Scene {
        board,
        origin: p,
        color: board.color_at(p).unwrap(),
        kind: board.kind_at(p).unwrap(),
        danger,
        checked,
    }
}

/// The moves that a program gives the piece on `p`: every chain runs in
/// turn, each on the moves of those before it. `danger` marks the squares
/// that the instruction `danger` finds attacked, and `checked` is the
/// answer of the instruction `check`. No piece, no moves.
pub open spec fn script_moves(
    program: Seq<Seq<Instr>>,
    board: BoardView,
    p: Position,
    danger: u64,
    checked: bool,
) -> Seq<MoveView> {
    if board.at(p) is Occupied {
        run_chains(program, scene_of(board, p, danger, checked), program.len() as int)
    } else {
        Seq::empty()
    }
}

} // verus!
