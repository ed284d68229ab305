//! The instructions of a move-script, and how one is read from its text.

use vstd::prelude::*;
use crate::chessembly::{Color, DeltaPosition};
use crate::text::{
    chars_of, i8_of, read_i8, read_u8, same_text, split_bounds, split_range, trim_range,
    trimmed_part, u8_of,
};

verus! {

/// What an instruction does. The operands stand in the instruction.
#[derive(Copy, Clone, PartialEq, Eq, Debug, Hash, Structural)]
pub enum Opcode {
    Move,
    Take,
    TakeMove,
    Catch,
    Jump,
    Shift,
    Anchor,
    Peek,
    Observe,
    Piece,
    PieceOn,
    Enemy,
    Friendly,
    Bound,
    Edge,
    Corner,
    EdgeTop,
    EdgeBottom,
    EdgeLeft,
    EdgeRight,
    CornerTopLeft,
    CornerTopRight,
    CornerBottomLeft,
    CornerBottomRight,
    Check,
    Danger,
    SetState,
    IfState,
    Transition,
    BlockOpen,
    BlockClose,
    Not,
    Do,
    While,
    Repeat,
    Label,
    Jmp,
    Jne,
    /// Text that is no instruction; a chain ends where it meets one.
    Unknown,
}

/// The operands that an instruction takes.
#[derive(Copy, Clone, PartialEq, Eq, Debug, Structural)]
pub enum Operands {
    Nothing,
    Delta,
    Name,
    NameDelta,
    NameCount,
    Count,
}

/// One instruction: what it does, and its operands. An operand that the
/// instruction does not take is zero or empty.
#[derive(Copy, Clone, Debug)]
pub struct Behavior<'a> {
    pub op: Opcode,
    pub delta: DeltaPosition,
    pub name: &'a str,
    pub count: u8,
}

/// An instruction as a plain value.
pub struct Instr {
    pub op: Opcode,
    pub delta: DeltaPosition,
    pub name: Seq<char>,
    pub count: u8,
}

/// One chain of a program.
pub type BehaviorChain<'a> = Vec<Behavior<'a>>;

impl<'a> View for Behavior<'a> {
    type V = Instr;

    open spec fn view(&self) -> Instr {
        Instr { op: self.op, delta: self.delta, name: self.name@, count: self.count }
    }
}

/// A chain as plain values.
pub open spec fn chain_view<'a>(s: Seq<Behavior<'a>>) -> Seq<Instr> {
    Seq::new(s.len(), |i: int| s[i]@)
}

/// The step as the given side takes it: White as written, Black with ranks
/// turned round.
pub open spec fn reflected(delta: DeltaPosition, side: Color) -> DeltaPosition {
    match side {
        Color::White => delta,
        Color::Black => (
            delta.0,
            if delta.1 == -128 {
                127i8
            } else {
                (-delta.1) as i8
            },
        ),
    }
}

/// The operands that each instruction takes.
pub open spec fn operands_of(op: Opcode) -> Operands {
    match op {
        Opcode::Move
        | Opcode::Take
        | Opcode::TakeMove
        | Opcode::Catch
        | Opcode::Jump
        | Opcode::Shift
        | Opcode::Anchor
        | Opcode::Peek
        | Opcode::Observe
        | Opcode::Enemy
        | Opcode::Friendly
        | Opcode::Bound
        | Opcode::Edge
        | Opcode::Corner
        | Opcode::EdgeTop
        | Opcode::EdgeBottom
        | Opcode::EdgeLeft
        | Opcode::EdgeRight
        | Opcode::CornerTopLeft
        | Opcode::CornerTopRight
        | Opcode::CornerBottomLeft
        | Opcode::CornerBottomRight
        | Opcode::Danger => Operands::Delta,
        Opcode::Piece | Opcode::Transition | Opcode::Label | Opcode::Jmp | Opcode::Jne => Operands::Name,
        Opcode::PieceOn => Operands::NameDelta,
        Opcode::SetState | Opcode::IfState => Operands::NameCount,
        Opcode::Repeat => Operands::Count,
        Opcode::Check
        | Opcode::BlockOpen
        | Opcode::BlockClose
        | Opcode::Not
        | Opcode::Do
        | Opcode::While
        | Opcode::Unknown => Operands::Nothing,
    }
}

/// The instruction that a name stands for.
pub open spec fn opcode_named(name: Seq<char>) -> Opcode {
    if name == "move"@ {
        Opcode::Move
    } else if name == "take"@ {
        Opcode::Take
    } else if name == "take-move"@ {
        Opcode::TakeMove
    } else if name == "catch"@ {
        Opcode::Catch
    } else if name == "jump"@ {
        Opcode::Jump
    } else if name == "shift"@ {
        Opcode::Shift
    } else if name == "anchor"@ {
        Opcode::Anchor
    } else if name == "peek"@ {
        Opcode::Peek
    } else if name == "observe"@ {
        Opcode::Observe
    } else if name == "piece"@ {
        Opcode::Piece
    } else if name == "piece-on"@ {
        Opcode::PieceOn
    } else if name == "enemy"@ {
        Opcode::Enemy
    } else if name == "friendly"@ {
        Opcode::Friendly
    } else if name == "bound"@ {
        Opcode::Bound
    } else if name == "edge"@ {
        Opcode::Edge
    } else if name == "corner"@ {
        Opcode::Corner
    } else if name == "edge-top"@ {
        Opcode::EdgeTop
    } else if name == "edge-bottom"@ {
        Opcode::EdgeBottom
    } else if name == "edge-left"@ {
        Opcode::EdgeLeft
    } else if name == "edge-right"@ {
        Opcode::EdgeRight
    } else if name == "corner-top-left"@ {
        Opcode::CornerTopLeft
    } else if name == "corner-top-right"@ {
        Opcode::CornerTopRight
    } else if name == "corner-bottom-left"@ {
        Opcode::CornerBottomLeft
    } else if name == "corner-bottom-right"@ {
        Opcode::CornerBottomRight
    } else if name == "check"@ {
        Opcode::Check
    } else if name == "danger"@ {
        Opcode::Danger
    } else if name == "set-state"@ {
        Opcode::SetState
    } else if name == "if-state"@ {
        Opcode::IfState
    } else if name == "transition"@ {
        Opcode::Transition
    } else if name == "{"@ {
        Opcode::BlockOpen
    } else if name == "}"@ {
        Opcode::BlockClose
    } else if name == "not"@ {
        Opcode::Not
    } else if name == "do"@ {
        Opcode::Do
    } else if name == "while"@ {
        Opcode::While
    } else if name == "repeat"@ {
        Opcode::Repeat
    } else if name == "label"@ {
        Opcode::Label
    } else if name == "jmp"@ {
        Opcode::Jmp
    } else if name == "jne"@ {
        Opcode::Jne
    } else {
        Opcode::Unknown
    }
}

fn opcode_of(name: &str) -> (r: Opcode)
    ensures
        r == opcode_named(name@),
{
    if same_text(name, "move") {
        Opcode::Move
    } else if same_text(name, "take") {
        Opcode::Take
    } else if same_text(name, "take-move") {
        Opcode::TakeMove
    } else if same_text(name, "catch") {
        Opcode::Catch
    } else if same_text(name, "jump") {
        Opcode::Jump
    } else if same_text(name, "shift") {
        Opcode::Shift
    } else if same_text(name, "anchor") {
        Opcode::Anchor
    } else if same_text(name, "peek") {
        Opcode::Peek
    } else if same_text(name, "observe") {
        Opcode::Observe
    } else if same_text(name, "piece") {
        Opcode::Piece
    } else if same_text(name, "piece-on") {
        Opcode::PieceOn
    } else if same_text(name, "enemy") {
        Opcode::Enemy
    } else if same_text(name, "friendly") {
        Opcode::Friendly
    } else if same_text(name, "bound") {
        Opcode::Bound
    } else if same_text(name, "edge") {
        Opcode::Edge
    } else if same_text(name, "corner") {
        Opcode::Corner
    } else if same_text(name, "edge-top") {
        Opcode::EdgeTop
    } else if same_text(name, "edge-bottom") {
        Opcode::EdgeBottom
    } else if same_text(name, "edge-left") {
        Opcode::EdgeLeft
    } else if same_text(name, "edge-right") {
        Opcode::EdgeRight
    } else if same_text(name, "corner-top-left") {
        Opcode::CornerTopLeft
    } else if same_text(name, "corner-top-right") {
        Opcode::CornerTopRight
    } else if same_text(name, "corner-bottom-left") {
        Opcode::CornerBottomLeft
    } else if same_text(name, "corner-bottom-right") {
        Opcode::CornerBottomRight
    } else if same_text(name, "check") {
        Opcode::Check
    } else if same_text(name, "danger") {
        Opcode::Danger
    } else if same_text(name, "set-state") {
        Opcode::SetState
    } else if same_text(name, "if-state") {
        Opcode::IfState
    } else if same_text(name, "transition") {
        Opcode::Transition
    } else if same_text(name, "{") {
        Opcode::BlockOpen
    } else if same_text(name, "}") {
        Opcode::BlockClose
    } else if same_text(name, "not") {
        Opcode::Not
    } else if same_text(name, "do") {
        Opcode::Do
    } else if same_text(name, "while") {
        Opcode::While
    } else if same_text(name, "repeat") {
        Opcode::Repeat
    } else if same_text(name, "label") {
        Opcode::Label
    } else if same_text(name, "jmp") {
        Opcode::Jmp
    } else if same_text(name, "jne") {
        Opcode::Jne
    } else {
        Opcode::Unknown
    }
}

fn operand_shape(op: Opcode) -> (r: Operands)
    ensures
        r == operands_of(op),
{
    match op {
        Opcode::Move
        | Opcode::Take
        | Opcode::TakeMove
        | Opcode::Catch
        | Opcode::Jump
        | Opcode::Shift
        | Opcode::Anchor
        | Opcode::Peek
        | Opcode::Observe
        | Opcode::Enemy
        | Opcode::Friendly
        | Opcode::Bound
        | Opcode::Edge
        | Opcode::Corner
        | Opcode::EdgeTop
        | Opcode::EdgeBottom
        | Opcode::EdgeLeft
        | Opcode::EdgeRight
        | Opcode::CornerTopLeft
        | Opcode::CornerTopRight
        | Opcode::CornerBottomLeft
        | Opcode::CornerBottomRight
        | Opcode::Danger => Operands::Delta,
        Opcode::Piece | Opcode::Transition | Opcode::Label | Opcode::Jmp | Opcode::Jne => Operands::Name,
        Opcode::PieceOn => Operands::NameDelta,
        Opcode::SetState | Opcode::IfState => Operands::NameCount,
        Opcode::Repeat => Operands::Count,
        Opcode::Check
        | Opcode::BlockOpen
        | Opcode::BlockClose
        | Opcode::Not
        | Opcode::Do
        | Opcode::While
        | Opcode::Unknown => Operands::Nothing,
    }
}

/// The first index at or after `i` that holds `(`, or the length.
pub open spec fn paren_at(s: Seq<char>, i: int) -> int
    decreases s.len() - i,
{
    if i >= s.len() || i < 0 {
        s.len() as int
    } else if s[i] == '(' {
        i
    } else {
        paren_at(s, i + 1)
    }
}

/// Where the operand list of a token ends: before a closing `)` at its end.
pub open spec fn operands_end(s: Seq<char>) -> int {
    if s.len() > 0 && s.last() == ')' {
        s.len() - 1
    } else {
        s.len() as int
    }
}

/// The bounds of the operands of a token, none where it has no `(`.
pub open spec fn operand_bounds(s: Seq<char>) -> Seq<(int, int)> {
    let k = paren_at(s, 0);
    if k >= s.len() {
        Seq::empty()
    } else {
        split_bounds(s, ',', k + 1, operands_end(s))
    }
}

/// The text of operand `i`, without the whitespace around it.
pub open spec fn operand_text(s: Seq<char>, i: int) -> Seq<char> {
    trimmed_part(s, operand_bounds(s)[i].0, operand_bounds(s)[i].1)
}

/// The instruction that stands for text that is none.
pub open spec fn unknown_instr() -> Instr {
    Instr { op: Opcode::Unknown, delta: (0, 0), name: Seq::empty(), count: 0 }
}

/// The instruction that a token writes: the name before `(`, then the
/// operands between the brackets, cut at commas. A token whose name is no
/// instruction, or whose operands do not fit the instruction, is `Unknown`.
pub open spec fn parse_instr(s: Seq<char>) -> Instr {
    let op = opcode_named(trimmed_part(s, 0, paren_at(s, 0)));
    let n = operand_bounds(s).len();
    match operands_of(op) {
        Operands::Nothing => Instr { op, delta: (0, 0), name: Seq::empty(), count: 0 },
        Operands::Delta => {
            if n == 2 && i8_of(operand_text(s, 0)) is Some && i8_of(operand_text(s, 1)) is Some {
                Instr {
                    op,
                    delta: (i8_of(operand_text(s, 0))->0, i8_of(operand_text(s, 1))->0),
                    name: Seq::empty(),
                    count: 0,
                }
            } else {
                unknown_instr()
            }
        },
        Operands::Name => {
            if n == 1 {
                Instr { op, delta: (0, 0), name: operand_text(s, 0), count: 0 }
            } else {
                unknown_instr()
            }
        },
        Operands::NameDelta => {
            if n == 3 && i8_of(operand_text(s, 1)) is Some && i8_of(operand_text(s, 2)) is Some {
                Instr {
                    op,
                    delta: (i8_of(operand_text(s, 1))->0, i8_of(operand_text(s, 2))->0),
                    name: operand_text(s, 0),
                    count: 0,
                }
            } else {
                unknown_instr()
            }
        },
        Operands::NameCount => {
            if n == 2 && u8_of(operand_text(s, 1)) is Some {
                Instr {
                    op,
                    delta: (0, 0),
                    name: operand_text(s, 0),
                    count: u8_of(operand_text(s, 1))->0,
                }
            } else {
                unknown_instr()
            }
        },
        Operands::Count => {
            if n == 1 && u8_of(operand_text(s, 0)) is Some {
                Instr { op, delta: (0, 0), name: Seq::empty(), count: u8_of(operand_text(s, 0))->0 }
            } else {
                unknown_instr()
            }
        },
    }
}

impl<'a> Behavior<'a> {
    /// An instruction without operands.
    pub fn plain(op: Opcode) -> (r: Behavior<'a>)
        ensures
            r@ == (Instr { op, delta: (0, 0), name: Seq::empty(), count: 0 }),
    {
        proof {
            reveal_strlit("");
            assert(""@ =~= Seq::<char>::empty());
        }
        Behavior { op, delta: (0, 0), name: "", count: 0 }
    }

    /// An instruction that takes a step.
    pub fn with_delta(op: Opcode, delta: DeltaPosition) -> (r: Behavior<'a>)
        ensures
            r@ == (Instr { op, delta, name: Seq::empty(), count: 0 }),
    {
        proof {
            reveal_strlit("");
            assert(""@ =~= Seq::<char>::empty());
        }
        Behavior { op, delta, name: "", count: 0 }
    }

    /// An instruction that takes a name.
    pub fn with_name(op: Opcode, name: &'a str) -> (r: Behavior<'a>)
        ensures
            r@ == (Instr { op, delta: (0, 0), name: name@, count: 0 }),
    {
        Behavior { op, delta: (0, 0), name, count: 0 }
    }

    /// An instruction that takes a register's name and a value.
    pub fn with_state(op: Opcode, name: &'a str, count: u8) -> (r: Behavior<'a>)
        ensures
            r@ == (Instr { op, delta: (0, 0), name: name@, count }),
    {
        Behavior { op, delta: (0, 0), name, count }
    }

    /// An instruction that takes a count.
    pub fn with_count(op: Opcode, count: u8) -> (r: Behavior<'a>)
        ensures
            r@ == (Instr { op, delta: (0, 0), name: Seq::empty(), count }),
    {
        proof {
            reveal_strlit("");
            assert(""@ =~= Seq::<char>::empty());
        }
        Behavior { op, delta: (0, 0), name: "", count }
    }

    /// The instruction as the given side runs it.
    pub fn reflect_turn(&self, side: Color) -> (r: Behavior<'a>)
        ensures
            r@ == (Instr { delta: reflected(self@.delta, side), ..self@ }),
    {
        match side {
            Color::White => *self,
            Color::Black => {
                let dy: i8 = if self.delta.1 == -128 {
                    127
                } else {
                    -self.delta.1
                };
                Behavior { op: self.op, delta: (self.delta.0, dy), name: self.name, count: self.count }
            },
        }
    }

    /// Reads one token of a script.
    pub fn from_str(token: &'a str) -> (r: Behavior<'a>)
        ensures
            r@ == parse_instr(token@),
    {
        let chars = chars_of(token);
        let n = chars.len();
        let mut k: usize = 0;
        while k < n && chars[k] != '('
            invariant
                k <= n == chars@.len(),
                paren_at(chars@, k as int) == paren_at(chars@, 0),
            decreases n - k,
        {
            k = k + 1;
        }
        let (na, nb) = trim_range(&chars, 0, k);
        let op = opcode_of(token.substring_char(na, nb));
        let shape = operand_shape(op);
        let unknown = Behavior::plain(Opcode::Unknown);
        if let Operands::Nothing = shape {
            return Behavior::plain(op);
        }
        if k >= n {
            return unknown;
        }
        let end = if chars[n - 1] == ')' {
            n - 1
        } else {
            n
        };
        let parts = split_range(&chars, ',', k + 1, end);
        let count = parts.len();
        let mut bounds: Vec<(usize, usize)> = Vec::new();
        let mut i: usize = 0;
        while i < count
            invariant
                i <= count == parts@.len(),
                bounds@.len() == i,
                chars@ == token@,
                parts@.len() == operand_bounds(chars@).len(),
                forall|j: int|
                    0 <= j < parts@.len() ==> (#[trigger] parts@[j].0 as int, parts@[j].1 as int)
                        == operand_bounds(chars@)[j],
                forall|j: int|
                    0 <= j < parts@.len() ==> (#[trigger] parts@[j]).0 <= parts@[j].1 <= chars@.len(),
                forall|j: int|
                    0 <= j < i ==> (#[trigger] bounds@[j]).0 <= bounds@[j].1 <= chars@.len()
                        && chars@.subrange(bounds@[j].0 as int, bounds@[j].1 as int)
                        == operand_text(chars@, j),
            decreases count - i,
        {
            let p = parts[i];
            let ghost pb = (parts@[i as int].0 as int, parts@[i as int].1 as int);
            assert(pb == operand_bounds(chars@)[i as int]);
            let t = trim_range(&chars, p.0, p.1);
            bounds.push(t);
            i = i + 1;
        }
        match shape {
            Operands::Nothing => Behavior::plain(op),
            Operands::Delta => {
                if count != 2 {
                    return unknown;
                }
                let dx = read_i8(&chars, bounds[0].0, bounds[0].1);
                let dy = read_i8(&chars, bounds[1].0, bounds[1].1);
                match (dx, dy) {
                    (Some(x), Some(y)) => Behavior::with_delta(op, (x, y)),
                    _ => unknown,
                }
            },
            Operands::Name => {
                if count != 1 {
                    return unknown;
                }
                Behavior::with_name(op, token.substring_char(bounds[0].0, bounds[0].1))
            },
            Operands::NameDelta => {
                if count != 3 {
                    return unknown;
                }
                let dx = read_i8(&chars, bounds[1].0, bounds[1].1);
                let dy = read_i8(&chars, bounds[2].0, bounds[2].1);
                match (dx, dy) {
                    (Some(x), Some(y)) => Behavior {
                        op,
                        delta: (x, y),
                        name: token.substring_char(bounds[0].0, bounds[0].1),
                        count: 0,
                    },
                    _ => unknown,
                }
            },
            Operands::NameCount => {
                if count != 2 {
                    return unknown;
                }
                match read_u8(&chars, bounds[1].0, bounds[1].1) {
                    Some(v) => Behavior::with_state(
                        op,
                        token.substring_char(bounds[0].0, bounds[0].1),
                        v,
                    ),
                    None => unknown,
                }
            },
            Operands::Count => {
                if count != 1 {
                    return unknown;
                }
                match read_u8(&chars, bounds[0].0, bounds[0].1) {
                    Some(v) => Behavior::with_count(op, v),
                    None => unknown,
                }
            },
        }
    }
}

} // verus!
