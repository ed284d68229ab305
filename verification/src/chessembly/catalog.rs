//! What the moves of the built-in kinds of piece are.

use vstd::prelude::*;
use crate::chessembly::behavior::{Instr, Opcode};
use crate::chessembly::board::BoardView;
use crate::chessembly::geometry::{step_lands, stepped, zero_vector};
use crate::chessembly::machine::{danger_bit, script_moves};
use crate::chessembly::script::compile;
use crate::chessembly::{
    Color, DeltaPosition, MoveType, MoveView, on_board, Position, Square, square_at,
};

verus! {

/// A move without register updates that captures where it lands.
pub open spec fn plain_move(from: Position, to: Position, ty: MoveType) -> MoveView {
    MoveView { from, take: to, move_to: to, move_type: ty, state_change: None, transition: None }
}

/// A move that turns the piece into another kind where it lands.
pub open spec fn turning_move(from: Position, to: Position, ty: MoveType, kind: Seq<char>)
    -> MoveView {
    MoveView {
        from,
        take: to,
        move_to: to,
        move_type: ty,
        state_change: None,
        transition: Some(kind),
    }
}

/// The step the other way. The longest step has no opposite and keeps
/// leaving the board.
pub open spec fn opposite(v: i8) -> i8 {
    if v == -128 {
        127
    } else {
        (-v) as i8
    }
}

/// Whether the piece on `p` may land by the step `d`: the step stays on the
/// board and does not reach a piece of its own side.
pub open spec fn can_leap(b: BoardView, p: Position, d: DeltaPosition) -> bool {
    b.color_at(p) is Some && step_lands(p, d) && b.color_at(stepped(p, d)) != b.color_at(p)
}

/// The one step of a leaper: to an empty square or onto a piece of the other
/// side.
pub open spec fn leap(b: BoardView, p: Position, d: DeltaPosition) -> Seq<MoveView> {
    if can_leap(b, p, d) {
        seq![plain_move(p, stepped(p, d), MoveType::TakeMove)]
    } else {
        Seq::empty()
    }
}

/// Whether a slide goes on behind the step: it has reached an empty square.
pub open spec fn leap_goes_on(b: BoardView, p: Position, d: DeltaPosition) -> bool {
    can_leap(b, p, d) && b.color_at(stepped(p, d)) is None
}

/// The steps of a leaper, the first `n` of `ds` in order.
pub open spec fn leaps(b: BoardView, p: Position, ds: Seq<DeltaPosition>, n: int) -> Seq<MoveView>
    decreases n,
{
    if n <= 0 {
        Seq::empty()
    } else {
        leaps(b, p, ds, n - 1) + leap(b, p, ds[n - 1])
    }
}

/// The squares of a slide of the piece on `p` that goes on from `cur` by
/// `d`: every empty square, and the first piece of the other side. A slide
/// has eight steps at most.
pub open spec fn slide(b: BoardView, p: Position, cur: Position, d: DeltaPosition, fuel: nat)
    -> Seq<MoveView>
    decreases fuel,
{
    if fuel == 0 || b.color_at(p) is None || !step_lands(cur, d) {
        Seq::empty()
    } else {
        let next = stepped(cur, d);
        if b.color_at(next) == b.color_at(p) {
            Seq::empty()
        } else if b.color_at(next) is None {
            seq![plain_move(p, next, MoveType::TakeMove)] + slide(b, p, next, d, (fuel - 1) as nat)
        } else {
            seq![plain_move(p, next, MoveType::TakeMove)]
        }
    }
}

/// The slides of a rider, the first `n` of `ds` in order.
pub open spec fn slides(b: BoardView, p: Position, ds: Seq<DeltaPosition>, n: int) -> Seq<MoveView>
    decreases n,
{
    if n <= 0 {
        Seq::empty()
    } else {
        slides(b, p, ds, n - 1) + slide(b, p, p, ds[n - 1], 8)
    }
}

/// The four steps along ranks and files.
pub open spec fn rook_steps() -> Seq<DeltaPosition> {
    seq![(1i8, 0i8), (-1i8, 0i8), (0i8, 1i8), (0i8, -1i8)]
}

/// The four diagonal steps.
pub open spec fn bishop_steps() -> Seq<DeltaPosition> {
    seq![(1i8, 1i8), (1i8, -1i8), (-1i8, 1i8), (-1i8, -1i8)]
}

/// The eight steps of a queen: a rook's, then a bishop's.
pub open spec fn queen_steps() -> Seq<DeltaPosition> {
    rook_steps() + bishop_steps()
}

/// The eight steps of a leaper that goes `i` one way and `j` the other.
pub open spec fn ij_steps(i: i8, j: i8) -> Seq<DeltaPosition> {
    seq![
        (i, j),
        (opposite(i), j),
        (i, opposite(j)),
        (opposite(i), opposite(j)),
        (j, i),
        (opposite(j), i),
        (j, opposite(i)),
        (opposite(j), opposite(i)),
    ]
}

/// The four leaps of two squares along the diagonals.
pub open spec fn alfil_steps() -> Seq<DeltaPosition> {
    seq![(2i8, 2i8), (2i8, -2i8), (-2i8, 2i8), (-2i8, -2i8)]
}

/// The leaps of two squares along ranks and files, then along the diagonals.
pub open spec fn bard_steps() -> Seq<DeltaPosition> {
    seq![(2i8, 0i8), (-2i8, 0i8), (0i8, 2i8), (0i8, -2i8)] + alfil_steps()
}

/// The fan of five squares in front of a dozer.
pub open spec fn dozer_steps(color: Color) -> Seq<DeltaPosition> {
    let dy: i8 = if color == Color::Black {
        -1i8
    } else {
        1
    };
    seq![(-2i8, dy), (-1i8, dy), (0i8, dy), (1i8, dy), (2i8, dy)]
}

/// The moves of a leaper that goes `i` one way and `j` the other.
pub open spec fn ij_moves(b: BoardView, p: Position, i: i8, j: i8) -> Seq<MoveView> {
    leaps(b, p, ij_steps(i, j), 8)
}

/// The moves of a knight.
pub open spec fn knight_moves(b: BoardView, p: Position) -> Seq<MoveView> {
    ij_moves(b, p, 2, 1)
}

/// The moves of a bishop.
pub open spec fn bishop_moves(b: BoardView, p: Position) -> Seq<MoveView> {
    slides(b, p, bishop_steps(), 4)
}

/// The moves of a rook that carry no castling right.
pub open spec fn pseudo_rook_moves(b: BoardView, p: Position) -> Seq<MoveView> {
    slides(b, p, rook_steps(), 4)
}

/// The moves of a queen.
pub open spec fn queen_moves(b: BoardView, p: Position) -> Seq<MoveView> {
    slides(b, p, queen_steps(), 8)
}

/// The moves of an amazon: a knight's, then a queen's.
pub open spec fn amazon_moves(b: BoardView, p: Position) -> Seq<MoveView> {
    knight_moves(b, p) + slides(b, p, queen_steps(), 8)
}

/// The moves of a centaur: a knight's, then one step in each direction.
pub open spec fn centaur_moves(b: BoardView, p: Position) -> Seq<MoveView> {
    knight_moves(b, p) + leaps(b, p, queen_steps(), 8)
}

/// The moves of an archbishop: a knight's, then a bishop's.
pub open spec fn archbishop_moves(b: BoardView, p: Position) -> Seq<MoveView> {
    knight_moves(b, p) + slides(b, p, bishop_steps(), 4)
}

/// The moves of a chancellor: a knight's, then a rook's.
pub open spec fn chancellor_moves(b: BoardView, p: Position) -> Seq<MoveView> {
    knight_moves(b, p) + slides(b, p, rook_steps(), 4)
}

/// The moves of an alfil.
pub open spec fn alfil_moves(b: BoardView, p: Position) -> Seq<MoveView> {
    leaps(b, p, alfil_steps(), 4)
}

/// The moves of a bard.
pub open spec fn bard_moves(b: BoardView, p: Position) -> Seq<MoveView> {
    leaps(b, p, bard_steps(), 8)
}

/// The moves of a dozer.
pub open spec fn dozer_moves(b: BoardView, p: Position) -> Seq<MoveView> {
    match b.color_at(p) {
        Some(c) => leaps(b, p, dozer_steps(c), 5),
        None => Seq::empty(),
    }
}

/// The four pieces that a pawn may become.
pub open spec fn promotions(from: Position, to: Position, ty: MoveType) -> Seq<MoveView> {
    seq![
        turning_move(from, to, ty, "knight"@),
        turning_move(from, to, ty, "bishop"@),
        turning_move(from, to, ty, "rook"@),
        turning_move(from, to, ty, "queen"@),
    ]
}

/// A pawn's arrival on `to`: as one of four pieces from the rank before the
/// last, as itself from any other.
pub open spec fn pawn_arrival(from: Position, to: Position, ty: MoveType, promotes: bool) -> Seq<
    MoveView,
> {
    if promotes {
        promotions(from, to, ty)
    } else {
        seq![plain_move(from, to, ty)]
    }
}

/// The rank on which the pawns of a side begin.
pub open spec fn pawn_home(c: Color) -> u8 {
    if c == Color::White {
        6
    } else {
        1
    }
}

/// The rank from which the pawns of a side reach the last rank.
pub open spec fn pawn_last(c: Color) -> u8 {
    if c == Color::White {
        1
    } else {
        6
    }
}

/// The rank on which a double step ends.
pub open spec fn pawn_double(c: Color) -> u8 {
    if c == Color::White {
        4
    } else {
        3
    }
}

/// The rank from which a pawn takes in passing.
pub open spec fn pawn_passing(c: Color) -> u8 {
    if c == Color::White {
        3
    } else {
        4
    }
}

/// Whether a pawn of `c` on `p` has a rank in front of it.
pub open spec fn pawn_has_ahead(c: Color, p: Position) -> bool {
    on_board(p) && if c == Color::White {
        p.1 >= 1
    } else {
        p.1 <= 6
    }
}

/// The rank in front of a pawn.
pub open spec fn pawn_ahead(c: Color, p: Position) -> u8 {
    if c == Color::White {
        (p.1 - 1) as u8
    } else {
        (p.1 + 1) as u8
    }
}

/// The double step's mark.
pub open spec fn enpassant_mark() -> Seq<(Seq<char>, u8)> {
    seq![("enpassant"@, 1u8)]
}

/// A pawn's steps straight on: one square where it is empty, and from the
/// home rank two where both are empty, the double step carrying the mark.
pub open spec fn pawn_pushes(b: BoardView, p: Position, c: Color) -> Seq<MoveView> {
    let one = (p.0, pawn_ahead(c, p));
    let two = (p.0, pawn_double(c));
    if b.color_at(one) is None {
        pawn_arrival(p, one, MoveType::Move, p.1 == pawn_last(c)) + if p.1 == pawn_home(c)
            && b.color_at(two) is None {
            seq![
                MoveView {
                    from: p,
                    take: two,
                    move_to: two,
                    move_type: MoveType::Move,
                    state_change: Some(enpassant_mark()),
                    transition: None,
                },
            ]
        } else {
            Seq::empty()
        }
    } else {
        Seq::empty()
    }
}

/// Taking in passing the pawn that stands on the file `x` beside the pawn.
pub open spec fn pawn_passes_to(b: BoardView, p: Position, c: Color, x: u8) -> Seq<MoveView> {
    if b.side(c.inverted()).enpassant.contains((x, p.1)) {
        seq![
            MoveView {
                from: p,
                take: (x, p.1),
                move_to: (x, pawn_ahead(c, p)),
                move_type: MoveType::TakeJump,
                state_change: None,
                transition: None,
            },
        ]
    } else {
        Seq::empty()
    }
}

/// A pawn's captures in passing: to the left, then to the right, of a pawn
/// of the other side that has just made its double step.
pub open spec fn pawn_passing_moves(b: BoardView, p: Position, c: Color) -> Seq<MoveView> {
    if p.1 == pawn_passing(c) {
        (if p.0 > 0 {
            pawn_passes_to(b, p, c, (p.0 - 1) as u8)
        } else {
            Seq::empty()
        }) + (if p.0 < 7 {
            pawn_passes_to(b, p, c, (p.0 + 1) as u8)
        } else {
            Seq::empty()
        })
    } else {
        Seq::empty()
    }
}

/// A pawn's capture on the file `x` of the rank in front of it.
pub open spec fn pawn_capture(b: BoardView, p: Position, c: Color, x: u8) -> Seq<MoveView> {
    let to = (x, pawn_ahead(c, p));
    if b.color_at(to) == Some(c.inverted()) {
        pawn_arrival(p, to, MoveType::Take, p.1 == pawn_last(c))
    } else {
        Seq::empty()
    }
}

/// A pawn's captures: to the left, then to the right.
pub open spec fn pawn_captures(b: BoardView, p: Position, c: Color) -> Seq<MoveView> {
    (if p.0 > 0 {
        pawn_capture(b, p, c, (p.0 - 1) as u8)
    } else {
        Seq::empty()
    }) + (if p.0 < 7 {
        pawn_capture(b, p, c, (p.0 + 1) as u8)
    } else {
        Seq::empty()
    })
}

/// The moves of a pawn: its steps straight on, its captures in passing, its
/// captures. A pawn without a rank in front of it has none.
pub open spec fn pawn_moves(b: BoardView, p: Position) -> Seq<MoveView> {
    match b.color_at(p) {
        Some(c) => {
            if pawn_has_ahead(c, p) {
                pawn_pushes(b, p, c) + pawn_passing_moves(b, p, c) + pawn_captures(b, p, c)
            } else {
                Seq::empty()
            }
        },
        None => Seq::empty(),
    }
}

/// The updates that every move of a king carries: both castling rights go.
pub open spec fn king_changes() -> Seq<(Seq<char>, u8)> {
    seq![("castling-oo"@, 0u8), ("castling-ooo"@, 0u8)]
}

/// A move of a king, which gives up both castling rights.
pub open spec fn king_move(from: Position, to: Position, ty: MoveType) -> MoveView {
    MoveView {
        from,
        take: to,
        move_to: to,
        move_type: ty,
        state_change: Some(king_changes()),
        transition: None,
    }
}

/// A king's step by `d`: onto a square that holds no piece of its own side
/// and that the other side does not attack.
pub open spec fn king_step(b: BoardView, p: Position, danger: u64, d: DeltaPosition) -> Seq<
    MoveView,
> {
    if can_leap(b, p, d) && !zero_vector(d) && !danger_bit(danger, stepped(p, d)) {
        seq![king_move(p, stepped(p, d), MoveType::TakeMove)]
    } else {
        Seq::empty()
    }
}

/// The eight steps round a king, file by file from the left, each file from
/// the bottom.
pub open spec fn king_ring() -> Seq<DeltaPosition> {
    seq![
        (-1i8, -1i8),
        (-1i8, 0i8),
        (-1i8, 1i8),
        (0i8, -1i8),
        (0i8, 1i8),
        (1i8, -1i8),
        (1i8, 0i8),
        (1i8, 1i8),
    ]
}

/// The first `n` steps of a king round its square.
pub open spec fn king_steps(b: BoardView, p: Position, danger: u64, n: int) -> Seq<MoveView>
    decreases n,
{
    if n <= 0 {
        Seq::empty()
    } else {
        king_steps(b, p, danger, n - 1) + king_step(b, p, danger, king_ring()[n - 1])
    }
}

/// Whether a rook of `c` stands on `p`.
pub open spec fn own_rook(b: BoardView, c: Color, p: Position) -> bool {
    b.at(p) == (Square::Occupied { kind: "rook"@, color: c })
}

/// Whether the king of `c` on `p` may castle to the king's side: the right
/// is still there, its own rook stands in the corner of its rank, the two
/// squares between them are empty, and neither the king's square nor a
/// square that it crosses or reaches is attacked.
pub open spec fn may_castle_short(b: BoardView, p: Position, c: Color, danger: u64) -> bool {
    &&& b.side(c).castling_oo
    &&& own_rook(b, c, (7, p.1))
    &&& b.color_at((6, p.1)) is None
    &&& b.color_at((5, p.1)) is None
    &&& !danger_bit(danger, p)
    &&& !danger_bit(danger, (5, p.1))
    &&& !danger_bit(danger, (6, p.1))
}

/// Whether the king of `c` on `p` may castle to the queen's side: the right
/// is still there, its own rook stands in the corner of its rank, the three
/// squares between them are empty, and neither the king's square nor a
/// square that it crosses or reaches is attacked.
pub open spec fn may_castle_long(b: BoardView, p: Position, c: Color, danger: u64) -> bool {
    &&& b.side(c).castling_ooo
    &&& own_rook(b, c, (0, p.1))
    &&& b.color_at((1, p.1)) is None
    &&& b.color_at((2, p.1)) is None
    &&& b.color_at((3, p.1)) is None
    &&& !danger_bit(danger, p)
    &&& !danger_bit(danger, (3, p.1))
    &&& !danger_bit(danger, (2, p.1))
}

/// The moves of a king: its steps, then castling short, then castling long.
pub open spec fn king_moves(b: BoardView, p: Position, danger: u64) -> Seq<MoveView> {
    match b.color_at(p) {
        Some(c) => king_steps(b, p, danger, 8) + (if may_castle_short(b, p, c, danger) {
            seq![king_move(p, (6, p.1), MoveType::Castling)]
        } else {
            Seq::empty()
        }) + (if may_castle_long(b, p, c, danger) {
            seq![king_move(p, (2, p.1), MoveType::Castling)]
        } else {
            Seq::empty()
        }),
        None => Seq::empty(),
    }
}

/// An instruction without operands.
pub open spec fn op(op: Opcode) -> Instr {
    Instr { op, delta: (0, 0), name: Seq::empty(), count: 0 }
}

/// An instruction that takes a step.
pub open spec fn op_delta(op: Opcode, delta: DeltaPosition) -> Instr {
    Instr { op, delta, name: Seq::empty(), count: 0 }
}

/// An instruction that takes a count.
pub open spec fn op_count(op: Opcode, count: u8) -> Instr {
    Instr { op, delta: (0, 0), name: Seq::empty(), count }
}

/// An instruction that takes a register's name and a value.
pub open spec fn op_state(op: Opcode, name: Seq<char>, count: u8) -> Instr {
    Instr { op, delta: (0, 0), name, count }
}

/// The chain of one slide of a rook, which clears the castling right `mark`
/// where the rook leaves its corner.
pub open spec fn rook_chain(mark: Option<Seq<char>>, d: DeltaPosition) -> Seq<Instr> {
    match mark {
        Some(m) => seq![
            op_state(Opcode::SetState, m, 0),
            op_delta(Opcode::TakeMove, d),
            op_count(Opcode::Repeat, 1),
        ],
        None => seq![op_delta(Opcode::TakeMove, d), op_count(Opcode::Repeat, 1)],
    }
}

/// The program of a rook: one slide for each of its four steps.
pub open spec fn rook_program(mark: Option<Seq<char>>) -> Seq<Seq<Instr>> {
    seq![
        rook_chain(mark, (1, 0)),
        rook_chain(mark, (-1i8, 0)),
        rook_chain(mark, (0, 1)),
        rook_chain(mark, (0, -1i8)),
    ]
}

/// The castling right that a rook of `c` on `p` stands for: one for each
/// corner of its side's first rank.
pub open spec fn rook_mark(c: Color, p: Position) -> Option<Seq<char>> {
    let first: u8 = if c == Color::White {
        7
    } else {
        0
    };
    if p.1 == first && p.0 == 0 {
        Some("castling-ooo"@)
    } else if p.1 == first && p.0 == 7 {
        Some("castling-oo"@)
    } else {
        None
    }
}

/// The moves of a rook.
pub open spec fn rook_moves(b: BoardView, p: Position) -> Seq<MoveView> {
    match b.color_at(p) {
        Some(c) => script_moves(rook_program(rook_mark(c, p)), b, p, 0, false),
        None => Seq::empty(),
    }
}

/// A chain that repeats one instruction for as long as it succeeds.
pub open spec fn repeat_chain(o: Opcode, d: DeltaPosition) -> Seq<Instr> {
    seq![op_delta(o, d), op_count(Opcode::Repeat, 1)]
}

/// The program of a wasp: straight on with captures, and back along the
/// diagonals without.
pub open spec fn wasp_program() -> Seq<Seq<Instr>> {
    seq![
        repeat_chain(Opcode::TakeMove, (0, 1)),
        repeat_chain(Opcode::Move, (1, -1i8)),
        repeat_chain(Opcode::Move, (-1i8, -1i8)),
    ]
}

/// A cannon's capture along `d`: over the first piece of the other side
/// onto the empty square behind it.
pub open spec fn cannon_capture_chain(d: DeltaPosition) -> Seq<Instr> {
    seq![
        op(Opcode::Do),
        op_delta(Opcode::Take, d),
        op_delta(Opcode::Enemy, (0, 0)),
        op(Opcode::Not),
        op(Opcode::While),
        op_delta(Opcode::Jump, d),
        op_count(Opcode::Repeat, 1),
    ]
}

/// A cannon's quiet move along `d`: over its own pieces onto empty squares.
pub open spec fn cannon_move_chain(d: DeltaPosition) -> Seq<Instr> {
    seq![
        op(Opcode::Do),
        op_delta(Opcode::Peek, d),
        op(Opcode::While),
        op_delta(Opcode::Friendly, (0, 0)),
        op_delta(Opcode::Move, d),
        op_count(Opcode::Repeat, 1),
    ]
}

/// The program of a cannon: four captures, then four quiet moves.
pub open spec fn cannon_program() -> Seq<Seq<Instr>> {
    seq![
        cannon_capture_chain((1, 0)),
        cannon_capture_chain((-1i8, 0)),
        cannon_capture_chain((0, 1)),
        cannon_capture_chain((0, -1i8)),
        cannon_move_chain((1, 0)),
        cannon_move_chain((-1i8, 0)),
        cannon_move_chain((0, 1)),
        cannon_move_chain((0, -1i8)),
    ]
}

/// One diagonal step, then a slide along a rank or a file.
pub open spec fn tempest_chain(first: DeltaPosition, then: DeltaPosition) -> Seq<Instr> {
    seq![
        op_delta(Opcode::TakeMove, first),
        op_delta(Opcode::TakeMove, then),
        op_count(Opcode::Repeat, 1),
    ]
}

/// The program of a tempest rook: from each diagonal neighbour along the
/// rank and along the file.
pub open spec fn tempest_rook_program() -> Seq<Seq<Instr>> {
    seq![
        tempest_chain((1, 1), (1, 0)),
        tempest_chain((1, 1), (0, 1)),
        tempest_chain((1, -1i8), (1, 0)),
        tempest_chain((1, -1i8), (0, -1i8)),
        tempest_chain((-1i8, 1), (-1i8, 0)),
        tempest_chain((-1i8, 1), (0, 1)),
        tempest_chain((-1i8, -1i8), (-1i8, 0)),
        tempest_chain((-1i8, -1i8), (0, -1i8)),
    ]
}

/// The program of one chain for each step, each chain the one instruction.
pub open spec fn single_steps(o: Opcode, ds: Seq<DeltaPosition>) -> Seq<Seq<Instr>> {
    Seq::new(ds.len(), |i: int| seq![op_delta(o, ds[i])])
}

/// The program of a chameleon's walk: one step to an empty square.
pub open spec fn chameleon_walk_program() -> Seq<Seq<Instr>> {
    single_steps(Opcode::Move, queen_steps())
}

/// The program of a pawn without double step, capture in passing and
/// promotion.
pub open spec fn pseudo_pawn_program() -> Seq<Seq<Instr>> {
    seq![
        seq![op_delta(Opcode::Move, (0, 1))],
        seq![op_delta(Opcode::Take, (1, 1))],
        seq![op_delta(Opcode::Take, (-1i8, 1))],
    ]
}

/// The moves of a wasp.
pub open spec fn wasp_moves(b: BoardView, p: Position) -> Seq<MoveView> {
    script_moves(wasp_program(), b, p, 0, false)
}

/// The moves of a cannon.
pub open spec fn cannon_moves(b: BoardView, p: Position) -> Seq<MoveView> {
    script_moves(cannon_program(), b, p, 0, false)
}

/// The moves of a tempest rook.
pub open spec fn tempest_rook_moves(b: BoardView, p: Position) -> Seq<MoveView> {
    script_moves(tempest_rook_program(), b, p, 0, false)
}

/// The moves of a pawn that only steps and captures.
pub open spec fn pseudo_pawn_moves(b: BoardView, p: Position) -> Seq<MoveView> {
    script_moves(pseudo_pawn_program(), b, p, 0, false)
}

/// The script of the bishop that the walls turn back.
pub const BOUNCING_BISHOP_SCRIPT: &'static str =
    "do take-move(1, 1) while peek(0, 0) edge-right(1, 1) jne(0) take-move(-1, 1) repeat(1) label(0) edge-top(1, 1) jne(1) take-move(1, -1) repeat(1) label(1);do take-move(-1, 1) while peek(0, 0) edge-left(-1, 1) jne(0) take-move(1, 1) repeat(1) label(0) edge-top(-1, 1) jne(1) take-move(-1, -1) repeat(1) label(1);do take-move(1, -1) while peek(0, 0) edge-right(1, -1) jne(0) take-move(-1, -1) repeat(1) label(0) edge-bottom(1, -1) jne(1) take-move(1, 1) repeat(1) label(1);do take-move(-1, -1) while peek(0, 0) edge-left(-1, -1) jne(0) take-move(1, -1) repeat(1) label(0) edge-bottom(-1, -1) jne(1) take-move(-1, 1) repeat(1) label(1);";

/// The script of the rook that moves as a rook and becomes a bishop.
pub const WINDMILL_ROOK_SCRIPT: &'static str =
    "piece(windmill-rook) transition(windmill-bishop) { take-move(1, 0) repeat(1) } { take-move(0, 1) repeat(1) } { take-move(-1, 0) repeat(1) } { take-move(0, -1) repeat(1) };";

/// The script of the bishop that moves as a bishop and becomes a rook.
pub const WINDMILL_BISHOP_SCRIPT: &'static str =
    "piece(windmill-bishop) transition(windmill-rook) { take-move(1, 1) repeat(1) } { take-move(-1, 1) repeat(1) } { take-move(1, -1) repeat(1) } { take-move(-1, -1) repeat(1) };";

/// The moves of a bouncing bishop.
pub open spec fn bouncing_bishop_moves(b: BoardView, p: Position) -> Seq<MoveView> {
    script_moves(compile(BOUNCING_BISHOP_SCRIPT@), b, p, 0, false)
}

/// The moves of a windmill rook.
pub open spec fn windmill_rook_moves(b: BoardView, p: Position) -> Seq<MoveView> {
    script_moves(compile(WINDMILL_ROOK_SCRIPT@), b, p, 0, false)
}

/// The moves of a windmill bishop.
pub open spec fn windmill_bishop_moves(b: BoardView, p: Position) -> Seq<MoveView> {
    script_moves(compile(WINDMILL_BISHOP_SCRIPT@), b, p, 0, false)
}

/// The kinds that have a mirrored twin.
pub open spec fn has_twin(kind: Seq<char>) -> bool {
    kind == "pawn"@ || kind == "queen"@ || kind == "bishop"@ || kind == "knight"@ || kind
        == "rook"@
}

/// The mirrored twin of a kind.
pub open spec fn twin_of(kind: Seq<char>) -> Seq<char> {
    if kind == "pawn"@ {
        "mirrored-pawn"@
    } else if kind == "queen"@ {
        "mirrored-queen"@
    } else if kind == "bishop"@ {
        "mirrored-bishop"@
    } else if kind == "knight"@ {
        "mirrored-knight"@
    } else {
        "mirrored-rook"@
    }
}

/// A chameleon's catch by `d`: the piece of the other side two squares away
/// on a diagonal goes, and the chameleon becomes its mirrored twin without
/// leaving its square.
pub open spec fn chameleon_catch(b: BoardView, p: Position, d: DeltaPosition) -> Seq<MoveView> {
    let target = stepped(p, d);
    match (b.color_at(p), b.at(target)) {
        (Some(c), Square::Occupied { kind, color }) => {
            if step_lands(p, d) && color == c.inverted() && has_twin(kind) {
                seq![
                    MoveView {
                        from: p,
                        take: target,
                        move_to: p,
                        move_type: MoveType::Catch,
                        state_change: None,
                        transition: Some(twin_of(kind)),
                    },
                ]
            } else {
                Seq::empty()
            }
        },
        _ => Seq::empty(),
    }
}

/// The first `n` catches of a chameleon.
pub open spec fn chameleon_catches(b: BoardView, p: Position, n: int) -> Seq<MoveView>
    decreases n,
{
    if n <= 0 {
        Seq::empty()
    } else {
        chameleon_catches(b, p, n - 1) + chameleon_catch(b, p, alfil_steps()[n - 1])
    }
}

/// The moves of a chameleon: a step to an empty square next to it, or a
/// catch.
pub open spec fn chameleon_moves(b: BoardView, p: Position) -> Seq<MoveView> {
    script_moves(chameleon_walk_program(), b, p, 0, false) + chameleon_catches(b, p, 4)
}

/// Whether a beacon of `c` may go to square `i` of the grid: a piece of its
/// own side stands there that is neither a pawn nor a beacon.
pub open spec fn beacon_reaches(b: BoardView, c: Color, i: int) -> bool {
    b.at(square_at(i)) matches Square::Occupied { kind, color } && color == c && kind != "pawn"@
        && kind != "beacon"@
}

/// The moves of the beacon on `p` to the first `n` squares of the grid.
pub open spec fn beacon_moves_upto(b: BoardView, p: Position, c: Color, n: int) -> Seq<MoveView>
    decreases n,
{
    if n <= 0 {
        Seq::empty()
    } else if beacon_reaches(b, c, n - 1) {
        beacon_moves_upto(b, p, c, n - 1).push(
            MoveView {
                from: p,
                take: p,
                move_to: square_at(n - 1),
                move_type: MoveType::Shift,
                state_change: None,
                transition: None,
            },
        )
    } else {
        beacon_moves_upto(b, p, c, n - 1)
    }
}

/// The moves of a beacon.
pub open spec fn beacon_moves(b: BoardView, p: Position) -> Seq<MoveView> {
    match b.color_at(p) {
        Some(c) => beacon_moves_upto(b, p, c, 64),
        None => Seq::empty(),
    }
}

/// The moves of the piece that a mirrored kind moves as.
pub open spec fn mirrored_base(b: BoardView, p: Position, piece: Seq<char>) -> Seq<MoveView> {
    if piece == "mirrored-pawn"@ {
        pseudo_pawn_moves(b, p)
    } else if piece == "mirrored-bishop"@ {
        bishop_moves(b, p)
    } else if piece == "mirrored-rook"@ {
        pseudo_rook_moves(b, p)
    } else if piece == "mirrored-knight"@ {
        knight_moves(b, p)
    } else if piece == "mirrored-queen"@ {
        queen_moves(b, p)
    } else {
        Seq::empty()
    }
}

/// A move of a mirrored piece: where it captures a piece that has a twin, it
/// becomes that twin and carries no register update.
pub open spec fn mirrored_move(b: BoardView, c: Color, m: MoveView) -> MoveView {
    match b.at(m.take) {
        Square::Occupied { kind, color } => {
            if color == c.inverted() && has_twin(kind) {
                MoveView { state_change: None, transition: Some(twin_of(kind)), ..m }
            } else {
                m
            }
        },
        Square::Empty => m,
    }
}

/// The moves of a mirrored piece of the kind `piece`.
pub open spec fn mirrored_moves(b: BoardView, p: Position, piece: Seq<char>) -> Seq<MoveView> {
    match b.color_at(p) {
        Some(c) => Seq::new(
            mirrored_base(b, p, piece).len(),
            |i: int| mirrored_move(b, c, mirrored_base(b, p, piece)[i]),
        ),
        None => Seq::empty(),
    }
}

/// The moves of the piece on `p`, by its kind: those of a built-in kind, or
/// for any other kind those that the board's program gives it. `danger`
/// marks the squares that the other side attacks; only a king and a program
/// ask for it. `checked` says whether the piece's side is in check; only a
/// program asks for it.
#[verifier::opaque]
pub open spec fn piece_moves(b: BoardView, p: Position, danger: u64, checked: bool) -> Seq<
    MoveView,
> {
    match b.kind_at(p) {
        None => Seq::empty(),
        Some(kind) => {
            if kind == "pawn"@ {
                pawn_moves(b, p)
            } else if kind == "king"@ {
                king_moves(b, p, danger)
            } else if kind == "rook"@ {
                rook_moves(b, p)
            } else if kind == "knight"@ {
                knight_moves(b, p)
            } else if kind == "bishop"@ {
                bishop_moves(b, p)
            } else if kind == "queen"@ {
                queen_moves(b, p)
            } else if kind == "tempest-rook"@ {
                tempest_rook_moves(b, p)
            } else if kind == "bouncing-bishop"@ {
                bouncing_bishop_moves(b, p)
            } else if kind == "dozer"@ {
                dozer_moves(b, p)
            } else if kind == "alfil"@ {
                alfil_moves(b, p)
            } else if kind == "bard"@ {
                bard_moves(b, p)
            } else if kind == "wasp"@ {
                wasp_moves(b, p)
            } else if kind == "amazon"@ {
                amazon_moves(b, p)
            } else if kind == "chancellor"@ {
                chancellor_moves(b, p)
            } else if kind == "archbishop"@ {
                archbishop_moves(b, p)
            } else if kind == "centaur"@ {
                centaur_moves(b, p)
            } else if kind == "zebra"@ {
                ij_moves(b, p, 3, 2)
            } else if kind == "giraffe"@ {
                ij_moves(b, p, 4, 1)
            } else if kind == "camel"@ {
                ij_moves(b, p, 3, 1)
            } else if kind == "beacon"@ {
                beacon_moves(b, p)
            } else if kind == "chameleon"@ {
                chameleon_moves(b, p)
            } else if kind == "mirrored-pawn"@ || kind == "mirrored-bishop"@ || kind
                == "mirrored-rook"@ || kind == "mirrored-knight"@ || kind == "mirrored-queen"@ {
                mirrored_moves(b, p, kind)
            } else if kind == "windmill-rook"@ {
                windmill_rook_moves(b, p)
            } else if kind == "windmill-bishop"@ {
                windmill_bishop_moves(b, p)
            } else {
                script_moves(b.program, b, p, danger, checked)
            }
        },
    }
}

/// The kinds that the catalog moves itself.
pub open spec fn is_built_in(kind: Seq<char>) -> bool {
    kind == "pawn"@ || kind == "king"@ || kind == "rook"@ || kind == "knight"@ || kind
        == "bishop"@ || kind == "queen"@ || kind == "tempest-rook"@ || kind == "bouncing-bishop"@
        || kind == "dozer"@ || kind == "alfil"@ || kind == "bard"@ || kind == "wasp"@ || kind
        == "amazon"@ || kind == "chancellor"@ || kind == "archbishop"@ || kind == "centaur"@
        || kind == "zebra"@ || kind == "giraffe"@ || kind == "camel"@ || kind == "beacon"@ || kind
        == "chameleon"@ || kind == "mirrored-pawn"@ || kind == "mirrored-bishop"@ || kind
        == "mirrored-rook"@ || kind == "mirrored-knight"@ || kind == "mirrored-queen"@ || kind
        == "windmill-rook"@ || kind == "windmill-bishop"@
}

} // verus!
