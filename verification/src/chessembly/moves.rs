//! The move generators of the built-in kinds of piece.

use vstd::prelude::*;
use crate::chessembly::behavior::{Behavior, BehaviorChain, chain_view, Opcode};
use crate::chessembly::board::Board;
use crate::chessembly::catalog::{
    alfil_moves, alfil_steps, amazon_moves, archbishop_moves, bard_moves, bard_steps, beacon_moves,
    beacon_moves_upto, bishop_moves, bishop_steps, bouncing_bishop_moves, BOUNCING_BISHOP_SCRIPT,
    cannon_capture_chain, cannon_move_chain, cannon_moves, cannon_program, centaur_moves,
    chameleon_catch, chameleon_catches, chameleon_moves, chancellor_moves, dozer_moves, dozer_steps,
    enpassant_mark, has_twin, ij_moves, ij_steps, king_changes, king_move, king_moves, king_ring,
    king_step, king_steps, knight_moves, leap, leap_goes_on, leaps, may_castle_short, mirrored_base,
    mirrored_move, mirrored_moves, opposite, pawn_moves, plain_move, pseudo_pawn_moves,
    pseudo_pawn_program, pseudo_rook_moves, queen_moves, queen_steps, repeat_chain, rook_chain,
    rook_mark, rook_moves, rook_program, rook_steps, single_steps, slide, slides, tempest_chain,
    tempest_rook_moves, tempest_rook_program, turning_move, twin_of, wasp_moves, wasp_program,
    windmill_bishop_moves, WINDMILL_BISHOP_SCRIPT, windmill_rook_moves, WINDMILL_ROOK_SCRIPT,
};
use crate::chessembly::geometry::{lemma_no_collision_lands, WallCollision};
use crate::chessembly::interp::name_view;
use crate::chessembly::script::ChessemblyCompiled;
use crate::chessembly::{
    all_from, changes_view, ChessMove, Color, color_is, DeltaPosition, lemma_list_view_push,
    list_view, MoveType, MoveView, on_board, PieceSpan, Position, square_at,
};
use crate::text::same_text;

verus! {

/// Appends one move.
fn push_move<'a>(moves: &mut Vec<ChessMove<'a>>, node: ChessMove<'a>)
    ensures
        list_view(final(moves)@) == list_view(old(moves)@).push(node@),
        list_view(final(moves)@) == list_view(old(moves)@) + seq![node@],
{
    proof {
        lemma_list_view_push(moves@, node);
        assert(list_view(moves@).push(node@) =~= list_view(moves@) + seq![node@]);
    }
    moves.push(node);
}

fn plain<'a>(from: Position, to: Position, ty: MoveType) -> (r: ChessMove<'a>)
    ensures
        r@ == plain_move(from, to, ty),
{
    ChessMove { from, take: to, move_to: to, move_type: ty, state_change: None, transition: None }
}

fn turning<'a>(from: Position, to: Position, ty: MoveType, kind: &'a str) -> (r: ChessMove<'a>)
    ensures
        r@ == turning_move(from, to, ty, kind@),
{
    ChessMove {
        from,
        take: to,
        move_to: to,
        move_type: ty,
        state_change: None,
        transition: Some(kind),
    }
}

fn negated(v: i8) -> (r: i8)
    ensures
        r == opposite(v),
{
    if v == -128 {
        127
    } else {
        -v
    }
}

fn rook_dirs() -> (r: Vec<DeltaPosition>)
    ensures
        r@ == rook_steps(),
{
    let r = vec![(1i8, 0i8), (-1i8, 0i8), (0i8, 1i8), (0i8, -1i8)];
    assert(r@ =~= rook_steps());
    r
}

fn bishop_dirs() -> (r: Vec<DeltaPosition>)
    ensures
        r@ == bishop_steps(),
{
    let r = vec![(1i8, 1i8), (1i8, -1i8), (-1i8, 1i8), (-1i8, -1i8)];
    assert(r@ =~= bishop_steps());
    r
}

fn queen_dirs() -> (r: Vec<DeltaPosition>)
    ensures
        r@ == queen_steps(),
{
    let r = vec![
        (1i8, 0i8),
        (-1i8, 0i8),
        (0i8, 1i8),
        (0i8, -1i8),
        (1i8, 1i8),
        (1i8, -1i8),
        (-1i8, 1i8),
        (-1i8, -1i8),
    ];
    assert(r@ =~= queen_steps());
    r
}

fn ij_dirs(i: i8, j: i8) -> (r: Vec<DeltaPosition>)
    ensures
        r@ == ij_steps(i, j),
{
    let ni = negated(i);
    let nj = negated(j);
    let r = vec![(i, j), (ni, j), (i, nj), (ni, nj), (j, i), (nj, i), (j, ni), (nj, ni)];
    assert(r@ =~= ij_steps(i, j));
    r
}

fn alfil_dirs() -> (r: Vec<DeltaPosition>)
    ensures
        r@ == alfil_steps(),
{
    let r = vec![(2i8, 2i8), (2i8, -2i8), (-2i8, 2i8), (-2i8, -2i8)];
    assert(r@ =~= alfil_steps());
    r
}

fn bard_dirs() -> (r: Vec<DeltaPosition>)
    ensures
        r@ == bard_steps(),
{
    let r = vec![
        (2i8, 0i8),
        (-2i8, 0i8),
        (0i8, 2i8),
        (0i8, -2i8),
        (2i8, 2i8),
        (2i8, -2i8),
        (-2i8, 2i8),
        (-2i8, -2i8),
    ];
    assert(r@ =~= bard_steps());
    r
}

fn dozer_dirs(color: Color) -> (r: Vec<DeltaPosition>)
    ensures
        r@ == dozer_steps(color),
{
    let dy: i8 = match color {
        Color::Black => -1,
        Color::White => 1,
    };
    let r = vec![(-2i8, dy), (-1i8, dy), (0i8, dy), (1i8, dy), (2i8, dy)];
    assert(r@ =~= dozer_steps(color));
    r
}

fn king_dirs() -> (r: Vec<DeltaPosition>)
    ensures
        r@ == king_ring(),
{
    let r = vec![
        (-1i8, -1i8),
        (-1i8, 0i8),
        (-1i8, 1i8),
        (0i8, -1i8),
        (0i8, 1i8),
        (1i8, -1i8),
        (1i8, 0i8),
        (1i8, 1i8),
    ];
    assert(r@ =~= king_ring());
    r
}

fn chain_of_one<'a>(a: Behavior<'a>) -> (r: BehaviorChain<'a>)
    ensures
        chain_view(r@) == seq![a@],
{
    let mut c: BehaviorChain<'a> = Vec::new();
    c.push(a);
    assert(chain_view(c@) =~= seq![a@]);
    c
}

fn chain_of_two<'a>(a: Behavior<'a>, b: Behavior<'a>) -> (r: BehaviorChain<'a>)
    ensures
        chain_view(r@) == seq![a@, b@],
{
    let mut c: BehaviorChain<'a> = Vec::new();
    c.push(a);
    c.push(b);
    assert(chain_view(c@) =~= seq![a@, b@]);
    c
}

fn chain_of_three<'a>(a: Behavior<'a>, b: Behavior<'a>, c3: Behavior<'a>) -> (r: BehaviorChain<'a>)
    ensures
        chain_view(r@) == seq![a@, b@, c3@],
{
    let mut c: BehaviorChain<'a> = Vec::new();
    c.push(a);
    c.push(b);
    c.push(c3);
    assert(chain_view(c@) =~= seq![a@, b@, c3@]);
    c
}

fn build_rook_chain<'a>(mark: Option<&'a str>, d: DeltaPosition) -> (r: BehaviorChain<'a>)
    ensures
        chain_view(r@) == rook_chain(name_view(mark), d),
{
    match mark {
        Some(m) => chain_of_three(
            Behavior::with_state(Opcode::SetState, m, 0),
            Behavior::with_delta(Opcode::TakeMove, d),
            Behavior::with_count(Opcode::Repeat, 1),
        ),
        None => chain_of_two(
            Behavior::with_delta(Opcode::TakeMove, d),
            Behavior::with_count(Opcode::Repeat, 1),
        ),
    }
}

fn build_repeat_chain<'a>(o: Opcode, d: DeltaPosition) -> (r: BehaviorChain<'a>)
    ensures
        chain_view(r@) == repeat_chain(o, d),
{
    chain_of_two(Behavior::with_delta(o, d), Behavior::with_count(Opcode::Repeat, 1))
}

fn build_tempest_chain<'a>(first: DeltaPosition, then: DeltaPosition) -> (r: BehaviorChain<'a>)
    ensures
        chain_view(r@) == tempest_chain(first, then),
{
    chain_of_three(
        Behavior::with_delta(Opcode::TakeMove, first),
        Behavior::with_delta(Opcode::TakeMove, then),
        Behavior::with_count(Opcode::Repeat, 1),
    )
}

fn build_cannon_capture<'a>(d: DeltaPosition) -> (r: BehaviorChain<'a>)
    ensures
        chain_view(r@) == cannon_capture_chain(d),
{
    let mut c: BehaviorChain<'a> = Vec::new();
    c.push(Behavior::plain(Opcode::Do));
    c.push(Behavior::with_delta(Opcode::Take, d));
    c.push(Behavior::with_delta(Opcode::Enemy, (0, 0)));
    c.push(Behavior::plain(Opcode::Not));
    c.push(Behavior::plain(Opcode::While));
    c.push(Behavior::with_delta(Opcode::Jump, d));
    c.push(Behavior::with_count(Opcode::Repeat, 1));
    assert(chain_view(c@) =~= cannon_capture_chain(d));
    c
}

fn build_cannon_move<'a>(d: DeltaPosition) -> (r: BehaviorChain<'a>)
    ensures
        chain_view(r@) == cannon_move_chain(d),
{
    let mut c: BehaviorChain<'a> = Vec::new();
    c.push(Behavior::plain(Opcode::Do));
    c.push(Behavior::with_delta(Opcode::Peek, d));
    c.push(Behavior::plain(Opcode::While));
    c.push(Behavior::with_delta(Opcode::Friendly, (0, 0)));
    c.push(Behavior::with_delta(Opcode::Move, d));
    c.push(Behavior::with_count(Opcode::Repeat, 1));
    assert(chain_view(c@) =~= cannon_move_chain(d));
    c
}

/// The program of one chain for each step, each chain the one instruction.
fn build_single_steps<'a>(o: Opcode, ds: &Vec<DeltaPosition>) -> (r: ChessemblyCompiled<'a>)
    ensures
        r@ == single_steps(o, ds@),
{
    let mut chains: Vec<BehaviorChain<'a>> = Vec::new();
    let mut i: usize = 0;
    while i < ds.len()
        invariant
            i <= ds@.len(),
            chains@.len() == i,
            forall|k: int|
                0 <= k < i ==> chain_view(#[trigger] chains@[k]@) == seq![
                    crate::chessembly::catalog::op_delta(o, ds@[k]),
                ],
        decreases ds@.len() - i,
    {
        chains.push(chain_of_one(Behavior::with_delta(o, ds[i])));
        i = i + 1;
    }
    let r = ChessemblyCompiled { chains };
    assert(r@ =~= single_steps(o, ds@));
    r
}

fn twin_name<'a>(kind: &str) -> (r: Option<&'a str>)
    ensures
        r is Some == has_twin(kind@),
        r matches Some(t) ==> t@ == twin_of(kind@),
{
    if same_text(kind, "pawn") {
        Some("mirrored-pawn")
    } else if same_text(kind, "queen") {
        Some("mirrored-queen")
    } else if same_text(kind, "bishop") {
        Some("mirrored-bishop")
    } else if same_text(kind, "knight") {
        Some("mirrored-knight")
    } else if same_text(kind, "rook") {
        Some("mirrored-rook")
    } else {
        None
    }
}

impl<'a> ChessemblyCompiled<'a> {
    /// The moves of the pawn on `position`.
    pub fn generate_pawn_moves(&self, board: &Board<'a>, position: &Position) -> (r: Vec<
        ChessMove<'a>,
    >)
        requires
            board.wf(),
        ensures
            list_view(r@) == pawn_moves(board@, *position),
            all_from(list_view(r@), *position),
    {
        let mut ret: Vec<ChessMove<'a>> = Vec::new();
        let p = *position;
        proof {
            assert(list_view(ret@) =~= Seq::empty());
        }
        let color = match board.color_on(position) {
            Some(c) => c,
            None => {
                return ret;
            },
        };
        let white = match color {
            Color::White => true,
            Color::Black => false,
        };
        if p.0 >= 8 || p.1 >= 8 || (white && p.1 < 1) || (!white && p.1 > 6) {
            return ret;
        }
        let ghost b = board@;
        let ghost pushes = crate::chessembly::catalog::pawn_pushes(b, p, color);
        let ghost passing = crate::chessembly::catalog::pawn_passing_moves(b, p, color);
        let ghost captures = crate::chessembly::catalog::pawn_captures(b, p, color);

        push_pawn_pushes(&mut ret, board, p, color);
        proof {
            assert(Seq::<MoveView>::empty() + pushes =~= pushes);
        }
        push_pawn_passing(&mut ret, board, p, color);
        push_pawn_captures(&mut ret, board, p, color);
        ret
    }

    /// The moves of the king on `position`, `danger_zones` marking the
    /// squares that the other side attacks.
    pub fn generate_king_moves(&self, board: &Board<'a>, position: &Position, danger_zones: u64) -> (r:
        Vec<ChessMove<'a>>)
        requires
            board.wf(),
        ensures
            list_view(r@) == king_moves(board@, *position, danger_zones),
            all_from(list_view(r@), *position),
    {
        let mut ret: Vec<ChessMove<'a>> = Vec::new();
        let p = *position;
        let ghost b = board@;
        proof {
            assert(list_view(ret@) =~= Seq::empty());
        }
        let color = match board.color_on(position) {
            Some(c) => c,
            None => {
                return ret;
            },
        };
        let ring = king_dirs();
        let mut i: usize = 0;
        while i < 8
            invariant
                i <= 8,
                board.wf(),
                b == board@,
                p == *position,
                ring@ == king_ring(),
                b.color_at(p) == Some(color),
                list_view(ret@) == king_steps(b, p, danger_zones, i as int),
                all_from(list_view(ret@), p),
            decreases 8 - i,
        {
            let d = ring[i];
            let mut target = p;
            let wc = ChessemblyCompiled::move_anchor(&mut target, &d, board, color);
            proof {
                lemma_no_collision_lands(p, d, color);
            }
            if wc == WallCollision::NoCollision && !ChessemblyCompiled::is_zero_vector(&d) {
                if !color_is(board.color_on(&target), color) && !ChessemblyCompiled::is_danger_bit(
                    danger_zones,
                    target.0,
                    target.1,
                ) {
                    push_move(&mut ret, king_node(p, target, MoveType::TakeMove));
                }
            }
            proof {
                assert(king_steps(b, p, danger_zones, i + 1) =~= king_steps(
                    b,
                    p,
                    danger_zones,
                    i as int,
                ) + king_step(b, p, danger_zones, d));
            }
            i = i + 1;
        }
        let ghost steps = list_view(ret@);
        let side = board.state(color);
        let safe = !ChessemblyCompiled::is_danger_bit(danger_zones, p.0, p.1);
        if side.castling_oo {
            if board.holds(&(7, p.1), "rook") && color_is(board.color_on(&(7, p.1)), color) {
                if board.color_on(&(6, p.1)).is_none() && board.color_on(&(5, p.1)).is_none() {
                    if safe && !ChessemblyCompiled::is_danger_bit(danger_zones, 5, p.1)
                        && !ChessemblyCompiled::is_danger_bit(danger_zones, 6, p.1) {
                        push_move(&mut ret, king_node(p, (6, p.1), MoveType::Castling));
                    }
                }
            }
        }
        let ghost with_short = list_view(ret@);
        if side.castling_ooo {
            if board.holds(&(0, p.1), "rook") && color_is(board.color_on(&(0, p.1)), color) {
                if board.color_on(&(1, p.1)).is_none() && board.color_on(&(2, p.1)).is_none()
                    && board.color_on(&(3, p.1)).is_none() {
                    if safe && !ChessemblyCompiled::is_danger_bit(danger_zones, 3, p.1)
                        && !ChessemblyCompiled::is_danger_bit(danger_zones, 2, p.1) {
                        push_move(&mut ret, king_node(p, (2, p.1), MoveType::Castling));
                    }
                }
            }
        }
        proof {
            assert(with_short =~= steps + (if may_castle_short(b, p, color, danger_zones) {
                seq![king_move(p, (6, p.1), MoveType::Castling)]
            } else {
                Seq::empty()
            }));
            assert(list_view(ret@) =~= king_moves(b, p, danger_zones));
        }
        ret
    }

    /// Appends the one step of the piece on `position` by `delta`, where it
    /// lands on an empty square or on a piece of the other side, and says
    /// whether a slide goes on behind it.
    pub fn generate_ij_abs_take_move(
        &self,
        moves: &mut Vec<ChessMove<'a>>,
        board: &Board<'a>,
        position: &Position,
        delta: &DeltaPosition,
    ) -> (r: bool)
        requires
            board.wf(),
        ensures
            list_view(final(moves)@) == list_view(old(moves)@) + leap(board@, *position, *delta),
            r == leap_goes_on(board@, *position, *delta),
            all_from(list_view(old(moves)@), *position) ==> all_from(
                list_view(final(moves)@),
                *position,
            ),
    {
        proof {
            assert(list_view(moves@) + Seq::<MoveView>::empty() =~= list_view(moves@));
            lemma_no_collision_lands(*position, *delta, Color::White);
        }
        let color = match board.color_on(position) {
            Some(c) => c,
            None => {
                return false;
            },
        };
        let mut anchor = *position;
        let wc = ChessemblyCompiled::move_anchor(&mut anchor, delta, board, color);
        proof {
            lemma_no_collision_lands(*position, *delta, color);
        }
        if wc == WallCollision::NoCollision {
            let there = board.color_on(&anchor);
            if color_is(there, color) {
                false
            } else {
                push_move(moves, plain(*position, anchor, MoveType::TakeMove));
                there.is_none()
            }
        } else {
            false
        }
    }

    /// Appends the slide of the piece on `position` along `delta`: every
    /// empty square up to the first piece, and that piece where it is of the
    /// other side.
    pub fn generate_ij_abs_take_move_slide(
        &self,
        moves: &mut Vec<ChessMove<'a>>,
        board: &Board<'a>,
        position: &Position,
        delta: &DeltaPosition,
    )
        requires
            board.wf(),
        ensures
            list_view(final(moves)@) == list_view(old(moves)@) + slide(
                board@,
                *position,
                *position,
                *delta,
                8,
            ),
            all_from(list_view(old(moves)@), *position) ==> all_from(
                list_view(final(moves)@),
                *position,
            ),
    {
        let ghost b = board@;
        let p = *position;
        let d = *delta;
        proof {
            assert(list_view(moves@) + Seq::<MoveView>::empty() =~= list_view(moves@));
        }
        let color = match board.color_on(position) {
            Some(c) => c,
            None => {
                return ;
            },
        };
        let mut cur = p;
        let mut fuel: u8 = 8;
        let mut going = true;
        while fuel > 0 && going
            invariant
                board.wf(),
                b == board@,
                b.color_at(p) == Some(color),
                fuel <= 8,
                going ==> list_view(moves@) + slide(b, p, cur, d, fuel as nat) == list_view(
                    old(moves)@,
                ) + slide(b, p, p, d, 8),
                !going ==> list_view(moves@) == list_view(old(moves)@) + slide(b, p, p, d, 8),
                all_from(list_view(old(moves)@), p) ==> all_from(list_view(moves@), p),
                all_from(list_view(old(moves)@), p) ==> on_board(p),
            decreases fuel,
        {
            let ghost before = list_view(moves@);
            let mut next = cur;
            let wc = ChessemblyCompiled::move_anchor(&mut next, &d, board, color);
            proof {
                lemma_no_collision_lands(cur, d, color);
                assert(before + Seq::<MoveView>::empty() =~= before);
            }
            if wc != WallCollision::NoCollision {
                going = false;
            } else {
                let there = board.color_on(&next);
                if color_is(there, color) {
                    going = false;
                } else {
                    push_move(moves, plain(p, next, MoveType::TakeMove));
                    proof {
                        let m = plain_move(p, next, MoveType::TakeMove);
                        assert(before + (seq![m] + slide(b, p, next, d, (fuel - 1) as nat))
                            =~= before.push(m) + slide(b, p, next, d, (fuel - 1) as nat));
                        assert(before + seq![m] =~= before.push(m));
                    }
                    if there.is_none() {
                        cur = next;
                    } else {
                        going = false;
                    }
                }
            }
            fuel = fuel - 1;
        }
        proof {
            if going {
                assert(list_view(moves@) + Seq::<MoveView>::empty() =~= list_view(moves@));
            }
        }
    }

    /// The moves of the bishop on `position`: its four diagonal slides.
    pub fn generate_bishop_moves(&self, board: &Board<'a>, position: &Position) -> (r: Vec<
        ChessMove<'a>,
    >)
        requires
            board.wf(),
        ensures
            list_view(r@) == bishop_moves(board@, *position),
            all_from(list_view(r@), *position),
    {
        let mut moves: Vec<ChessMove<'a>> = Vec::new();
        proof {
            assert(list_view(moves@) =~= Seq::empty());
        }
        self.push_slides(&mut moves, board, position, &bishop_dirs());
        proof {
            assert(list_view(moves@) =~= bishop_moves(board@, *position));
        }
        moves
    }

    /// The moves of the rook on `position`: its four slides, which give up
    /// the castling right of the corner that the rook leaves.
    pub fn generate_rook_moves(&self, board: &Board<'a>, position: &Position) -> (r: Vec<
        ChessMove<'a>,
    >)
        requires
            board.wf(),
        ensures
            list_view(r@) == rook_moves(board@, *position),
            all_from(list_view(r@), *position),
    {
        let p = *position;
        let color = match board.color_on(position) {
            Some(c) => c,
            None => {
                let r: Vec<ChessMove<'a>> = Vec::new();
                proof {
                    assert(list_view(r@) =~= Seq::empty());
                }
                return r;
            },
        };
        let first: u8 = match color {
            Color::White => 7,
            Color::Black => 0,
        };
        let mark: Option<&'a str> = if p.1 == first && p.0 == 0 {
            Some("castling-ooo")
        } else if p.1 == first && p.0 == 7 {
            Some("castling-oo")
        } else {
            None
        };
        let mut chains: Vec<BehaviorChain<'a>> = Vec::new();
        chains.push(build_rook_chain(mark, (1, 0)));
        chains.push(build_rook_chain(mark, (-1, 0)));
        chains.push(build_rook_chain(mark, (0, 1)));
        chains.push(build_rook_chain(mark, (0, -1)));
        let program = ChessemblyCompiled { chains };
        proof {
            assert(name_view(mark) == rook_mark(color, p));
            assert(program@ =~= rook_program(rook_mark(color, p)));
        }
        program.run(board, position, 0, false)
    }

    /// The moves of the knight on `position`.
    pub fn generate_knight_moves(&self, board: &Board<'a>, position: &Position) -> (r: Vec<
        ChessMove<'a>,
    >)
        requires
            board.wf(),
        ensures
            list_view(r@) == knight_moves(board@, *position),
            all_from(list_view(r@), *position),
    {
        self.generate_ij_moves(board, position, 2, 1)
    }

    /// The moves of the queen on `position`: its eight slides.
    pub fn generate_queen_moves(&self, board: &Board<'a>, position: &Position) -> (r: Vec<
        ChessMove<'a>,
    >)
        requires
            board.wf(),
        ensures
            list_view(r@) == queen_moves(board@, *position),
            all_from(list_view(r@), *position),
    {
        let mut moves: Vec<ChessMove<'a>> = Vec::new();
        proof {
            assert(list_view(moves@) =~= Seq::empty());
        }
        self.push_slides(&mut moves, board, position, &queen_dirs());
        proof {
            assert(list_view(moves@) =~= queen_moves(board@, *position));
        }
        moves
    }

    /// The moves of the dozer on `position`: to the fan of five squares in
    /// front of it.
    pub fn generate_dozer_moves(&self, board: &Board<'a>, position: &Position) -> (r: Vec<
        ChessMove<'a>,
    >)
        requires
            board.wf(),
        ensures
            list_view(r@) == dozer_moves(board@, *position),
            all_from(list_view(r@), *position),
    {
        let mut moves: Vec<ChessMove<'a>> = Vec::new();
        proof {
            assert(list_view(moves@) =~= Seq::empty());
        }
        match board.color_on(position) {
            Some(c) => {
                self.push_leaps(&mut moves, board, position, &dozer_dirs(c));
                proof {
                    assert(list_view(moves@) =~= dozer_moves(board@, *position));
                }
            },
            None => {},
        }
        moves
    }

    /// The moves of the bouncing bishop on `position`.
    pub fn generate_bouncing_bishop_moves(&self, board: &Board<'a>, position: &Position) -> (r: Vec<
        ChessMove<'a>,
    >)
        requires
            board.wf(),
        ensures
            list_view(r@) == bouncing_bishop_moves(board@, *position),
            all_from(list_view(r@), *position),
    {
        let fs = ChessemblyCompiled::from_script(BOUNCING_BISHOP_SCRIPT);
        match fs {
            Ok(program) => program.run(board, position, 0, false),
            Err(_) => Vec::new(),
        }
    }

    /// The moves of the alfil on `position`.
    pub fn generate_alfil_moves(&self, board: &Board<'a>, position: &Position) -> (r: Vec<
        ChessMove<'a>,
    >)
        requires
            board.wf(),
        ensures
            list_view(r@) == alfil_moves(board@, *position),
            all_from(list_view(r@), *position),
    {
        let mut moves: Vec<ChessMove<'a>> = Vec::new();
        proof {
            assert(list_view(moves@) =~= Seq::empty());
        }
        self.push_leaps(&mut moves, board, position, &alfil_dirs());
        proof {
            assert(list_view(moves@) =~= alfil_moves(board@, *position));
        }
        moves
    }

    /// The moves of a leaper that goes `i` one way and `j` the other.
    pub fn generate_ij_moves(&self, board: &Board<'a>, position: &Position, i: i8, j: i8) -> (r: Vec<
        ChessMove<'a>,
    >)
        requires
            board.wf(),
        ensures
            list_view(r@) == ij_moves(board@, *position, i, j),
            all_from(list_view(r@), *position),
    {
        let mut moves: Vec<ChessMove<'a>> = Vec::new();
        proof {
            assert(list_view(moves@) =~= Seq::empty());
        }
        self.push_leaps(&mut moves, board, position, &ij_dirs(i, j));
        proof {
            assert(list_view(moves@) =~= ij_moves(board@, *position, i, j));
        }
        moves
    }

    /// The moves of the bard on `position`.
    pub fn generate_bard_moves(&self, board: &Board<'a>, position: &Position) -> (r: Vec<
        ChessMove<'a>,
    >)
        requires
            board.wf(),
        ensures
            list_view(r@) == bard_moves(board@, *position),
            all_from(list_view(r@), *position),
    {
        let mut moves: Vec<ChessMove<'a>> = Vec::new();
        proof {
            assert(list_view(moves@) =~= Seq::empty());
        }
        self.push_leaps(&mut moves, board, position, &bard_dirs());
        proof {
            assert(list_view(moves@) =~= bard_moves(board@, *position));
        }
        moves
    }

    /// The moves of the wasp on `position`.
    pub fn generate_wasp_moves(&self, board: &Board<'a>, position: &Position) -> (r: Vec<
        ChessMove<'a>,
    >)
        requires
            board.wf(),
        ensures
            list_view(r@) == wasp_moves(board@, *position),
            all_from(list_view(r@), *position),
    {
        let mut chains: Vec<BehaviorChain<'a>> = Vec::new();
        chains.push(build_repeat_chain(Opcode::TakeMove, (0, 1)));
        chains.push(build_repeat_chain(Opcode::Move, (1, -1)));
        chains.push(build_repeat_chain(Opcode::Move, (-1, -1)));
        let program = ChessemblyCompiled { chains };
        proof {
            assert(program@ =~= wasp_program());
        }
        program.run(board, position, 0, false)
    }

    /// The moves of the amazon on `position`.
    pub fn generate_amazon_moves(&self, board: &Board<'a>, position: &Position) -> (r: Vec<
        ChessMove<'a>,
    >)
        requires
            board.wf(),
        ensures
            list_view(r@) == amazon_moves(board@, *position),
            all_from(list_view(r@), *position),
    {
        let mut moves = self.generate_knight_moves(board, position);
        self.push_slides(&mut moves, board, position, &queen_dirs());
        moves
    }

    /// The moves of the centaur on `position`.
    pub fn generate_centaur_moves(&self, board: &Board<'a>, position: &Position) -> (r: Vec<
        ChessMove<'a>,
    >)
        requires
            board.wf(),
        ensures
            list_view(r@) == centaur_moves(board@, *position),
            all_from(list_view(r@), *position),
    {
        let mut moves = self.generate_knight_moves(board, position);
        self.push_leaps(&mut moves, board, position, &queen_dirs());
        moves
    }

    /// The moves of the archbishop on `position`.
    pub fn generate_archbishop_moves(&self, board: &Board<'a>, position: &Position) -> (r: Vec<
        ChessMove<'a>,
    >)
        requires
            board.wf(),
        ensures
            list_view(r@) == archbishop_moves(board@, *position),
            all_from(list_view(r@), *position),
    {
        let mut moves = self.generate_knight_moves(board, position);
        self.push_slides(&mut moves, board, position, &bishop_dirs());
        moves
    }

    /// The moves of the chancellor on `position`.
    pub fn generate_chancellor_moves(&self, board: &Board<'a>, position: &Position) -> (r: Vec<
        ChessMove<'a>,
    >)
        requires
            board.wf(),
        ensures
            list_view(r@) == chancellor_moves(board@, *position),
            all_from(list_view(r@), *position),
    {
        let mut moves = self.generate_knight_moves(board, position);
        self.push_slides(&mut moves, board, position, &rook_dirs());
        moves
    }

    /// The moves of the cannon on `position`.
    pub fn generate_cannon_moves(&self, board: &Board<'a>, position: &Position) -> (r: Vec<
        ChessMove<'a>,
    >)
        requires
            board.wf(),
        ensures
            list_view(r@) == cannon_moves(board@, *position),
            all_from(list_view(r@), *position),
    {
        let mut chains: Vec<BehaviorChain<'a>> = Vec::new();
        chains.push(build_cannon_capture((1, 0)));
        chains.push(build_cannon_capture((-1, 0)));
        chains.push(build_cannon_capture((0, 1)));
        chains.push(build_cannon_capture((0, -1)));
        chains.push(build_cannon_move((1, 0)));
        chains.push(build_cannon_move((-1, 0)));
        chains.push(build_cannon_move((0, 1)));
        chains.push(build_cannon_move((0, -1)));
        let program = ChessemblyCompiled { chains };
        proof {
            assert(program@ =~= cannon_program());
        }
        program.run(board, position, 0, false)
    }

    /// The moves of the tempest rook on `position`.
    pub fn generate_tempest_rook_moves(&self, board: &Board<'a>, position: &Position) -> (r: Vec<
        ChessMove<'a>,
    >)
        requires
            board.wf(),
        ensures
            list_view(r@) == tempest_rook_moves(board@, *position),
            all_from(list_view(r@), *position),
    {
        let mut chains: Vec<BehaviorChain<'a>> = Vec::new();
        chains.push(build_tempest_chain((1, 1), (1, 0)));
        chains.push(build_tempest_chain((1, 1), (0, 1)));
        chains.push(build_tempest_chain((1, -1), (1, 0)));
        chains.push(build_tempest_chain((1, -1), (0, -1)));
        chains.push(build_tempest_chain((-1, 1), (-1, 0)));
        chains.push(build_tempest_chain((-1, 1), (0, 1)));
        chains.push(build_tempest_chain((-1, -1), (-1, 0)));
        chains.push(build_tempest_chain((-1, -1), (0, -1)));
        let program = ChessemblyCompiled { chains };
        proof {
            assert(program@ =~= tempest_rook_program());
        }
        program.run(board, position, 0, false)
    }

    /// The moves of the chameleon on `position`: its walk, then its
    /// catches.
    pub fn generate_chameleon_moves(&self, board: &Board<'a>, position: &Position) -> (r: Vec<
        ChessMove<'a>,
    >)
        requires
            board.wf(),
        ensures
            list_view(r@) == chameleon_moves(board@, *position),
            all_from(list_view(r@), *position),
    {
        let p = *position;
        let ghost b = board@;
        let program = build_single_steps(Opcode::Move, &queen_dirs());
        let mut moves = program.run(board, position, 0, false);
        let ghost walk = list_view(moves@);
        proof {
            assert(walk + chameleon_catches(b, p, 0) =~= walk);
        }
        let color = match board.color_on(position) {
            Some(c) => c,
            None => {
                proof {
                    lemma_no_catches(b, p, 4);
                    assert(walk + chameleon_catches(b, p, 4) =~= walk);
                }
                return moves;
            },
        };
        let catch_list = alfil_dirs();
        let mut i: usize = 0;
        while i < 4
            invariant
                i <= 4,
                board.wf(),
                b == board@,
                p == *position,
                catch_list@ == alfil_steps(),
                b.color_at(p) == Some(color),
                list_view(moves@) == walk + chameleon_catches(b, p, i as int),
                all_from(list_view(moves@), p),
            decreases 4 - i,
        {
            let d = catch_list[i];
            let ghost before = list_view(moves@);
            let mut anchor = p;
            let wc = ChessemblyCompiled::move_anchor(&mut anchor, &d, board, color);
            proof {
                lemma_no_collision_lands(p, d, color);
                assert(before + Seq::<MoveView>::empty() =~= before);
            }
            if wc == WallCollision::NoCollision {
                match board.square(&anchor) {
                    PieceSpan::Piece(target) => {
                        if target.color == color.invert() {
                            match twin_name(target.piece_type) {
                                Some(twin) => {
                                    push_move(
                                        &mut moves,
                                        ChessMove {
                                            from: p,
                                            take: anchor,
                                            move_to: p,
                                            move_type: MoveType::Catch,
                                            state_change: None,
                                            transition: Some(twin),
                                        },
                                    );
                                },
                                None => {},
                            }
                        }
                    },
                    PieceSpan::Empty => {},
                }
            }
            proof {
                assert(list_view(moves@) == before + chameleon_catch(b, p, d));
                assert(walk + (chameleon_catches(b, p, i as int) + chameleon_catch(b, p, d))
                    =~= before + chameleon_catch(b, p, d));
            }
            i = i + 1;
        }
        moves
    }

    /// The moves of a pawn on `position` that only steps and captures.
    pub fn generate_pseudo_pawn_moves(&self, board: &Board<'a>, position: &Position) -> (r: Vec<
        ChessMove<'a>,
    >)
        requires
            board.wf(),
        ensures
            list_view(r@) == pseudo_pawn_moves(board@, *position),
            all_from(list_view(r@), *position),
    {
        let mut chains: Vec<BehaviorChain<'a>> = Vec::new();
        chains.push(chain_of_one(Behavior::with_delta(Opcode::Move, (0, 1))));
        chains.push(chain_of_one(Behavior::with_delta(Opcode::Take, (1, 1))));
        chains.push(chain_of_one(Behavior::with_delta(Opcode::Take, (-1, 1))));
        let program = ChessemblyCompiled { chains };
        proof {
            assert(program@ =~= pseudo_pawn_program());
        }
        program.run(board, position, 0, false)
    }

    /// The moves of the beacon on `position`: to every square that holds a
    /// piece of its own side other than a pawn or a beacon, row by row.
    pub fn generate_beacon_moves(&self, board: &Board<'a>, position: &Position) -> (r: Vec<
        ChessMove<'a>,
    >)
        requires
            board.wf(),
        ensures
            list_view(r@) == beacon_moves(board@, *position),
            all_from(list_view(r@), *position),
    {
        let mut moves: Vec<ChessMove<'a>> = Vec::new();
        let p = *position;
        let ghost b = board@;
        proof {
            assert(list_view(moves@) =~= Seq::empty());
        }
        let color = match board.color_on(position) {
            Some(c) => c,
            None => {
                return moves;
            },
        };
        let mut i: u8 = 0;
        while i < 64
            invariant
                i <= 64,
                board.wf(),
                b == board@,
                p == *position,
                b.color_at(p) == Some(color),
                list_view(moves@) == beacon_moves_upto(b, p, color, i as int),
                all_from(list_view(moves@), p),
            decreases 64 - i,
        {
            let target: Position = (i % 8, i / 8);
            assert(target == square_at(i as int));
            match board.square(&target) {
                PieceSpan::Piece(piece) => {
                    if piece.color == color && !same_text(piece.piece_type, "pawn") && !same_text(
                        piece.piece_type,
                        "beacon",
                    ) {
                        push_move(
                            &mut moves,
                            ChessMove {
                                from: p,
                                take: p,
                                move_to: target,
                                move_type: MoveType::Shift,
                                state_change: None,
                                transition: None,
                            },
                        );
                    }
                },
                PieceSpan::Empty => {},
            }
            i = i + 1;
        }
        moves
    }

    /// The moves of a rook on `position` that carry no castling right.
    pub fn generate_pseudo_rook_moves(&self, board: &Board<'a>, position: &Position) -> (r: Vec<
        ChessMove<'a>,
    >)
        requires
            board.wf(),
        ensures
            list_view(r@) == crate::chessembly::catalog::pseudo_rook_moves(board@, *position),
            all_from(list_view(r@), *position),
    {
        let mut moves: Vec<ChessMove<'a>> = Vec::new();
        proof {
            assert(list_view(moves@) =~= Seq::empty());
        }
        self.push_slides(&mut moves, board, position, &rook_dirs());
        proof {
            assert(list_view(moves@) =~= pseudo_rook_moves(board@, *position));
        }
        moves
    }

    /// The moves of the windmill rook on `position`.
    pub fn generate_windmill_rook_moves(&self, board: &Board<'a>, position: &Position) -> (r: Vec<
        ChessMove<'a>,
    >)
        requires
            board.wf(),
        ensures
            list_view(r@) == windmill_rook_moves(board@, *position),
            all_from(list_view(r@), *position),
    {
        let fs = ChessemblyCompiled::from_script(WINDMILL_ROOK_SCRIPT);
        match fs {
            Ok(program) => program.run(board, position, 0, false),
            Err(_) => Vec::new(),
        }
    }

    /// The moves of the windmill bishop on `position`.
    pub fn generate_windmill_bishop_moves(&self, board: &Board<'a>, position: &Position) -> (r: Vec<
        ChessMove<'a>,
    >)
        requires
            board.wf(),
        ensures
            list_view(r@) == windmill_bishop_moves(board@, *position),
            all_from(list_view(r@), *position),
    {
        let fs = ChessemblyCompiled::from_script(WINDMILL_BISHOP_SCRIPT);
        match fs {
            Ok(program) => program.run(board, position, 0, false),
            Err(_) => Vec::new(),
        }
    }

    /// The moves of a mirrored piece of the kind `piece` on `position`.
    pub fn generate_mirrored_moves(&self, board: &Board<'a>, position: &Position, piece: &str) -> (r:
        Vec<ChessMove<'a>>)
        requires
            board.wf(),
        ensures
            list_view(r@) == mirrored_moves(board@, *position, piece@),
            all_from(list_view(r@), *position),
    {
        let ghost b = board@;
        let p = *position;
        let base: Vec<ChessMove<'a>> = if same_text(piece, "mirrored-pawn") {
            self.generate_pseudo_pawn_moves(board, position)
        } else if same_text(piece, "mirrored-bishop") {
            self.generate_bishop_moves(board, position)
        } else if same_text(piece, "mirrored-rook") {
            self.generate_pseudo_rook_moves(board, position)
        } else if same_text(piece, "mirrored-knight") {
            self.generate_knight_moves(board, position)
        } else if same_text(piece, "mirrored-queen") {
            self.generate_queen_moves(board, position)
        } else {
            let e: Vec<ChessMove<'a>> = Vec::new();
            proof {
                assert(list_view(e@) =~= Seq::empty());
            }
            e
        };
        let mut out: Vec<ChessMove<'a>> = Vec::new();
        let color = match board.color_on(position) {
            Some(c) => c,
            None => {
                proof {
                    assert(list_view(out@) =~= Seq::empty());
                }
                return out;
            },
        };
        let enemy = color.invert();
        let ghost views = list_view(base@);
        let mut i: usize = 0;
        while i < base.len()
            invariant
                i <= base@.len(),
                board.wf(),
                b == board@,
                views == list_view(base@),
                views == mirrored_base(b, p, piece@),
                all_from(views, p),
                enemy == color.inverted(),
                out@.len() == i,
                forall|k: int| 0 <= k < i ==> (#[trigger] out@[k])@ == mirrored_move(b, color, views[k]),
            decreases base@.len() - i,
        {
            let node = &base[i];
            proof {
                assert(views[i as int] == node@);
            }
            let twin: Option<&'a str> = match board.square(&node.take) {
                PieceSpan::Piece(target) => {
                    if target.color == enemy {
                        twin_name(target.piece_type)
                    } else {
                        None
                    }
                },
                PieceSpan::Empty => None,
            };
            let next = match twin {
                Some(t) => ChessMove {
                    from: node.from,
                    take: node.take,
                    move_to: node.move_to,
                    move_type: node.move_type,
                    state_change: None,
                    transition: Some(t),
                },
                None => node.duplicate(),
            };
            out.push(next);
            i = i + 1;
        }
        proof {
            assert(list_view(out@) =~= mirrored_moves(b, p, piece@));
            assert forall|k: int| 0 <= k < list_view(out@).len() implies (#[trigger] list_view(
                out@,
            )[k]).from == p && list_view(out@)[k].in_bounds() by {
                assert(views[k].from == p && views[k].in_bounds());
            }
        }
        out
    }

    /// Appends the steps of a leaper on `position`, one for each of `steps`.
    fn push_leaps(
        &self,
        moves: &mut Vec<ChessMove<'a>>,
        board: &Board<'a>,
        position: &Position,
        steps: &Vec<DeltaPosition>,
    )
        requires
            board.wf(),
        ensures
            list_view(final(moves)@) == list_view(old(moves)@) + leaps(
                board@,
                *position,
                steps@,
                steps@.len() as int,
            ),
            all_from(list_view(old(moves)@), *position) ==> all_from(
                list_view(final(moves)@),
                *position,
            ),
    {
        let ghost b = board@;
        let ghost start = list_view(moves@);
        let mut i: usize = 0;
        proof {
            assert(start + leaps(b, *position, steps@, 0) =~= start);
        }
        while i < steps.len()
            invariant
                i <= steps@.len(),
                board.wf(),
                b == board@,
                start == list_view(old(moves)@),
                list_view(moves@) == start + leaps(b, *position, steps@, i as int),
                all_from(start, *position) ==> all_from(list_view(moves@), *position),
            decreases steps@.len() - i,
        {
            let ghost before = list_view(moves@);
            self.generate_ij_abs_take_move(moves, board, position, &steps[i]);
            proof {
                assert(start + (leaps(b, *position, steps@, i as int) + leap(
                    b,
                    *position,
                    steps@[i as int],
                )) =~= before + leap(b, *position, steps@[i as int]));
            }
            i = i + 1;
        }
    }

    /// Appends the slides of a rider on `position`, one along each of
    /// `steps`.
    fn push_slides(
        &self,
        moves: &mut Vec<ChessMove<'a>>,
        board: &Board<'a>,
        position: &Position,
        steps: &Vec<DeltaPosition>,
    )
        requires
            board.wf(),
        ensures
            list_view(final(moves)@) == list_view(old(moves)@) + slides(
                board@,
                *position,
                steps@,
                steps@.len() as int,
            ),
            all_from(list_view(old(moves)@), *position) ==> all_from(
                list_view(final(moves)@),
                *position,
            ),
    {
        let ghost b = board@;
        let ghost start = list_view(moves@);
        let mut i: usize = 0;
        proof {
            assert(start + slides(b, *position, steps@, 0) =~= start);
        }
        while i < steps.len()
            invariant
                i <= steps@.len(),
                board.wf(),
                b == board@,
                start == list_view(old(moves)@),
                list_view(moves@) == start + slides(b, *position, steps@, i as int),
                all_from(start, *position) ==> all_from(list_view(moves@), *position),
            decreases steps@.len() - i,
        {
            let ghost before = list_view(moves@);
            self.generate_ij_abs_take_move_slide(moves, board, position, &steps[i]);
            proof {
                assert(start + (slides(b, *position, steps@, i as int) + slide(
                    b,
                    *position,
                    *position,
                    steps@[i as int],
                    8,
                )) =~= before + slide(b, *position, *position, steps@[i as int], 8));
            }
            i = i + 1;
        }
    }
}

/// A king's move, which gives up both castling rights.
fn king_node<'a>(from: Position, to: Position, ty: MoveType) -> (r: ChessMove<'a>)
    ensures
        r@ == king_move(from, to, ty),
{
    let mut changes: Vec<(&'a str, u8)> = Vec::new();
    changes.push(("castling-oo", 0));
    changes.push(("castling-ooo", 0));
    proof {
        assert(changes_view(changes@) =~= king_changes());
    }
    ChessMove {
        from,
        take: to,
        move_to: to,
        move_type: ty,
        state_change: Some(changes),
        transition: None,
    }
}

/// Appends a pawn's arrival on `to`.
fn push_arrival<'a>(
    moves: &mut Vec<ChessMove<'a>>,
    from: Position,
    to: Position,
    ty: MoveType,
    promotes: bool,
)
    ensures
        list_view(final(moves)@) == list_view(old(moves)@) + crate::chessembly::catalog::pawn_arrival(
            from,
            to,
            ty,
            promotes,
        ),
        on_board(from) && on_board(to) && all_from(list_view(old(moves)@), from) ==> all_from(
            list_view(final(moves)@),
            from,
        ),
{
    let ghost before = list_view(moves@);
    if promotes {
        push_move(moves, turning(from, to, ty, "knight"));
        push_move(moves, turning(from, to, ty, "bishop"));
        push_move(moves, turning(from, to, ty, "rook"));
        push_move(moves, turning(from, to, ty, "queen"));
        proof {
            assert(list_view(moves@) =~= before + crate::chessembly::catalog::promotions(
                from,
                to,
                ty,
            ));
        }
    } else {
        push_move(moves, plain(from, to, ty));
    }
}

fn is_white(color: Color) -> (r: bool)
    ensures
        r == (color == Color::White),
{
    match color {
        Color::White => true,
        Color::Black => false,
    }
}

/// Appends a pawn's steps straight on.
fn push_pawn_pushes<'a>(moves: &mut Vec<ChessMove<'a>>, board: &Board<'a>, p: Position, color: Color)
    requires
        board.wf(),
        crate::chessembly::catalog::pawn_has_ahead(color, p),
    ensures
        list_view(final(moves)@) == list_view(old(moves)@) + crate::chessembly::catalog::pawn_pushes(
            board@,
            p,
            color,
        ),
        all_from(list_view(old(moves)@), p) ==> all_from(list_view(final(moves)@), p),
{
    let ghost before = list_view(moves@);
    let white = is_white(color);
    let home: u8 = if white { 6 } else { 1 };
    let last: u8 = if white { 1 } else { 6 };
    let step1: u8 = if white { p.1 - 1 } else { p.1 + 1 };
    if board.color_on(&(p.0, step1)).is_none() {
        push_arrival(moves, p, (p.0, step1), MoveType::Move, p.1 == last);
        let ghost arrived = list_view(moves@);
        let step2: u8 = if white { 4 } else { 3 };
        if p.1 == home && board.color_on(&(p.0, step2)).is_none() {
            let mut mark: Vec<(&'a str, u8)> = Vec::new();
            mark.push(("enpassant", 1));
            proof {
                assert(changes_view(mark@) =~= enpassant_mark());
            }
            push_move(
                moves,
                ChessMove {
                    from: p,
                    take: (p.0, step2),
                    move_to: (p.0, step2),
                    move_type: MoveType::Move,
                    state_change: Some(mark),
                    transition: None,
                },
            );
        }
        proof {
            assert(arrived + Seq::<MoveView>::empty() =~= arrived);
            assert(list_view(moves@) =~= before + crate::chessembly::catalog::pawn_pushes(
                board@,
                p,
                color,
            ));
        }
    } else {
        proof {
            assert(before + Seq::<MoveView>::empty() =~= before);
        }
    }
}

/// Appends a pawn's capture in passing of the pawn on the file `x`.
fn push_pawn_passes_to<'a>(
    moves: &mut Vec<ChessMove<'a>>,
    board: &Board<'a>,
    p: Position,
    color: Color,
    x: u8,
)
    requires
        board.wf(),
        crate::chessembly::catalog::pawn_has_ahead(color, p),
    ensures
        list_view(final(moves)@) == list_view(old(moves)@)
            + crate::chessembly::catalog::pawn_passes_to(board@, p, color, x),
        on_board((x, p.1)) && all_from(list_view(old(moves)@), p) ==> all_from(
            list_view(final(moves)@),
            p,
        ),
{
    let ghost before = list_view(moves@);
    let white = is_white(color);
    let step1: u8 = if white { p.1 - 1 } else { p.1 + 1 };
    if board.state(color.invert()).has_enpassant(&(x, p.1)) {
        push_move(
            moves,
            ChessMove {
                from: p,
                take: (x, p.1),
                move_to: (x, step1),
                move_type: MoveType::TakeJump,
                state_change: None,
                transition: None,
            },
        );
    } else {
        proof {
            assert(before + Seq::<MoveView>::empty() =~= before);
        }
    }
}

/// Appends a pawn's captures in passing.
fn push_pawn_passing<'a>(moves: &mut Vec<ChessMove<'a>>, board: &Board<'a>, p: Position, color: Color)
    requires
        board.wf(),
        crate::chessembly::catalog::pawn_has_ahead(color, p),
    ensures
        list_view(final(moves)@) == list_view(old(moves)@)
            + crate::chessembly::catalog::pawn_passing_moves(board@, p, color),
        all_from(list_view(old(moves)@), p) ==> all_from(list_view(final(moves)@), p),
{
    let ghost before = list_view(moves@);
    let white = is_white(color);
    let passing_rank: u8 = if white { 3 } else { 4 };
    if p.1 == passing_rank {
        if p.0 > 0 {
            push_pawn_passes_to(moves, board, p, color, p.0 - 1);
        }
        let ghost left = list_view(moves@);
        if p.0 < 7 {
            push_pawn_passes_to(moves, board, p, color, p.0 + 1);
        }
        proof {
            assert(before + Seq::<MoveView>::empty() =~= before);
            assert(left + Seq::<MoveView>::empty() =~= left);
            assert(list_view(moves@) =~= before + crate::chessembly::catalog::pawn_passing_moves(
                board@,
                p,
                color,
            ));
        }
    } else {
        proof {
            assert(before + Seq::<MoveView>::empty() =~= before);
        }
    }
}

/// Appends a pawn's capture on the file `x`.
fn push_pawn_capture<'a>(
    moves: &mut Vec<ChessMove<'a>>,
    board: &Board<'a>,
    p: Position,
    color: Color,
    x: u8,
)
    requires
        board.wf(),
        crate::chessembly::catalog::pawn_has_ahead(color, p),
    ensures
        list_view(final(moves)@) == list_view(old(moves)@)
            + crate::chessembly::catalog::pawn_capture(board@, p, color, x),
        on_board((x, p.1)) && all_from(list_view(old(moves)@), p) ==> all_from(
            list_view(final(moves)@),
            p,
        ),
{
    let ghost before = list_view(moves@);
    let white = is_white(color);
    let last: u8 = if white { 1 } else { 6 };
    let step1: u8 = if white { p.1 - 1 } else { p.1 + 1 };
    if color_is(board.color_on(&(x, step1)), color.invert()) {
        push_arrival(moves, p, (x, step1), MoveType::Take, p.1 == last);
    } else {
        proof {
            assert(before + Seq::<MoveView>::empty() =~= before);
        }
    }
}

/// Appends a pawn's captures.
fn push_pawn_captures<'a>(moves: &mut Vec<ChessMove<'a>>, board: &Board<'a>, p: Position, color: Color)
    requires
        board.wf(),
        crate::chessembly::catalog::pawn_has_ahead(color, p),
    ensures
        list_view(final(moves)@) == list_view(old(moves)@)
            + crate::chessembly::catalog::pawn_captures(board@, p, color),
        all_from(list_view(old(moves)@), p) ==> all_from(list_view(final(moves)@), p),
{
    let ghost before = list_view(moves@);
    if p.0 > 0 {
        push_pawn_capture(moves, board, p, color, p.0 - 1);
    }
    let ghost left = list_view(moves@);
    if p.0 < 7 {
        push_pawn_capture(moves, board, p, color, p.0 + 1);
    }
    proof {
        assert(before + Seq::<MoveView>::empty() =~= before);
        assert(left + Seq::<MoveView>::empty() =~= left);
        assert(list_view(moves@) =~= before + crate::chessembly::catalog::pawn_captures(
            board@,
            p,
            color,
        ));
    }
}

/// Where no piece stands, a chameleon catches nothing.
proof fn lemma_no_catches(b: crate::chessembly::board::BoardView, p: Position, n: int)
    requires
        b.color_at(p) is None,
    ensures
        chameleon_catches(b, p, n) == Seq::<MoveView>::empty(),
    decreases n,
{
    if n > 0 {
        lemma_no_catches(b, p, n - 1);
        assert(chameleon_catches(b, p, n - 1) + chameleon_catch(b, p, alfil_steps()[n - 1])
            =~= Seq::<MoveView>::empty());
    }
}

} // verus!
