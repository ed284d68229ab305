//! The moves of a position: the memoised moves of each piece, the squares
//! that a side attacks, check, and the filter that the mode of the game
//! asks for.

use vstd::prelude::*;
use crate::chessembly::board::Board;
use crate::chessembly::catalog::{is_built_in, piece_moves};
use crate::chessembly::interp::king_in_mask;
use crate::chessembly::legal_laws::lemma_mask_bit;
use crate::chessembly::machine::danger_bit;
use crate::chessembly::rules::{
    all_moves, attack_mask, attacked_by, blind_all_upto, blind_mask, blind_moves, check_filter,
    danger_zones, in_check, legal_all_upto, legal_filter, legal_moves, macho_filter, mask_of,
    program_moves, pseudo_moves, quiet_all, quiet_all_upto, quiet_check, quiet_moves, quiet_square,
};
use crate::chessembly::script::ChessemblyCompiled;
use crate::chessembly::{
    all_from, append_moves, ChessMove, Color, color_is, distinct_targets, lemma_list_view_push,
    list_view, MoveType, MoveView, on_board, PieceSpan, Position, square_at,
};
use crate::text::same_text;

verus! {

/// Every move of the list stays on the board.
pub open spec fn all_in_bounds(l: Seq<MoveView>) -> bool {
    forall|i: int| 0 <= i < l.len() ==> (#[trigger] l[i]).in_bounds()
}

/// Whether the catalog moves a kind itself.
fn built_in(kind: &str) -> (r: bool)
    ensures
        r == is_built_in(kind@),
{
    same_text(kind, "pawn") || same_text(kind, "king") || same_text(kind, "rook") || same_text(
        kind,
        "knight",
    ) || same_text(kind, "bishop") || same_text(kind, "queen") || same_text(kind, "tempest-rook")
        || same_text(kind, "bouncing-bishop") || same_text(kind, "dozer") || same_text(
        kind,
        "alfil",
    ) || same_text(kind, "bard") || same_text(kind, "wasp") || same_text(kind, "amazon")
        || same_text(kind, "chancellor") || same_text(kind, "archbishop") || same_text(
        kind,
        "centaur",
    ) || same_text(kind, "zebra") || same_text(kind, "giraffe") || same_text(kind, "camel")
        || same_text(kind, "beacon") || same_text(kind, "chameleon") || same_text(
        kind,
        "mirrored-pawn",
    ) || same_text(kind, "mirrored-bishop") || same_text(kind, "mirrored-rook") || same_text(
        kind,
        "mirrored-knight",
    ) || same_text(kind, "mirrored-queen") || same_text(kind, "windmill-rook") || same_text(
        kind,
        "windmill-bishop",
    )
}

/// The moves that the forward-only mode lets stand.
fn macho_filtered<'a>(nodes: &Vec<ChessMove<'a>>, board: &Board<'a>) -> (r: Vec<ChessMove<'a>>)
    requires
        board.wf(),
    ensures
        list_view(r@) == macho_filter(board@, list_view(nodes@)),
        all_in_bounds(list_view(nodes@)) ==> all_in_bounds(list_view(r@)),
{
    let ghost b = board@;
    let ghost views = list_view(nodes@);
    let mut ret: Vec<ChessMove<'a>> = Vec::new();
    let mut i: usize = 0;
    proof {
        assert(views.take(0) =~= Seq::empty());
        assert(list_view(ret@) =~= Seq::empty());
    }
    while i < nodes.len()
        invariant
            i <= nodes@.len(),
            board.wf(),
            b == board@,
            views == list_view(nodes@),
            list_view(ret@) == macho_filter(b, views.take(i as int)),
            all_in_bounds(views) ==> all_in_bounds(list_view(ret@)),
        decreases nodes@.len() - i,
    {
        let node = &nodes[i];
        proof {
            assert(views.take(i + 1).drop_last() =~= views.take(i as int));
            assert(views.take(i + 1).last() == node@);
            assert(views[i as int] == node@);
        }
        match board.color_on(&node.from) {
            Some(color) => {
                let white = match color {
                    Color::White => true,
                    Color::Black => false,
                };
                if (!white && node.from.1 < node.move_to.1) || (white && node.from.1
                    > node.move_to.1) {
                    let kept = node.duplicate();
                    proof {
                        lemma_list_view_push(ret@, kept);
                    }
                    ret.push(kept);
                } else if node.from.1 == node.move_to.1 && color_is(
                    board.color_on(&node.take),
                    color.invert(),
                ) {
                    let copy = node.duplicate();
                    let kept = ChessMove {
                        from: copy.from,
                        take: copy.take,
                        move_to: copy.move_to,
                        move_type: MoveType::Take,
                        state_change: copy.state_change,
                        transition: copy.transition,
                    };
                    proof {
                        lemma_list_view_push(ret@, kept);
                    }
                    ret.push(kept);
                }
            },
            None => {},
        }
        i = i + 1;
    }
    proof {
        assert(views.take(nodes@.len() as int) =~= views);
    }
    ret
}

/// The capture squares of the moves that attack.
fn zones_of<'a>(all: &Vec<ChessMove<'a>>) -> (r: Vec<Position>)
    requires
        all_in_bounds(list_view(all@)),
    ensures
        r@ == danger_zones(list_view(all@)),
        forall|i: int| 0 <= i < r@.len() ==> on_board(#[trigger] r@[i]),
{
    let ghost views = list_view(all@);
    let mut zones: Vec<Position> = Vec::new();
    let mut i: usize = 0;
    proof {
        assert(views.take(0) =~= Seq::empty());
    }
    while i < all.len()
        invariant
            i <= all@.len(),
            views == list_view(all@),
            all_in_bounds(views),
            zones@ == danger_zones(views.take(i as int)),
            forall|k: int| 0 <= k < zones@.len() ==> on_board(#[trigger] zones@[k]),
        decreases all@.len() - i,
    {
        let node = &all[i];
        proof {
            assert(views.take(i + 1).drop_last() =~= views.take(i as int));
            assert(views.take(i + 1).last() == node@);
            assert(views[i as int].in_bounds());
        }
        let threat = match node.move_type {
            MoveType::Take | MoveType::TakeMove | MoveType::TakeJump | MoveType::Catch => true,
            _ => false,
        };
        if threat {
            zones.push(node.take);
        }
        i = i + 1;
    }
    proof {
        assert(views.take(all@.len() as int) =~= views);
    }
    zones
}

/// The mask with the bits of the given squares.
fn mask_from(zones: &Vec<Position>) -> (r: u64)
    requires
        forall|i: int| 0 <= i < zones@.len() ==> on_board(#[trigger] zones@[i]),
    ensures
        r == mask_of(zones@),
        forall|p: Position|
            #![trigger danger_bit(r, p)]
            danger_bit(r, p) <==> on_board(p) && zones@.contains(p),
{
    let mut ret: u64 = 0;
    let mut i: usize = 0;
    proof {
        assert(zones@.take(0) =~= Seq::empty());
    }
    while i < zones.len()
        invariant
            i <= zones@.len(),
            forall|k: int| 0 <= k < zones@.len() ==> on_board(#[trigger] zones@[k]),
            ret == mask_of(zones@.take(i as int)),
        decreases zones@.len() - i,
    {
        let p = zones[i];
        proof {
            assert(zones@.take(i + 1).drop_last() =~= zones@.take(i as int));
            assert(zones@.take(i + 1).last() == p);
            assert(on_board(zones@[i as int]));
        }
        let k: u8 = 8 * p.1 + p.0;
        ret = ret | (1u64 << (k as u64));
        i = i + 1;
    }
    proof {
        assert(zones@.take(zones@.len() as int) =~= zones@);
        assert forall|p: Position| #![trigger danger_bit(ret, p)] danger_bit(ret, p) <==> on_board(
            p,
        ) && zones@.contains(p) by {
            lemma_mask_bit(zones@, p);
        }
    }
    ret
}

/// The generator of the moves of a whole side.
pub struct MoveGen {}

impl MoveGen {
    /// The moves of all pieces of `turn`, square by square from the top
    /// row: with `check_danger` the legal ones, without it the quiet ones,
    /// which the forward-only mode still filters.
    pub fn get_all_moves<'a>(board: &mut Board<'a>, turn: Color, check_danger: bool) -> (r: Vec<
        ChessMove<'a>,
    >)
        requires
            old(board).wf(),
        ensures
            final(board).wf(),
            final(board)@ == old(board)@,
            final(board).remembers_all_of(*old(board)),
            list_view(r@) == all_moves(old(board)@, turn, check_danger),
            all_in_bounds(list_view(r@)),
    {
        if !check_danger {
            return quiet_all_of(board, turn);
        }
        let ghost b = board@;
        let script = board.script();
        let mut ret: Vec<ChessMove<'a>> = Vec::new();
        let mut i: u8 = 0;
        proof {
            assert(list_view(ret@) =~= Seq::empty());
        }
        while i < 64
            invariant
                i <= 64,
                board.wf(),
                board@ == b,
                board.remembers_all_of(*old(board)),
                script@ == b.program,
                list_view(ret@) == legal_all_upto(b, turn, i as int),
                all_in_bounds(list_view(ret@)),
            decreases 64 - i,
        {
            let p: Position = (i % 8, i / 8);
            assert(p == square_at(i as int));
            let ghost before = list_view(ret@);
            if color_is(board.color_on(&p), turn) {
                let a = script.get_moves(board, &p, true);
                let legal = script.filter_nodes(a, board);
                append_moves(&mut ret, &legal);
            } else {
                proof {
                    assert(before + Seq::<MoveView>::empty() =~= before);
                }
            }
            i = i + 1;
        }
        ret
    }

    /// Whether `turn` has a move at all.
    pub fn has_any_moves<'a>(board: &mut Board<'a>, turn: Color, check_danger: bool) -> (r: bool)
        requires
            old(board).wf(),
        ensures
            final(board).wf(),
            final(board)@ == old(board)@,
            final(board).remembers_all_of(*old(board)),
            r == (all_moves(old(board)@, turn, check_danger).len() > 0),
    {
        let ghost b = board@;
        let script = board.script();
        let mut i: u8 = 0;
        while i < 64
            invariant
                i <= 64,
                board.wf(),
                board@ == b,
                board.remembers_all_of(*old(board)),
                script@ == b.program,
                b == old(board)@,
                check_danger ==> legal_all_upto(b, turn, i as int).len() == 0,
                !check_danger ==> quiet_all_upto(b, turn, i as int).len() == 0,
            decreases 64 - i,
        {
            let p: Position = (i % 8, i / 8);
            assert(p == square_at(i as int));
            if color_is(board.color_on(&p), turn) {
                if check_danger {
                    let a = script.get_moves(board, &p, true);
                    let legal = script.filter_nodes(a, board);
                    if legal.len() > 0 {
                        proof {
                            lemma_legal_grows(b, turn, i + 1, 64);
                        }
                        return true;
                    }
                } else {
                    let quiet = quiet_square_of(board, &p);
                    if quiet.len() > 0 {
                        proof {
                            lemma_quiet_grows(b, turn, i + 1, 64);
                        }
                        return true;
                    }
                }
            }
            i = i + 1;
        }
        false
    }

    /// The legal moves of the side that is to move.
    pub fn new_legal<'a>(board: &mut Board<'a>) -> (r: Vec<ChessMove<'a>>)
        requires
            old(board).wf(),
        ensures
            final(board).wf(),
            final(board)@ == old(board)@,
            final(board).remembers_all_of(*old(board)),
            list_view(r@) == legal_moves(old(board)@),
            all_in_bounds(list_view(r@)),
    {
        let turn = board.side_to_move();
        MoveGen::get_all_moves(board, turn, true)
    }

    /// The squares that `enemy` attacks: the capture squares of its quiet
    /// moves that capture, in the order of the moves.
    pub fn get_danger_zones(board: &mut Board, enemy: Color) -> (r: Vec<Position>)
        requires
            old(board).wf(),
        ensures
            final(board).wf(),
            final(board)@ == old(board)@,
            final(board).remembers_all_of(*old(board)),
            r@ == attacked_by(old(board)@, enemy),
            forall|i: int| 0 <= i < r@.len() ==> on_board(#[trigger] r@[i]),
    {
        let all = quiet_all_of(board, enemy);
        zones_of(&all)
    }

    /// The squares that `enemy` attacks as a mask: bit `8 * y + x` is set
    /// exactly when the square `(x, y)` is attacked.
    pub fn get_danger_zones_bit(board: &mut Board, enemy: Color) -> (r: u64)
        requires
            old(board).wf(),
        ensures
            final(board).wf(),
            final(board)@ == old(board)@,
            final(board).remembers_all_of(*old(board)),
            r == attack_mask(old(board)@, enemy),
            forall|p: Position|
                #![trigger danger_bit(r, p)]
                danger_bit(r, p) <==> on_board(p) && attacked_by(old(board)@, enemy).contains(p),
    {
        let zones = MoveGen::get_danger_zones(board, enemy);
        mask_from(&zones)
    }
}

/// The blind moves of the piece on `position`, from the memo where it has
/// them.
fn blind_moves_of<'a>(board: &mut Board<'a>, position: &Position) -> (r: Vec<ChessMove<'a>>)
    requires
        old(board).wf(),
    ensures
        final(board).wf(),
        final(board)@ == old(board)@,
        final(board).remembers_all_of(*old(board)),
        list_view(r@) == blind_moves(old(board)@, *position),
        all_from(list_view(r@), *position),
        on_board(*position) ==> final(board).remembers(*position, 0),
{
    match board.cached(position, 0) {
        Some(v) => {
            return v;
        },
        None => {},
    }
    let script = board.script();
    let ret = script.moves_by_kind(board, position, 0, false);
    board.remember(position, 0, &ret);
    ret
}

/// The squares on which a blind move of `color` captures, as a mask.
fn blind_mask_of<'a>(board: &mut Board<'a>, color: Color) -> (r: u64)
    requires
        old(board).wf(),
    ensures
        final(board).wf(),
        final(board)@ == old(board)@,
        final(board).remembers_all_of(*old(board)),
        r == blind_mask(old(board)@, color),
{
    let ghost b = board@;
    let mut all: Vec<ChessMove<'a>> = Vec::new();
    let mut i: u8 = 0;
    proof {
        assert(list_view(all@) =~= Seq::empty());
    }
    while i < 64
        invariant
            i <= 64,
            board.wf(),
            board@ == b,
            board.remembers_all_of(*old(board)),
            list_view(all@) == blind_all_upto(b, color, i as int),
            all_in_bounds(list_view(all@)),
        decreases 64 - i,
    {
        let p: Position = (i % 8, i / 8);
        assert(p == square_at(i as int));
        let ghost before = list_view(all@);
        if color_is(board.color_on(&p), color) {
            let blind = blind_moves_of(board, &p);
            if board.is_macho() {
                let kept = macho_filtered(&blind, board);
                append_moves(&mut all, &kept);
            } else {
                append_moves(&mut all, &blind);
            }
        } else {
            proof {
                assert(before + Seq::<MoveView>::empty() =~= before);
            }
        }
        i = i + 1;
    }
    let zones = zones_of(&all);
    mask_from(&zones)
}

/// Whether a blind move of the other side reaches a king of `color`.
fn quiet_check_of<'a>(board: &mut Board<'a>, color: Color) -> (r: bool)
    requires
        old(board).wf(),
    ensures
        final(board).wf(),
        final(board)@ == old(board)@,
        final(board).remembers_all_of(*old(board)),
        r == quiet_check(old(board)@, color),
{
    let mask = blind_mask_of(board, color.invert());
    king_in_mask(board, color, mask)
}

/// The quiet moves of the piece on `position`, from the memo where it has
/// them.
fn quiet_moves_of<'a>(board: &mut Board<'a>, position: &Position) -> (r: Vec<ChessMove<'a>>)
    requires
        old(board).wf(),
    ensures
        final(board).wf(),
        final(board)@ == old(board)@,
        final(board).remembers_all_of(*old(board)),
        list_view(r@) == quiet_moves(old(board)@, *position),
        all_from(list_view(r@), *position),
        old(board)@.at(*position) is Occupied ==> final(board).remembers(*position, 1),
{
    match board.cached(position, 1) {
        Some(v) => {
            return v;
        },
        None => {},
    }
    let (kind, color) = match board.square(position) {
        PieceSpan::Piece(p) => (p.piece_type, p.color),
        PieceSpan::Empty => {
            let e: Vec<ChessMove<'a>> = Vec::new();
            proof {
                assert(list_view(e@) =~= Seq::empty());
            }
            return e;
        },
    };
    let checked = if built_in(kind) {
        false
    } else {
        quiet_check_of(board, color)
    };
    let script = board.script();
    let ret = script.moves_by_kind(board, position, 0, checked);
    proof {
        reveal(piece_moves);
    }
    board.remember(position, 1, &ret);
    ret
}

/// The quiet moves of the piece on `position` as the mode lets them stand.
fn quiet_square_of<'a>(board: &mut Board<'a>, position: &Position) -> (r: Vec<ChessMove<'a>>)
    requires
        old(board).wf(),
    ensures
        final(board).wf(),
        final(board)@ == old(board)@,
        final(board).remembers_all_of(*old(board)),
        list_view(r@) == quiet_square(old(board)@, *position),
        all_in_bounds(list_view(r@)),
{
    let a = quiet_moves_of(board, position);
    if board.is_macho() {
        macho_filtered(&a, board)
    } else {
        a
    }
}

/// The quiet moves of all pieces of `color`.
fn quiet_all_of<'a>(board: &mut Board<'a>, color: Color) -> (r: Vec<ChessMove<'a>>)
    requires
        old(board).wf(),
    ensures
        final(board).wf(),
        final(board)@ == old(board)@,
        final(board).remembers_all_of(*old(board)),
        list_view(r@) == quiet_all(old(board)@, color),
        all_in_bounds(list_view(r@)),
{
    let ghost b = board@;
    let mut ret: Vec<ChessMove<'a>> = Vec::new();
    let mut i: u8 = 0;
    proof {
        assert(list_view(ret@) =~= Seq::empty());
    }
    while i < 64
        invariant
            i <= 64,
            board.wf(),
            board@ == b,
            board.remembers_all_of(*old(board)),
            list_view(ret@) == quiet_all_upto(b, color, i as int),
            all_in_bounds(list_view(ret@)),
        decreases 64 - i,
    {
        let p: Position = (i % 8, i / 8);
        assert(p == square_at(i as int));
        let ghost before = list_view(ret@);
        if color_is(board.color_on(&p), color) {
            let quiet = quiet_square_of(board, &p);
            append_moves(&mut ret, &quiet);
        } else {
            proof {
                assert(before + Seq::<MoveView>::empty() =~= before);
            }
        }
        i = i + 1;
    }
    ret
}

proof fn lemma_quiet_grows(b: crate::chessembly::board::BoardView, color: Color, n: int, m: int)
    requires
        n <= m,
    ensures
        quiet_all_upto(b, color, n).len() <= quiet_all_upto(b, color, m).len(),
    decreases m - n,
{
    if n < m {
        lemma_quiet_grows(b, color, n, m - 1);
    }
}

proof fn lemma_legal_grows(b: crate::chessembly::board::BoardView, color: Color, n: int, m: int)
    requires
        n <= m,
    ensures
        legal_all_upto(b, color, n).len() <= legal_all_upto(b, color, m).len(),
    decreases m - n,
{
    if n < m {
        lemma_legal_grows(b, color, n, m - 1);
    }
}

impl<'a> ChessemblyCompiled<'a> {
    /// The moves of the piece on `position` by its kind. `danger` marks the
    /// squares that the other side attacks, and `checked` says whether the
    /// piece's side is in check. `self` is the board's own program.
    pub fn moves_by_kind(&self, board: &Board<'a>, position: &Position, danger: u64, checked: bool) -> (r:
        Vec<ChessMove<'a>>)
        requires
            board.wf(),
            self@ == board@.program,
        ensures
            list_view(r@) == piece_moves(board@, *position, danger, checked),
            all_from(list_view(r@), *position),
    {
        proof {
            reveal(piece_moves);
        }
        let kind = match board.piece_on(position) {
            Some(k) => k,
            None => {
                let e: Vec<ChessMove<'a>> = Vec::new();
                proof {
                    assert(list_view(e@) =~= Seq::empty());
                }
                return e;
            },
        };
        if same_text(kind, "pawn") {
            self.generate_pawn_moves(board, position)
        } else if same_text(kind, "king") {
            self.generate_king_moves(board, position, danger)
        } else if same_text(kind, "rook") {
            self.generate_rook_moves(board, position)
        } else if same_text(kind, "knight") {
            self.generate_knight_moves(board, position)
        } else if same_text(kind, "bishop") {
            self.generate_bishop_moves(board, position)
        } else if same_text(kind, "queen") {
            self.generate_queen_moves(board, position)
        } else if same_text(kind, "tempest-rook") {
            self.generate_tempest_rook_moves(board, position)
        } else if same_text(kind, "bouncing-bishop") {
            self.generate_bouncing_bishop_moves(board, position)
        } else if same_text(kind, "dozer") {
            self.generate_dozer_moves(board, position)
        } else if same_text(kind, "alfil") {
            self.generate_alfil_moves(board, position)
        } else if same_text(kind, "bard") {
            self.generate_bard_moves(board, position)
        } else if same_text(kind, "wasp") {
            self.generate_wasp_moves(board, position)
        } else if same_text(kind, "amazon") {
            self.generate_amazon_moves(board, position)
        } else if same_text(kind, "chancellor") {
            self.generate_chancellor_moves(board, position)
        } else if same_text(kind, "archbishop") {
            self.generate_archbishop_moves(board, position)
        } else if same_text(kind, "centaur") {
            self.generate_centaur_moves(board, position)
        } else if same_text(kind, "zebra") {
            self.generate_ij_moves(board, position, 3, 2)
        } else if same_text(kind, "giraffe") {
            self.generate_ij_moves(board, position, 4, 1)
        } else if same_text(kind, "camel") {
            self.generate_ij_moves(board, position, 3, 1)
        } else if same_text(kind, "beacon") {
            self.generate_beacon_moves(board, position)
        } else if same_text(kind, "chameleon") {
            self.generate_chameleon_moves(board, position)
        } else if same_text(kind, "mirrored-pawn") || same_text(kind, "mirrored-bishop")
            || same_text(kind, "mirrored-rook") || same_text(kind, "mirrored-knight") || same_text(
            kind,
            "mirrored-queen",
        ) {
            self.generate_mirrored_moves(board, position, kind)
        } else if same_text(kind, "windmill-rook") {
            self.generate_windmill_rook_moves(board, position)
        } else if same_text(kind, "windmill-bishop") {
            self.generate_windmill_bishop_moves(board, position)
        } else {
            self.run(board, position, danger, checked)
        }
    }

    /// The pseudo-legal moves of the piece on `position`, from the board's
    /// memo where it has them. With `check_danger` a king keeps off the
    /// squares that the other side attacks, and a program's `danger` sees
    /// them; without it nothing counts as attacked. `self` is the board's
    /// own program. Afterwards the board remembers the moves of a piece
    /// that stands there, as loud moves with `check_danger` and as quiet
    /// ones without, and all that it remembered before.
    pub fn get_moves(&self, board: &mut Board<'a>, position: &Position, check_danger: bool) -> (r:
        Vec<ChessMove<'a>>)
        requires
            old(board).wf(),
            self@ == old(board)@.program,
        ensures
            final(board).wf(),
            final(board)@ == old(board)@,
            final(board).remembers_all_of(*old(board)),
            list_view(r@) == pseudo_moves(old(board)@, *position, check_danger),
            all_from(list_view(r@), *position),
            old(board)@.at(*position) is Occupied ==> final(board).remembers(
                *position,
                if check_danger {
                    2int
                } else {
                    1int
                },
            ),
    {
        if !check_danger {
            return quiet_moves_of(board, position);
        }
        match board.cached(position, 2) {
            Some(v) => {
                return v;
            },
            None => {},
        }
        let (kind, color) = match board.square(position) {
            PieceSpan::Piece(p) => (p.piece_type, p.color),
            PieceSpan::Empty => {
                let e: Vec<ChessMove<'a>> = Vec::new();
                proof {
                    assert(list_view(e@) =~= Seq::empty());
                }
                return e;
            },
        };
        let program_moves = !built_in(kind);
        let danger: u64 = if program_moves || same_text(kind, "king") {
            MoveGen::get_danger_zones_bit(board, color.invert())
        } else {
            0
        };
        let checked = program_moves && king_in_mask(board, color, danger);
        let ret = self.moves_by_kind(board, position, danger, checked);
        proof {
            reveal(piece_moves);
        }
        board.remember(position, 2, &ret);
        ret
    }

    /// The moves that this program gives the piece on `position`. With
    /// `check_danger` its `danger` sees the squares that the other side
    /// attacks, and its `check` says whether the piece's side is in check;
    /// without it `danger` says no, and `check` goes by the blind moves of
    /// the other side. The moves start at `position`, stay on the board, and
    /// no two share capture square and landing square. There is no result
    /// for a square without a piece.
    pub fn generate_moves(&self, board: &mut Board<'a>, position: &Position, check_danger: bool) -> (r:
        Result<Vec<ChessMove<'a>>, ()>)
        requires
            old(board).wf(),
        ensures
            final(board).wf(),
            final(board)@ == old(board)@,
            final(board).remembers_all_of(*old(board)),
            r is Ok <==> old(board)@.at(*position) is Occupied,
            r matches Ok(v) ==> {
                &&& list_view(v@) == program_moves(self@, old(board)@, *position, check_danger)
                &&& all_from(list_view(v@), *position)
                &&& distinct_targets(list_view(v@))
            },
    {
        let color = match board.color_on(position) {
            Some(c) => c,
            None => {
                return Err(());
            },
        };
        if check_danger {
            let danger = MoveGen::get_danger_zones_bit(board, color.invert());
            let checked = king_in_mask(board, color, danger);
            Ok(self.run(board, position, danger, checked))
        } else {
            let checked = quiet_check_of(board, color);
            Ok(self.run(board, position, 0, checked))
        }
    }

    /// Whether the other side attacks the square `position`, seen from
    /// `color`.
    pub fn is_danger(&self, board: &mut Board, position: &Position, color: Color) -> (r: bool)
        requires
            old(board).wf(),
        ensures
            final(board).wf(),
            final(board)@ == old(board)@,
            final(board).remembers_all_of(*old(board)),
            r == danger_bit(attack_mask(old(board)@, color.inverted()), *position),
    {
        let mask = MoveGen::get_danger_zones_bit(board, color.invert());
        ChessemblyCompiled::is_danger_bit(mask, position.0, position.1)
    }

    /// Whether `color` is in check: one of its kings stands on a square that
    /// the other side attacks.
    pub fn is_check(&self, board: &mut Board, color: Color) -> (r: bool)
        requires
            old(board).wf(),
        ensures
            final(board).wf(),
            final(board)@ == old(board)@,
            final(board).remembers_all_of(*old(board)),
            r == in_check(old(board)@, color),
    {
        let mask = MoveGen::get_danger_zones_bit(board, color.invert());
        king_in_mask(board, color, mask)
    }

    /// The answer of `is_check`.
    pub fn is_check_dbg(&self, board: &mut Board, color: Color) -> (r: bool)
        requires
            old(board).wf(),
        ensures
            final(board).wf(),
            final(board)@ == old(board)@,
            final(board).remembers_all_of(*old(board)),
            r == in_check(old(board)@, color),
    {
        self.is_check(board, color)
    }

    /// The moves of `nodes` that the mode of the game lets stand, in their
    /// order: in the forward-only mode the forward moves and the captures
    /// along the rank, else the moves after which the side to move is not
    /// in check.
    pub fn filter_nodes(&self, nodes: Vec<ChessMove<'a>>, board: &Board<'a>) -> (r: Vec<
        ChessMove<'a>,
    >)
        requires
            board.wf(),
        ensures
            list_view(r@) == legal_filter(board@, list_view(nodes@)),
            all_in_bounds(list_view(nodes@)) ==> all_in_bounds(list_view(r@)),
    {
        if board.is_macho() {
            return macho_filtered(&nodes, board);
        }
        let ghost b = board@;
        let ghost views = list_view(nodes@);
        let mut ret: Vec<ChessMove<'a>> = Vec::new();
        let mut i: usize = 0;
        proof {
            assert(views.take(0) =~= Seq::empty());
            assert(list_view(ret@) =~= Seq::empty());
        }
        while i < nodes.len()
            invariant
                i <= nodes@.len(),
                board.wf(),
                b == board@,
                views == list_view(nodes@),
                list_view(ret@) == check_filter(b, views.take(i as int)),
                all_in_bounds(views) ==> all_in_bounds(list_view(ret@)),
            decreases nodes@.len() - i,
        {
            let node = &nodes[i];
            proof {
                assert(views.take(i + 1).drop_last() =~= views.take(i as int));
                assert(views.take(i + 1).last() == node@);
                assert(views[i as int] == node@);
            }
            let mut new_board = board.make_move_new_nc(node, false);
            let turn = new_board.side_to_move().invert();
            assert(turn == b.turn);
            if !self.is_check(&mut new_board, turn) {
                let kept = node.duplicate();
                proof {
                    lemma_list_view_push(ret@, kept);
                }
                ret.push(kept);
            }
            i = i + 1;
        }
        proof {
            assert(views.take(nodes@.len() as int) =~= views);
        }
        ret
    }
}

} // verus!
