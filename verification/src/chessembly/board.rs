//! The board: sixty-four squares, the side to move, each side's registers,
//! the program of the custom pieces and the two mode flags.

use std::collections::HashMap;
use vstd::prelude::*;
use vstd::std_specs::hash::group_hash_axioms;
use crate::chessembly::behavior::Instr;
use crate::chessembly::script::ChessemblyCompiled;
use crate::chessembly::geometry::{BOARD_HEIGHT, BOARD_WIDTH};
use crate::chessembly::rules::layer_moves;
use crate::chessembly::{
    all_from, changes_view, ChessMove, Color, copy_changes, copy_moves, list_view, MoveType,
    MoveView, on_board, Piece, PieceSpan, Position, Square, square_at, square_index,
};
use crate::text::same_text;

verus! {

/// What one side carries besides its pieces.
#[derive(Debug)]
pub struct BoardState<'a> {
    pub castling_oo: bool,
    pub castling_ooo: bool,
    /// The squares on which this side's pieces can be taken in passing.
    pub enpassant: Vec<Position>,
    /// The named registers, the newest entry of a name last. A name without
    /// an entry reads as 0.
    pub register: Vec<(&'a str, u8)>,
}

/// The state of both sides.
#[derive(Debug)]
pub struct BothBoardState<'a> {
    pub white: BoardState<'a>,
    pub black: BoardState<'a>,
}

/// One side's state as plain values.
pub struct SideView {
    pub castling_oo: bool,
    pub castling_ooo: bool,
    pub enpassant: Seq<Position>,
    pub register: Map<Seq<char>, u8>,
}

/// The registers that a list of entries writes, later entries winning.
pub open spec fn register_of(entries: Seq<(Seq<char>, u8)>) -> Map<Seq<char>, u8>
    decreases entries.len(),
{
    if entries.len() == 0 {
        Map::empty()
    } else {
        register_of(entries.drop_last()).insert(entries.last().0, entries.last().1)
    }
}

/// What a register reads as: 0 where it was never written.
pub open spec fn register_value(register: Map<Seq<char>, u8>, key: Seq<char>) -> u8 {
    if register.dom().contains(key) {
        register[key]
    } else {
        0
    }
}

impl<'a> View for BoardState<'a> {
    type V = SideView;

    open spec fn view(&self) -> SideView {
        SideView {
            castling_oo: self.castling_oo,
            castling_ooo: self.castling_ooo,
            enpassant: self.enpassant@,
            register: register_of(changes_view(self.register@)),
        }
    }
}

impl<'a> BoardState<'a> {
    /// The state of a side that may not castle and has written nothing.
    pub fn new() -> (r: BoardState<'a>)
        ensures
            r@ == (SideView {
                castling_oo: false,
                castling_ooo: false,
                enpassant: Seq::empty(),
                register: Map::empty(),
            }),
    {
        let r = BoardState {
            castling_oo: false,
            castling_ooo: false,
            enpassant: Vec::new(),
            register: Vec::new(),
        };
        proof {
            assert(changes_view(r.register@) =~= Seq::empty());
        }
        r
    }

    /// What the register `key` holds.
    pub fn register_value(&self, key: &str) -> (r: u8)
        ensures
            r == register_value(self@.register, key@),
    {
        let ghost entries = changes_view(self.register@);
        let mut i: usize = self.register.len();
        proof {
            assert(entries.take(i as int) =~= entries);
        }
        while i > 0
            invariant
                i <= self.register@.len(),
                entries == changes_view(self.register@),
                register_value(register_of(entries), key@) == register_value(
                    register_of(entries.take(i as int)),
                    key@,
                ),
            decreases i,
        {
            let entry = self.register[i - 1];
            proof {
                let t = entries.take(i as int);
                assert(t.drop_last() =~= entries.take(i - 1));
                assert(t.last() == (entry.0@, entry.1));
            }
            if same_text(entry.0, key) {
                return entry.1;
            }
            i = i - 1;
        }
        proof {
            assert(entries.take(0) =~= Seq::empty());
        }
        0
    }

    /// Whether `p` is one of the squares on which this side can be taken in
    /// passing.
    pub fn has_enpassant(&self, p: &Position) -> (r: bool)
        ensures
            r == self@.enpassant.contains(*p),
    {
        let mut i: usize = 0;
        while i < self.enpassant.len()
            invariant
                i <= self.enpassant@.len(),
                forall|k: int| 0 <= k < i ==> self.enpassant@[k] != *p,
            decreases self.enpassant@.len() - i,
        {
            let q = self.enpassant[i];
            if q.0 == p.0 && q.1 == p.1 {
                return true;
            }
            i = i + 1;
        }
        false
    }

    /// A copy of the state.
    pub fn duplicate(&self) -> (r: BoardState<'a>)
        ensures
            r@ == self@,
            r.register@ == self.register@,
    {
        let mut enpassant: Vec<Position> = Vec::new();
        let mut i: usize = 0;
        while i < self.enpassant.len()
            invariant
                i <= self.enpassant@.len(),
                enpassant@ == self.enpassant@.take(i as int),
            decreases self.enpassant@.len() - i,
        {
            enpassant.push(self.enpassant[i]);
            i = i + 1;
        }
        proof {
            assert(self.enpassant@.take(i as int) =~= self.enpassant@);
        }
        BoardState {
            castling_oo: self.castling_oo,
            castling_ooo: self.castling_ooo,
            enpassant,
            register: copy_changes(&self.register),
        }
    }
}

/// A board as plain values.
pub struct BoardView {
    /// The squares, row by row from the top row.
    pub squares: Seq<Square>,
    pub turn: Color,
    pub white: SideView,
    pub black: SideView,
    pub program: Seq<Seq<Instr>>,
    pub macho: bool,
    pub imprisoned: bool,
}

impl BoardView {
    /// A board has sixty-four squares.
    pub open spec fn wf(self) -> bool {
        self.squares.len() == 64
    }

    /// What stands on `p`; nothing stands off the board.
    pub open spec fn at(self, p: Position) -> Square {
        if on_board(p) && self.wf() {
            self.squares[square_index(p)]
        } else {
            Square::Empty
        }
    }

    /// The side of the piece on `p`.
    pub open spec fn color_at(self, p: Position) -> Option<Color> {
        self.at(p).color()
    }

    /// The kind of the piece on `p`.
    pub open spec fn kind_at(self, p: Position) -> Option<Seq<char>> {
        self.at(p).kind()
    }

    /// The state of one side.
    pub open spec fn side(self, color: Color) -> SideView {
        match color {
            Color::White => self.white,
            Color::Black => self.black,
        }
    }
}

/// The squares with `v` on `p`; a square off the board changes nothing.
pub open spec fn put(squares: Seq<Square>, p: Position, v: Square) -> Seq<Square> {
    if on_board(p) && squares.len() == 64 {
        squares.update(square_index(p), v)
    } else {
        squares
    }
}

/// What stands on `p` of a grid.
pub open spec fn grid_at(squares: Seq<Square>, p: Position) -> Square {
    if on_board(p) && squares.len() == 64 {
        squares[square_index(p)]
    } else {
        Square::Empty
    }
}

/// The piece that lands: the mover, of the kind that the move turns it into.
pub open spec fn placed_piece(mover: Square, transition: Option<Seq<char>>) -> Square {
    match (mover, transition) {
        (Square::Occupied { kind, color }, Some(t)) => Square::Occupied { kind: t, color },
        _ => mover,
    }
}

/// The rook's part of castling: from the corner next to the king's new
/// square to the square that the king has crossed.
pub open spec fn castle_rook(squares: Seq<Square>, king_to: Position) -> Seq<Square> {
    if king_to.0 == 6 {
        put(
            put(squares, (7, king_to.1), Square::Empty),
            (5, king_to.1),
            grid_at(squares, (7, king_to.1)),
        )
    } else if king_to.0 == 2 {
        put(
            put(squares, (0, king_to.1), Square::Empty),
            (3, king_to.1),
            grid_at(squares, (0, king_to.1)),
        )
    } else {
        squares
    }
}

/// The squares after a move: the source is cleared, the mover stands on the
/// landing square, the capture square is cleared where it is another one,
/// and castling brings the rook over.
pub open spec fn moved_squares(b: BoardView, m: MoveView) -> Seq<Square> {
    let g1 = put(b.squares, m.from, Square::Empty);
    let g2 = put(g1, m.move_to, placed_piece(b.at(m.from), m.transition));
    let g3 = if m.take != m.move_to {
        put(g2, m.take, Square::Empty)
    } else {
        g2
    };
    if m.move_type == MoveType::Castling {
        castle_rook(g3, m.move_to)
    } else {
        g3
    }
}

/// The side that makes a move: that of the piece on its source, or the side
/// to move where the source is empty.
pub open spec fn mover_of(b: BoardView, m: MoveView) -> Color {
    match b.color_at(m.from) {
        Some(c) => c,
        None => b.turn,
    }
}

/// One register update. The two castling rights are flags of their own, the
/// en-passant mark writes nothing, every other name is a register.
pub open spec fn apply_change(side: SideView, key: Seq<char>, value: u8) -> SideView {
    if key == "castling-oo"@ {
        SideView { castling_oo: value != 0, ..side }
    } else if key == "castling-ooo"@ {
        SideView { castling_ooo: value != 0, ..side }
    } else if key == "enpassant"@ {
        side
    } else {
        SideView { register: side.register.insert(key, value), ..side }
    }
}

/// The updates of a move, applied in order.
pub open spec fn apply_changes(side: SideView, changes: Seq<(Seq<char>, u8)>) -> SideView
    decreases changes.len(),
{
    if changes.len() == 0 {
        side
    } else {
        apply_change(apply_changes(side, changes.drop_last()), changes.last().0, changes.last().1)
    }
}

/// Whether a move carries the en-passant mark of a pawn's double step.
pub open spec fn marks_enpassant(changes: Option<Seq<(Seq<char>, u8)>>) -> bool {
    changes matches Some(c) && c.contains(("enpassant"@, 1u8))
}

/// The mover's state after its move.
pub open spec fn moved_side(side: SideView, m: MoveView, keep_enpassant: bool) -> SideView {
    let s = match m.state_change {
        Some(c) => apply_changes(side, c),
        None => side,
    };
    SideView {
        enpassant: if keep_enpassant && marks_enpassant(m.state_change) {
            seq![m.move_to]
        } else {
            Seq::empty()
        },
        ..s
    }
}

/// The other side's state after the move.
pub open spec fn rested_side(side: SideView, keep_enpassant: bool) -> SideView {
    SideView {
        enpassant: if keep_enpassant {
            side.enpassant
        } else {
            Seq::empty()
        },
        ..side
    }
}

/// The board after a move. With `keep_enpassant` the mover's en-passant
/// squares become the landing square of a marked double step, or none, and
/// the other side's stay; without it both sides' are cleared.
pub open spec fn make_move(b: BoardView, m: MoveView, keep_enpassant: bool) -> BoardView {
    let mover = mover_of(b, m);
    BoardView {
        squares: moved_squares(b, m),
        turn: b.turn.inverted(),
        white: if mover == Color::White {
            moved_side(b.white, m, keep_enpassant)
        } else {
            rested_side(b.white, keep_enpassant)
        },
        black: if mover == Color::Black {
            moved_side(b.black, m, keep_enpassant)
        } else {
            rested_side(b.black, keep_enpassant)
        },
        ..b
    }
}

/// A grid of squares as plain values.
pub open spec fn squares_view<'a>(s: Seq<PieceSpan<'a>>) -> Seq<Square> {
    Seq::new(s.len(), |i: int| s[i]@)
}

/// A position: the squares, the side to move, the state of both sides, the
/// program of the custom pieces, the two modes, and a memo of the moves that
/// were generated since the board last changed.
pub struct Board<'a> {
    squares: Vec<PieceSpan<'a>>,
    turn: Color,
    board_state: BothBoardState<'a>,
    script: &'a ChessemblyCompiled<'a>,
    macho: bool,
    imprisoned: bool,
    /// The moves already generated, by layer and square: entry
    /// `64 * layer + 8 * rank + file`. Every change of the board empties it.
    dp: HashMap<u64, Vec<ChessMove<'a>>>,
}

/// The layer of the moves that entry `i` of a memo holds: the blind moves
/// of the sixty-four squares come first, then the quiet, then the loud ones.
pub open spec fn memo_layer(i: int) -> int {
    if i >= 128 {
        2
    } else if i >= 64 {
        1
    } else {
        0
    }
}

/// The square whose moves entry `i` of a memo holds.
pub open spec fn memo_square(i: int) -> Position {
    square_at(i - 64 * memo_layer(i))
}

/// Whether a memo holds nothing but the moves of the pieces of `b`.
pub open spec fn memo_holds<'a>(dp: Map<u64, Vec<ChessMove<'a>>>, b: BoardView) -> bool {
    forall|i: u64| #[trigger]
        dp.contains_key(i) ==> i < 192 && list_view(dp[i]@) == layer_moves(
            b,
            memo_square(i as int),
            memo_layer(i as int),
        ) && all_from(list_view(dp[i]@), memo_square(i as int))
}

proof fn lemma_memo_update<'a>(
    dp: Map<u64, Vec<ChessMove<'a>>>,
    b: BoardView,
    idx: u64,
    v: Vec<ChessMove<'a>>,
)
    requires
        memo_holds(dp, b),
        idx < 192,
        list_view(v@) == layer_moves(b, memo_square(idx as int), memo_layer(idx as int)),
        all_from(list_view(v@), memo_square(idx as int)),
    ensures
        memo_holds(dp.insert(idx, v), b),
{
    let next = dp.insert(idx, v);
    assert forall|i: u64| #[trigger] next.contains_key(i) implies i < 192 && list_view(next[i]@)
        == layer_moves(b, memo_square(i as int), memo_layer(i as int)) && all_from(
        list_view(next[i]@),
        memo_square(i as int),
    ) by {
        if i != idx {
            assert(dp.contains_key(i));
        }
    }
}

impl<'a> View for Board<'a> {
    type V = BoardView;

    closed spec fn view(&self) -> BoardView {
        BoardView {
            squares: squares_view(self.squares@),
            turn: self.turn,
            white: self.board_state.white@,
            black: self.board_state.black@,
            program: self.script@,
            macho: self.macho,
            imprisoned: self.imprisoned,
        }
    }
}

fn put_square<'a>(squares: &mut Vec<PieceSpan<'a>>, p: Position, v: PieceSpan<'a>)
    requires
        old(squares)@.len() == 64,
    ensures
        final(squares)@.len() == 64,
        squares_view(final(squares)@) == put(squares_view(old(squares)@), p, v@),
{
    if p.0 < 8 && p.1 < 8 {
        let idx: usize = 8 * (p.1 as usize) + p.0 as usize;
        squares.set(idx, v);
        proof {
            assert(squares_view(squares@) =~= put(squares_view(old(squares)@), p, v@));
        }
    }
}

fn square_of<'a>(squares: &Vec<PieceSpan<'a>>, p: &Position) -> (r: PieceSpan<'a>)
    requires
        squares@.len() == 64,
    ensures
        r@ == grid_at(squares_view(squares@), *p),
{
    if p.0 < 8 && p.1 < 8 {
        let idx: usize = 8 * (p.1 as usize) + p.0 as usize;
        squares[idx]
    } else {
        PieceSpan::Empty
    }
}

/// The three names that are no registers are three different names.
pub proof fn lemma_state_keys_differ()
    ensures
        "castling-oo"@ != "castling-ooo"@,
        "castling-oo"@ != "enpassant"@,
        "castling-ooo"@ != "enpassant"@,
{
    reveal_strlit("castling-oo");
    reveal_strlit("castling-ooo");
    reveal_strlit("enpassant");
    assert("castling-oo"@.len() == 11);
    assert("castling-ooo"@.len() == 12);
    assert("enpassant"@.len() == 9);
}

/// The mover's state after a move that carries `changes`.
fn changed_state<'a>(
    state: &BoardState<'a>,
    changes: &Option<Vec<(&'a str, u8)>>,
    move_to: Position,
    keep_enpassant: bool,
) -> (r: BoardState<'a>)
    ensures
        r@ == (SideView {
            enpassant: if keep_enpassant && marks_enpassant(
                match *changes {
                    Some(v) => Some(changes_view(v@)),
                    None => None,
                },
            ) {
                seq![move_to]
            } else {
                Seq::empty()
            },
            ..match *changes {
                Some(v) => apply_changes(state@, changes_view(v@)),
                None => state@,
            }
        }),
{
    let mut next = state.duplicate();
    let mut marked = false;
    match changes {
        Some(list) => {
            let ghost entries = changes_view(list@);
            let mut i: usize = 0;
            proof {
                assert(entries.take(0) =~= Seq::empty());
            }
            while i < list.len()
                invariant
                    i <= list@.len(),
                    entries == changes_view(list@),
                    next@ == apply_changes(state@, entries.take(i as int)),
                    marked == entries.take(i as int).contains(("enpassant"@, 1u8)),
                decreases list@.len() - i,
            {
                let (key, value) = list[i];
                proof {
                    lemma_state_keys_differ();
                    let t = entries.take(i + 1);
                    assert(t.drop_last() =~= entries.take(i as int));
                    assert(t.last() == (key@, value));
                    assert(t =~= entries.take(i as int).push((key@, value)));
                    if entries.take(i as int).contains(("enpassant"@, 1u8)) {
                        let k = choose|k: int|
                            0 <= k < entries.take(i as int).len() && entries.take(i as int)[k] == (
                                "enpassant"@,
                                1u8,
                            );
                        assert(t[k] == ("enpassant"@, 1u8));
                    }
                    if t.contains(("enpassant"@, 1u8)) && !entries.take(i as int).contains(
                        ("enpassant"@, 1u8),
                    ) {
                        let k = choose|k: int| 0 <= k < t.len() && t[k] == ("enpassant"@, 1u8);
                        if k < i {
                            assert(entries.take(i as int)[k] == ("enpassant"@, 1u8));
                        }
                    }
                }
                if same_text(key, "castling-oo") {
                    next.castling_oo = value != 0;
                } else if same_text(key, "castling-ooo") {
                    next.castling_ooo = value != 0;
                } else if same_text(key, "enpassant") {
                    if value == 1 {
                        marked = true;
                        proof {
                            assert(entries.take(i + 1)[i as int] == ("enpassant"@, 1u8));
                        }
                    }
                } else {
                    proof {
                        let before = changes_view(next.register@);
                        assert(changes_view(next.register@.push((key, value))) =~= before.push(
                            (key@, value),
                        ));
                        assert(before.push((key@, value)).drop_last() =~= before);
                    }
                    next.register.push((key, value));
                }
                i = i + 1;
            }
            proof {
                assert(entries.take(list@.len() as int) =~= entries);
            }
        },
        None => {},
    }
    let mut enpassant: Vec<Position> = Vec::new();
    if keep_enpassant && marked {
        enpassant.push(move_to);
        proof {
            assert(enpassant@ =~= seq![move_to]);
        }
    }
    next.enpassant = enpassant;
    next
}

/// The other side's state after a move.
fn rested_state<'a>(state: &BoardState<'a>, keep_enpassant: bool) -> (r: BoardState<'a>)
    ensures
        r@ == rested_side(state@, keep_enpassant),
{
    let mut next = state.duplicate();
    if !keep_enpassant {
        next.enpassant = Vec::new();
    }
    next
}

impl<'a> Board<'a> {
    /// What every board holds: sixty-four squares, and in its memo nothing
    /// but the moves of its own pieces.
    pub closed spec fn wf(&self) -> bool {
        &&& self.squares@.len() == 64
        &&& memo_holds(self.dp@, self@)
    }

    /// Whether the memo holds the moves of the piece on `position` in the
    /// given layer.
    pub closed spec fn remembers(&self, position: Position, layer: int) -> bool {
        &&& on_board(position)
        &&& 0 <= layer <= 2
        &&& self.dp@.contains_key((64 * layer + square_index(position)) as u64)
    }

    /// Whether the memo is empty.
    pub open spec fn remembers_nothing(&self) -> bool {
        forall|q: Position, l: int| !#[trigger] self.remembers(q, l)
    }

    /// Whether the memo holds all that the memo of `other` holds.
    pub open spec fn remembers_all_of(&self, other: Board<'a>) -> bool {
        forall|q: Position, l: int| #[trigger] other.remembers(q, l) ==> self.remembers(q, l)
    }

    /// The moves of the piece on `position` in the given layer, where the
    /// board remembers them: 0 for the blind, 1 for the quiet, 2 for the
    /// loud moves. The board remembers what `remember` was given since it
    /// last changed.
    pub(crate) fn cached(&self, position: &Position, layer: u8) -> (r: Option<Vec<ChessMove<'a>>>)
        requires
            self.wf(),
            layer <= 2,
        ensures
            r is Some <==> self.remembers(*position, layer as int),
            r is Some ==> on_board(*position),
            r matches Some(v) ==> list_view(v@) == layer_moves(self@, *position, layer as int)
                && all_from(list_view(v@), *position),
    {
        broadcast use group_hash_axioms;

        if position.0 < 8 && position.1 < 8 {
            let at: u64 = 8 * (position.1 as u64) + position.0 as u64;
            let idx: u64 = 64 * (layer as u64) + at;
            assert(memo_square(idx as int) == *position);
            assert(memo_layer(idx as int) == layer);
            match self.dp.get(&idx) {
                Some(v) => Some(copy_moves(v)),
                None => None,
            }
        } else {
            None
        }
    }

    /// Remembers the moves of the piece on `position` in the given layer,
    /// and keeps what the board remembers of every other square and layer.
    /// Nothing is remembered of a square off the board.
    pub(crate) fn remember(&mut self, position: &Position, layer: u8, moves: &Vec<ChessMove<'a>>)
        requires
            old(self).wf(),
            layer <= 2,
            list_view(moves@) == layer_moves(old(self)@, *position, layer as int),
            all_from(list_view(moves@), *position),
        ensures
            final(self).wf(),
            final(self)@ == old(self)@,
            on_board(*position) ==> final(self).remembers(*position, layer as int),
            final(self).remembers_all_of(*old(self)),
            forall|q: Position, l: int|
                #[trigger] final(self).remembers(q, l) <==> old(self).remembers(q, l) || (q
                    == *position && l == layer && on_board(*position)),
    {
        broadcast use group_hash_axioms;

        if position.0 < 8 && position.1 < 8 {
            let at: u64 = 8 * (position.1 as u64) + position.0 as u64;
            let idx: u64 = 64 * (layer as u64) + at;
            assert(memo_square(idx as int) == *position);
            assert(memo_layer(idx as int) == layer);
            let copy = copy_moves(moves);
            proof {
                lemma_memo_update(self.dp@, self@, idx, copy);
            }
            self.dp.insert(idx, copy);
            proof {
                assert forall|q: Position, l: int| #[trigger]
                    self.remembers(q, l) <==> old(self).remembers(q, l) || (q == *position && l
                        == layer) by {
                    if on_board(q) && 0 <= l <= 2 {
                        let j = (64 * l + square_index(q)) as u64;
                        if j != idx {
                            assert(self.dp@.contains_key(j) == old(self).dp@.contains_key(j));
                        }
                    }
                }
            }
        }
    }

    /// The view of a board has sixty-four squares.
    pub proof fn lemma_view_wf(&self)
        requires
            self.wf(),
        ensures
            self@.wf(),
    {
    }

    /// The board without pieces, White to move, nobody with the right to
    /// castle. It remembers no moves.
    pub fn empty(script: &'a ChessemblyCompiled<'a>, macho: bool, imprisoned: bool) -> (r: Board<'a>)
        ensures
            r.wf(),
            r@.wf(),
            r.remembers_nothing(),
            forall|i: int| 0 <= i < 64 ==> r@.squares[i] == Square::Empty,
            r@.turn == Color::White,
            r@.white == BoardState::new_view(),
            r@.black == BoardState::new_view(),
            r@.program == script@,
            r@.macho == macho,
            r@.imprisoned == imprisoned,
    {
        let mut squares: Vec<PieceSpan<'a>> = Vec::new();
        let mut i: usize = 0;
        while i < 64
            invariant
                i <= 64,
                squares@.len() == i,
                forall|k: int| 0 <= k < i ==> squares@[k] == PieceSpan::<'a>::Empty,
            decreases 64 - i,
        {
            squares.push(PieceSpan::Empty);
            i = i + 1;
        }
        Board {
            squares,
            turn: Color::White,
            board_state: BothBoardState { white: BoardState::new(), black: BoardState::new() },
            script,
            macho,
            imprisoned,
            dp: HashMap::new(),
        }
    }

    /// The number of files.
    pub fn get_width(&self) -> (r: usize)
        ensures
            r == 8,
    {
        BOARD_WIDTH
    }

    /// The number of ranks.
    pub fn get_height(&self) -> (r: usize)
        ensures
            r == 8,
    {
        BOARD_HEIGHT
    }

    /// The side that is to move.
    pub fn side_to_move(&self) -> (r: Color)
        ensures
            r == self@.turn,
    {
        self.turn
    }

    /// Whether the forward-only mode is on.
    pub fn is_macho(&self) -> (r: bool)
        ensures
            r == self@.macho,
    {
        self.macho
    }

    /// Whether the board carries the second mode flag. The flag is kept
    /// with the board and handed on by every move; no rule reads it.
    pub fn is_imprisoned(&self) -> (r: bool)
        ensures
            r == self@.imprisoned,
    {
        self.imprisoned
    }

    /// The program that moves the pieces of custom kinds.
    pub fn script(&self) -> (r: &'a ChessemblyCompiled<'a>)
        ensures
            r@ == self@.program,
    {
        self.script
    }

    /// The state of one side.
    pub fn state(&self, color: Color) -> (r: &BoardState<'a>)
        ensures
            r@ == self@.side(color),
    {
        match color {
            Color::White => &self.board_state.white,
            Color::Black => &self.board_state.black,
        }
    }

    /// What stands on `position`.
    pub fn square(&self, position: &Position) -> (r: PieceSpan<'a>)
        requires
            self.wf(),
        ensures
            r@ == self@.at(*position),
    {
        square_of(&self.squares, position)
    }

    /// The colour of the piece on `position`, if one stands there.
    pub fn color_on(&self, position: &Position) -> (r: Option<Color>)
        requires
            self.wf(),
        ensures
            r == self@.color_at(*position),
    {
        match square_of(&self.squares, position) {
            PieceSpan::Piece(p) => Some(p.color),
            PieceSpan::Empty => None,
        }
    }

    /// The kind of the piece on `position`, if one stands there.
    pub fn piece_on(&self, position: &Position) -> (r: Option<&'a str>)
        requires
            self.wf(),
        ensures
            r is Some == self@.kind_at(*position) is Some,
            r matches Some(k) ==> self@.kind_at(*position) == Some(k@),
    {
        match square_of(&self.squares, position) {
            PieceSpan::Piece(p) => Some(p.piece_type),
            PieceSpan::Empty => None,
        }
    }

    /// Whether a piece of the kind `name` stands on `position`.
    pub fn holds(&self, position: &Position, name: &str) -> (r: bool)
        requires
            self.wf(),
        ensures
            r == self@.at(*position).is_kind(name@),
    {
        match square_of(&self.squares, position) {
            PieceSpan::Piece(p) => same_text(p.piece_type, name),
            PieceSpan::Empty => false,
        }
    }

    /// Puts `span` on `position`; a position off the board leaves the
    /// squares as they are. The board forgets the moves it remembered.
    pub fn set_piece(&mut self, position: &Position, span: PieceSpan<'a>)
        requires
            old(self).wf(),
        ensures
            final(self).wf(),
            final(self).remembers_nothing(),
            final(self)@ == (BoardView {
                squares: put(old(self)@.squares, *position, span@),
                ..old(self)@
            }),
    {
        put_square(&mut self.squares, *position, span);
        self.dp = HashMap::new();
    }

    /// Hands the move to `turn`. The board forgets the moves it remembered.
    pub fn set_turn(&mut self, turn: Color)
        requires
            old(self).wf(),
        ensures
            final(self).wf(),
            final(self).remembers_nothing(),
            final(self)@ == (BoardView { turn, ..old(self)@ }),
    {
        self.turn = turn;
        self.dp = HashMap::new();
    }

    /// Replaces the state of both sides. The board forgets the moves it
    /// remembered.
    pub fn set_state(&mut self, state: BothBoardState<'a>)
        requires
            old(self).wf(),
        ensures
            final(self).wf(),
            final(self).remembers_nothing(),
            final(self)@ == (BoardView { white: state.white@, black: state.black@, ..old(self)@ }),
    {
        self.board_state = state;
        self.dp = HashMap::new();
    }

    /// The board after `node`, as a new board, which remembers no moves.
    pub fn make_move_new_nc(&self, node: &ChessMove<'a>, keep_enpassant: bool) -> (r: Board<'a>)
        requires
            self.wf(),
        ensures
            r.wf(),
            r.remembers_nothing(),
            r@ == make_move(self@, node@, keep_enpassant),
    {
        let mut squares = self.squares.clone();
        assert(squares@ =~= self.squares@);
        let mover = square_of(&self.squares, &node.from);
        let placed = match (mover, node.transition) {
            (PieceSpan::Piece(p), Some(t)) => PieceSpan::Piece(Piece { piece_type: t, color: p.color }),
            _ => mover,
        };
        put_square(&mut squares, node.from, PieceSpan::Empty);
        put_square(&mut squares, node.move_to, placed);
        if node.take.0 != node.move_to.0 || node.take.1 != node.move_to.1 {
            put_square(&mut squares, node.take, PieceSpan::Empty);
        }
        if node.move_type == MoveType::Castling {
            let rank = node.move_to.1;
            if node.move_to.0 == 6 {
                let rook = square_of(&squares, &(7, rank));
                put_square(&mut squares, (7, rank), PieceSpan::Empty);
                put_square(&mut squares, (5, rank), rook);
            } else if node.move_to.0 == 2 {
                let rook = square_of(&squares, &(0, rank));
                put_square(&mut squares, (0, rank), PieceSpan::Empty);
                put_square(&mut squares, (3, rank), rook);
            }
        }
        let mover_color = match mover {
            PieceSpan::Piece(p) => p.color,
            PieceSpan::Empty => self.turn,
        };
        let (white, black) = match mover_color {
            Color::White => (
                changed_state(&self.board_state.white, &node.state_change, node.move_to, keep_enpassant),
                rested_state(&self.board_state.black, keep_enpassant),
            ),
            Color::Black => (
                rested_state(&self.board_state.white, keep_enpassant),
                changed_state(&self.board_state.black, &node.state_change, node.move_to, keep_enpassant),
            ),
        };
        Board {
            squares,
            turn: self.turn.invert(),
            board_state: BothBoardState { white, black },
            script: self.script,
            macho: self.macho,
            imprisoned: self.imprisoned,
            dp: HashMap::new(),
        }
    }
}

impl<'a> BoardState<'a> {
    /// The view of a fresh state.
    pub open spec fn new_view() -> SideView {
        SideView {
            castling_oo: false,
            castling_ooo: false,
            enpassant: Seq::empty(),
            register: Map::empty(),
        }
    }
}

} // verus!
