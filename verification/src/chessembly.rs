//! The values of the game: colours, pieces, squares and moves, each with the
//! mathematical view that the contracts of the other modules speak of.

use vstd::prelude::*;

pub mod behavior;
pub mod board;
pub mod catalog;
pub mod catalog_laws;
pub mod geometry;
pub mod interp;
pub mod legal;
pub mod laws;
pub mod legal_laws;
pub mod machine;
pub mod machine_laws;
pub mod mirror;
pub mod moves;
pub mod rules;
pub mod script;
pub mod targets;
pub mod turned;
pub mod turned_pieces;

pub use behavior::{Behavior, BehaviorChain, Opcode};
pub use board::Board;
pub use geometry::WallCollision;
pub use legal::MoveGen;
pub use script::ChessemblyCompiled;

verus! {

/// How a game has ended.
#[derive(Copy, Clone, PartialEq, PartialOrd, Eq, Ord, Debug, Hash, Structural)]
pub enum GameResult {
    WhiteCheckmates,
    WhiteResigns,
    BlackCheckmates,
    BlackResigns,
    Stalemate,
    DrawAccepted,
    DrawDeclared,
}

/// The two sides.
#[derive(PartialOrd, PartialEq, Eq, Copy, Clone, Debug, Hash, Structural)]
pub enum Color {
    White,
    Black,
}

impl Color {
    /// The other colour.
    pub open spec fn inverted(self) -> Color {
        match self {
            Color::White => Color::Black,
            Color::Black => Color::White,
        }
    }

    /// The other side.
    pub fn invert(&self) -> (r: Color)
        ensures
            r == self.inverted(),
    {
        match self {
            Color::White => Color::Black,
            Color::Black => Color::White,
        }
    }
}

/// Whether a piece of the colour `c` is meant.
pub fn color_is(a: Option<Color>, c: Color) -> (r: bool)
    ensures
        r == (a == Some(c)),
{
    match a {
        Some(x) => x == c,
        None => false,
    }
}

/// A square of the board: file, then rank counted from the top row.
pub type Position = (u8, u8);

/// A step: files to the right, then ranks towards the top row.
pub type DeltaPosition = (i8, i8);

/// A piece: its kind by name, and its side.
#[derive(Copy, Clone, PartialEq, Eq, Debug)]
pub struct Piece<'a> {
    pub piece_type: &'a str,
    pub color: Color,
}

/// What a square holds: a piece or nothing.
#[derive(Copy, Clone, PartialEq, Eq, Debug)]
pub enum PieceSpan<'a> {
    Piece(Piece<'a>),
    Empty,
}

/// What a square holds, as a plain value.
pub enum Square {
    Empty,
    Occupied { kind: Seq<char>, color: Color },
}

impl Square {
    /// The side of the piece on the square.
    pub open spec fn color(self) -> Option<Color> {
        match self {
            Square::Empty => None,
            Square::Occupied { color, .. } => Some(color),
        }
    }

    /// The kind of the piece on the square.
    pub open spec fn kind(self) -> Option<Seq<char>> {
        match self {
            Square::Empty => None,
            Square::Occupied { kind, .. } => Some(kind),
        }
    }

    /// Whether the square holds a piece of this kind.
    pub open spec fn is_kind(self, name: Seq<char>) -> bool {
        self.kind() == Some(name)
    }
}

impl<'a> View for PieceSpan<'a> {
    type V = Square;

    open spec fn view(&self) -> Square {
        match self {
            PieceSpan::Empty => Square::Empty,
            PieceSpan::Piece(p) => Square::Occupied { kind: p.piece_type@, color: p.color },
        }
    }
}

/// What a move does on its squares.
#[derive(Copy, Clone, PartialEq, PartialOrd, Eq, Ord, Debug, Hash, Structural)]
pub enum MoveType {
    Move,
    TakeMove,
    Take,
    TakeJump,
    Catch,
    Shift,
    Castling,
}

/// A move: where the piece starts, where it captures, where it lands, what
/// kind of move it is, the register updates of its side, and the kind that
/// the piece becomes.
#[derive(Eq, PartialOrd, PartialEq, Debug, Hash)]
pub struct ChessMove<'a> {
    pub from: Position,
    pub take: Position,
    pub move_to: Position,
    pub move_type: MoveType,
    pub state_change: Option<Vec<(&'a str, u8)>>,
    pub transition: Option<&'a str>,
}

/// A move as a plain value.
pub struct MoveView {
    pub from: Position,
    pub take: Position,
    pub move_to: Position,
    pub move_type: MoveType,
    pub state_change: Option<Seq<(Seq<char>, u8)>>,
    pub transition: Option<Seq<char>>,
}

/// Register updates as plain values.
pub open spec fn changes_view<'a>(v: Seq<(&'a str, u8)>) -> Seq<(Seq<char>, u8)> {
    Seq::new(v.len(), |i: int| (v[i].0@, v[i].1))
}

impl<'a> View for ChessMove<'a> {
    type V = MoveView;

    open spec fn view(&self) -> MoveView {
        MoveView {
            from: self.from,
            take: self.take,
            move_to: self.move_to,
            move_type: self.move_type,
            state_change: match self.state_change {
                Some(v) => Some(changes_view(v@)),
                None => None,
            },
            transition: match self.transition {
                Some(t) => Some(t@),
                None => None,
            },
        }
    }
}

/// A list of moves as plain values.
pub open spec fn list_view<'a>(s: Seq<ChessMove<'a>>) -> Seq<MoveView> {
    Seq::new(s.len(), |i: int| s[i]@)
}

/// The view of a list with one move more.
pub proof fn lemma_list_view_push<'a>(s: Seq<ChessMove<'a>>, m: ChessMove<'a>)
    ensures
        list_view(s.push(m)) == list_view(s).push(m@),
{
    assert(list_view(s.push(m)) =~= list_view(s).push(m@));
}

/// Whether a square lies on the board.
pub open spec fn on_board(p: Position) -> bool {
    p.0 < 8 && p.1 < 8
}

/// The place of an on-board square in a row-major grid.
pub open spec fn square_index(p: Position) -> int {
    8 * (p.1 as int) + p.0 as int
}

/// The square at a place of the grid.
pub open spec fn square_at(i: int) -> Position {
    ((i % 8) as u8, (i / 8) as u8)
}

impl MoveView {
    /// Every square that the move names is on the board.
    pub open spec fn in_bounds(self) -> bool {
        on_board(self.from) && on_board(self.take) && on_board(self.move_to)
    }

    /// Two moves that capture on the same square and land on the same square.
    pub open spec fn same_target(self, other: MoveView) -> bool {
        self.take == other.take && self.move_to == other.move_to
    }
}

/// Every move starts at `p` and stays on the board.
pub open spec fn all_from(l: Seq<MoveView>, p: Position) -> bool {
    forall|i: int| 0 <= i < l.len() ==> (#[trigger] l[i]).from == p && l[i].in_bounds()
}

/// No two moves of the list share capture square and landing square.
pub open spec fn distinct_targets(l: Seq<MoveView>) -> bool {
    forall|i: int, j: int| 0 <= i < j < l.len() ==> !(#[trigger] l[i]).same_target(#[trigger] l[j])
}

impl<'a> ChessMove<'a> {
    /// The square that the piece leaves.
    pub fn get_source(&self) -> (r: Position)
        ensures
            r == self@.from,
    {
        self.from
    }

    /// The square on which the piece lands.
    pub fn get_dest(&self) -> (r: Position)
        ensures
            r == self@.move_to,
    {
        self.move_to
    }

    /// The kind that the piece becomes, where it becomes another.
    pub fn get_promotion(&self) -> (r: &Option<&'a str>)
        ensures
            *r == self.transition,
    {
        &self.transition
    }

    /// A copy of the move.
    pub fn duplicate(&self) -> (r: ChessMove<'a>)
        ensures
            r@ == self@,
    {
        let state_change = match &self.state_change {
            Some(v) => {
                let c = copy_changes(v);
                Some(c)
            },
            None => None,
        };
        ChessMove {
            from: self.from,
            take: self.take,
            move_to: self.move_to,
            move_type: self.move_type,
            state_change,
            transition: self.transition,
        }
    }
}

impl<'a> Clone for ChessMove<'a> {
    fn clone(&self) -> (r: Self)
        ensures
            r@ == self@,
    {
        self.duplicate()
    }
}

/// A copy of a list of register updates.
pub fn copy_changes<'a>(v: &Vec<(&'a str, u8)>) -> (r: Vec<(&'a str, u8)>)
    ensures
        r@ == v@,
{
    let mut out: Vec<(&'a str, u8)> = Vec::new();
    let mut i: usize = 0;
    while i < v.len()
        invariant
            i <= v@.len(),
            out@ == v@.take(i as int),
        decreases v@.len() - i,
    {
        out.push(v[i]);
        i = i + 1;
    }
    out
}

/// A copy of a list of moves.
pub fn copy_moves<'a>(v: &Vec<ChessMove<'a>>) -> (r: Vec<ChessMove<'a>>)
    ensures
        list_view(r@) == list_view(v@),
{
    let mut out: Vec<ChessMove<'a>> = Vec::new();
    let mut i: usize = 0;
    while i < v.len()
        invariant
            i <= v@.len(),
            list_view(out@) == list_view(v@.take(i as int)),
        decreases v@.len() - i,
    {
        let m = v[i].duplicate();
        proof {
            lemma_list_view_push(out@, m);
            assert(v@.take(i + 1) =~= v@.take(i as int).push(v@[i as int]));
            lemma_list_view_push(v@.take(i as int), v@[i as int]);
        }
        out.push(m);
        i = i + 1;
    }
    proof {
        assert(v@.take(v@.len() as int) =~= v@);
    }
    out
}

/// Appends copies of the moves of `more` to `list`.
pub fn append_moves<'a>(list: &mut Vec<ChessMove<'a>>, more: &Vec<ChessMove<'a>>)
    ensures
        list_view(final(list)@) == list_view(old(list)@) + list_view(more@),
{
    let mut i: usize = 0;
    while i < more.len()
        invariant
            i <= more@.len(),
            list_view(list@) == list_view(old(list)@) + list_view(more@.take(i as int)),
        decreases more@.len() - i,
    {
        let m = more[i].duplicate();
        proof {
            lemma_list_view_push(list@, m);
            assert(more@.take(i + 1) =~= more@.take(i as int).push(more@[i as int]));
            lemma_list_view_push(more@.take(i as int), more@[i as int]);
            assert((list_view(old(list)@) + list_view(more@.take(i as int))).push(m@) =~= list_view(
                old(list)@,
            ) + list_view(more@.take(i as int)).push(m@));
        }
        list.push(m);
        i = i + 1;
    }
    proof {
        assert(more@.take(more@.len() as int) =~= more@);
    }
}

} // verus!
