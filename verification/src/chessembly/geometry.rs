//! Steps on the board and what they run into.

use vstd::prelude::*;
use crate::chessembly::{Color, DeltaPosition, on_board, Position};

verus! {

/// What a step runs into, named from the side of the piece that takes it.
#[derive(Copy, Clone, PartialEq, Eq, Debug, Structural)]
pub enum WallCollision {
    EdgeTop,
    EdgeBottom,
    EdgeLeft,
    EdgeRight,
    CornerTopLeft,
    CornerTopRight,
    CornerBottomLeft,
    CornerBottomRight,
    NoCollision,
}

/// The number of files of the board.
pub const BOARD_WIDTH: usize = 8;

/// The number of ranks of the board.
pub const BOARD_HEIGHT: usize = 8;

/// The file reached from `anchor` by `delta`, which may lie off the board.
pub open spec fn stepped_file(anchor: Position, delta: DeltaPosition) -> int {
    anchor.0 as int + delta.0 as int
}

/// The rank reached from `anchor` by `delta`: a positive step goes towards
/// the top row.
pub open spec fn stepped_rank(anchor: Position, delta: DeltaPosition) -> int {
    anchor.1 as int - delta.1 as int
}

/// Whether the step from `anchor` by `delta` stays on the board.
pub open spec fn step_lands(anchor: Position, delta: DeltaPosition) -> bool {
    0 <= stepped_file(anchor, delta) < 8 && 0 <= stepped_rank(anchor, delta) < 8
}

/// The square reached from `anchor` by `delta`, where the step stays on the
/// board.
pub open spec fn stepped(anchor: Position, delta: DeltaPosition) -> Position {
    (stepped_file(anchor, delta) as u8, stepped_rank(anchor, delta) as u8)
}

/// The wall that a step runs into, named as White sees the board.
pub open spec fn wall_seen_by_white(anchor: Position, delta: DeltaPosition) -> WallCollision {
    let left = stepped_file(anchor, delta) < 0;
    let right = stepped_file(anchor, delta) >= 8;
    let top = stepped_rank(anchor, delta) < 0;
    let bottom = stepped_rank(anchor, delta) >= 8;
    if left && top {
        WallCollision::CornerTopLeft
    } else if right && top {
        WallCollision::CornerTopRight
    } else if left && bottom {
        WallCollision::CornerBottomLeft
    } else if right && bottom {
        WallCollision::CornerBottomRight
    } else if left {
        WallCollision::EdgeLeft
    } else if right {
        WallCollision::EdgeRight
    } else if top {
        WallCollision::EdgeTop
    } else if bottom {
        WallCollision::EdgeBottom
    } else {
        WallCollision::NoCollision
    }
}

/// The same wall as the other side names it: top and bottom change places,
/// and so do left and right.
pub open spec fn turned(wall: WallCollision) -> WallCollision {
    match wall {
        WallCollision::EdgeTop => WallCollision::EdgeBottom,
        WallCollision::EdgeBottom => WallCollision::EdgeTop,
        WallCollision::EdgeLeft => WallCollision::EdgeRight,
        WallCollision::EdgeRight => WallCollision::EdgeLeft,
        WallCollision::CornerTopLeft => WallCollision::CornerBottomRight,
        WallCollision::CornerTopRight => WallCollision::CornerBottomLeft,
        WallCollision::CornerBottomLeft => WallCollision::CornerTopRight,
        WallCollision::CornerBottomRight => WallCollision::CornerTopLeft,
        WallCollision::NoCollision => WallCollision::NoCollision,
    }
}

/// The wall that a piece of `color` runs into when it steps from `anchor` by
/// `delta`, named from its own side of the board.
pub open spec fn wall_class(anchor: Position, delta: DeltaPosition, color: Color) -> WallCollision {
    match color {
        Color::White => wall_seen_by_white(anchor, delta),
        Color::Black => turned(wall_seen_by_white(anchor, delta)),
    }
}

/// A step runs into no wall exactly when it stays on the board.
pub proof fn lemma_no_collision_lands(anchor: Position, delta: DeltaPosition, color: Color)
    ensures
        wall_class(anchor, delta, color) == WallCollision::NoCollision <==> step_lands(anchor, delta),
        step_lands(anchor, delta) ==> on_board(stepped(anchor, delta)),
{
}

/// Whether the step moves nowhere.
pub open spec fn zero_vector(delta: DeltaPosition) -> bool {
    delta.0 == 0 && delta.1 == 0
}

} // verus!
