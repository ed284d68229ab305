//! The moves of one piece differ in their targets: no two of them capture on
//! the same square and land on the same square, but for the four arrivals
//! of a pawn that promotes.

use vstd::prelude::*;
use crate::chessembly::board::BoardView;
use crate::chessembly::catalog::{leap, leaps, slide, slides};
use crate::chessembly::geometry::{step_lands, stepped};
use crate::chessembly::machine::step;
use crate::chessembly::{DeltaPosition, distinct_targets, MoveView, on_board, Position};

verus! {

/// The files that `t` lies to the right of `p`.
pub open spec fn offset_x(p: Position, t: Position) -> int {
    t.0 as int - p.0 as int
}

/// The ranks that `t` lies above `p`.
pub open spec fn offset_y(p: Position, t: Position) -> int {
    p.1 as int - t.1 as int
}

/// A step of one square along a rank, a file or a diagonal.
pub open spec fn is_unit(d: DeltaPosition) -> bool {
    -1 <= d.0 <= 1 && -1 <= d.1 <= 1 && !(d.0 == 0 && d.1 == 0)
}

/// Whether the offset `(x, y)` lies on the ray of the unit step `d`.
pub open spec fn on_ray(d: DeltaPosition, x: int, y: int) -> bool {
    &&& d.0 == 0 ==> x == 0
    &&& d.0 == 1 ==> x > 0
    &&& d.0 == -1 ==> x < 0
    &&& d.1 == 0 ==> y == 0
    &&& d.1 == 1 ==> y > 0
    &&& d.1 == -1 ==> y < 0
    &&& d.0 != 0 && d.1 != 0 ==> x == y || x == -y
}

/// How far `t` lies along the unit step `d`.
pub open spec fn progress(d: DeltaPosition, t: Position) -> int {
    (if d.0 == 1 {
        t.0 as int
    } else if d.0 == -1 {
        -(t.0 as int)
    } else {
        0
    }) + (if d.1 == 1 {
        -(t.1 as int)
    } else if d.1 == -1 {
        t.1 as int
    } else {
        0
    })
}

/// Every move of the list lands on the board where it captures.
pub open spec fn all_plain(l: Seq<MoveView>) -> bool {
    forall|i: int|
        0 <= i < l.len() ==> (#[trigger] l[i]).take == l[i].move_to && on_board(l[i].move_to)
}

/// Every move of the list lands by one of the first `n` steps.
pub open spec fn all_by_steps(l: Seq<MoveView>, p: Position, ds: Seq<DeltaPosition>, n: int)
    -> bool {
    forall|i: int|
        0 <= i < l.len() ==> exists|k: int|
            0 <= k < n && offset_x(p, (#[trigger] l[i]).move_to) == ds[k].0 && offset_y(
                p,
                l[i].move_to,
            ) == ds[k].1
}

/// Every move of the list lands on one of the first `n` rays.
pub open spec fn all_on_rays(l: Seq<MoveView>, p: Position, ds: Seq<DeltaPosition>, n: int)
    -> bool {
    forall|i: int|
        0 <= i < l.len() ==> exists|k: int|
            0 <= k < n && on_ray(
                ds[k],
                offset_x(p, (#[trigger] l[i]).move_to),
                offset_y(p, l[i].move_to),
            )
}

/// No two of the first `n` steps are the same.
pub open spec fn steps_differ(ds: Seq<DeltaPosition>, n: int) -> bool {
    forall|i: int, j: int| 0 <= i < j < n ==> #[trigger] ds[i] != #[trigger] ds[j]
}

/// Each of the first `n` steps is a unit.
pub open spec fn steps_are_units(ds: Seq<DeltaPosition>, n: int) -> bool {
    forall|i: int| 0 <= i < n ==> is_unit(#[trigger] ds[i])
}

/// Two lists whose moves never share their targets join to a list of moves
/// with different targets.
pub proof fn lemma_join_distinct(a: Seq<MoveView>, b: Seq<MoveView>)
    requires
        distinct_targets(a),
        distinct_targets(b),
        forall|i: int, j: int|
            0 <= i < a.len() && 0 <= j < b.len() ==> !(#[trigger] a[i]).same_target(#[trigger] b[j]),
    ensures
        distinct_targets(a + b),
{
    let l = a + b;
    assert forall|i: int, j: int| 0 <= i < j < l.len() implies !(#[trigger] l[i]).same_target(
        #[trigger] l[j],
    ) by {
        if j < a.len() {
            assert(!a[i].same_target(a[j]));
        } else if i >= a.len() {
            assert(!b[i - a.len()].same_target(b[j - a.len()]));
        } else {
            assert(!a[i].same_target(b[j - a.len()]));
        }
    }
}

proof fn lemma_join_plain(a: Seq<MoveView>, b: Seq<MoveView>)
    requires
        all_plain(a),
        all_plain(b),
    ensures
        all_plain(a + b),
{
    let l = a + b;
    assert forall|i: int| 0 <= i < l.len() implies (#[trigger] l[i]).take == l[i].move_to
        && on_board(l[i].move_to) by {
        if i < a.len() {
            assert(l[i] == a[i]);
        } else {
            assert(l[i] == b[i - a.len()]);
        }
    }
}

/// Different units have no offset in common.
pub proof fn lemma_rays_apart(d1: DeltaPosition, d2: DeltaPosition, x: int, y: int)
    requires
        is_unit(d1),
        is_unit(d2),
        d1 != d2,
        on_ray(d1, x, y),
    ensures
        !on_ray(d2, x, y),
{
}

/// One slide: its moves land on the ray, each further along than the one
/// before it.
proof fn lemma_slide_shape(b: BoardView, p: Position, cur: Position, d: DeltaPosition, fuel: nat)
    requires
        is_unit(d),
        on_board(p),
        on_board(cur),
        cur == p || on_ray(d, offset_x(p, cur), offset_y(p, cur)),
    ensures
        all_plain(slide(b, p, cur, d, fuel)),
        distinct_targets(slide(b, p, cur, d, fuel)),
        forall|i: int|
            0 <= i < slide(b, p, cur, d, fuel).len() ==> on_ray(
                d,
                offset_x(p, (#[trigger] slide(b, p, cur, d, fuel)[i]).move_to),
                offset_y(p, slide(b, p, cur, d, fuel)[i].move_to),
            ) && progress(d, slide(b, p, cur, d, fuel)[i].move_to) > progress(d, cur),
    decreases fuel,
{
    let l = slide(b, p, cur, d, fuel);
    if fuel == 0 || b.color_at(p) is None || !step_lands(cur, d) {
    } else {
        let next = stepped(cur, d);
        if b.color_at(next) == b.color_at(p) {
        } else if b.color_at(next) is None {
            lemma_slide_shape(b, p, next, d, (fuel - 1) as nat);
            let rest = slide(b, p, next, d, (fuel - 1) as nat);
            assert forall|i: int| 0 <= i < l.len() implies (#[trigger] l[i]).take == l[i].move_to
                && on_board(l[i].move_to) && on_ray(
                d,
                offset_x(p, l[i].move_to),
                offset_y(p, l[i].move_to),
            ) && progress(d, l[i].move_to) > progress(d, cur) by {
                if i > 0 {
                    assert(l[i] == rest[i - 1]);
                }
            }
            assert forall|i: int, j: int| 0 <= i < j < l.len() implies !(#[trigger] l[i]).same_target(
                #[trigger] l[j],
            ) by {
                assert(l[j] == rest[j - 1]);
                if i > 0 {
                    assert(l[i] == rest[i - 1]);
                    assert(!rest[i - 1].same_target(rest[j - 1]));
                }
            }
        } else {
        }
    }
}

/// The slides of a rider along different units: moves with different
/// targets, each on one of the rays.
pub proof fn lemma_slides_shape(b: BoardView, p: Position, ds: Seq<DeltaPosition>, n: int)
    requires
        on_board(p),
        0 <= n <= ds.len(),
        steps_are_units(ds, n),
        steps_differ(ds, n),
    ensures
        all_plain(slides(b, p, ds, n)),
        distinct_targets(slides(b, p, ds, n)),
        all_on_rays(slides(b, p, ds, n), p, ds, n),
    decreases n,
{
    if n > 0 {
        lemma_slides_shape(b, p, ds, n - 1);
        lemma_slide_shape(b, p, p, ds[n - 1], 8);
        let before = slides(b, p, ds, n - 1);
        let here = slide(b, p, p, ds[n - 1], 8);
        let l = slides(b, p, ds, n);
        lemma_join_plain(before, here);
        assert forall|i: int, j: int| 0 <= i < before.len() && 0 <= j < here.len() implies !(
        #[trigger] before[i]).same_target(#[trigger] here[j]) by {
            let k = choose|k: int|
                0 <= k < n - 1 && on_ray(
                    ds[k],
                    offset_x(p, before[i].move_to),
                    offset_y(p, before[i].move_to),
                );
            lemma_rays_apart(
                ds[k],
                ds[n - 1],
                offset_x(p, before[i].move_to),
                offset_y(p, before[i].move_to),
            );
        }
        lemma_join_distinct(before, here);
        assert forall|i: int| 0 <= i < l.len() implies exists|k: int|
            0 <= k < n && on_ray(
                ds[k],
                offset_x(p, (#[trigger] l[i]).move_to),
                offset_y(p, l[i].move_to),
            ) by {
            if i < before.len() {
                assert(l[i] == before[i]);
                let k = choose|k: int|
                    0 <= k < n - 1 && on_ray(
                        ds[k],
                        offset_x(p, before[i].move_to),
                        offset_y(p, before[i].move_to),
                    );
                assert(0 <= k < n);
            } else {
                assert(l[i] == here[i - before.len()]);
                assert(on_ray(ds[n - 1], offset_x(p, l[i].move_to), offset_y(p, l[i].move_to)));
            }
        }
    }
}

/// The steps of a leaper by different steps: moves with different targets,
/// each by one of the steps.
pub proof fn lemma_leaps_shape(b: BoardView, p: Position, ds: Seq<DeltaPosition>, n: int)
    requires
        on_board(p),
        0 <= n <= ds.len(),
        steps_differ(ds, n),
    ensures
        all_plain(leaps(b, p, ds, n)),
        distinct_targets(leaps(b, p, ds, n)),
        all_by_steps(leaps(b, p, ds, n), p, ds, n),
    decreases n,
{
    if n > 0 {
        lemma_leaps_shape(b, p, ds, n - 1);
        let before = leaps(b, p, ds, n - 1);
        let here = leap(b, p, ds[n - 1]);
        let l = leaps(b, p, ds, n);
        assert(all_plain(here));
        lemma_join_plain(before, here);
        assert(distinct_targets(here));
        assert forall|i: int, j: int| 0 <= i < before.len() && 0 <= j < here.len() implies !(
        #[trigger] before[i]).same_target(#[trigger] here[j]) by {
            let k = choose|k: int|
                0 <= k < n - 1 && offset_x(p, before[i].move_to) == ds[k].0 && offset_y(
                    p,
                    before[i].move_to,
                ) == ds[k].1;
            assert(ds[k] != ds[n - 1]);
        }
        lemma_join_distinct(before, here);
        assert forall|i: int| 0 <= i < l.len() implies exists|k: int|
            0 <= k < n && offset_x(p, (#[trigger] l[i]).move_to) == ds[k].0 && offset_y(
                p,
                l[i].move_to,
            ) == ds[k].1 by {
            if i < before.len() {
                assert(l[i] == before[i]);
                let k = choose|k: int|
                    0 <= k < n - 1 && offset_x(p, before[i].move_to) == ds[k].0 && offset_y(
                        p,
                        before[i].move_to,
                    ) == ds[k].1;
                assert(0 <= k < n);
            } else {
                assert(l[i] == here[i - before.len()]);
                assert(offset_x(p, l[i].move_to) == ds[n - 1].0 && offset_y(p, l[i].move_to)
                    == ds[n - 1].1);
            }
        }
    }
}

/// Leaps and slides from one square: different targets where no step lies
/// on a ray.
pub proof fn lemma_leaps_then_slides(
    b: BoardView,
    p: Position,
    steps: Seq<DeltaPosition>,
    n: int,
    rays: Seq<DeltaPosition>,
    m: int,
)
    requires
        on_board(p),
        0 <= n <= steps.len(),
        0 <= m <= rays.len(),
        steps_differ(steps, n),
        steps_are_units(rays, m),
        steps_differ(rays, m),
        forall|i: int, j: int|
            0 <= i < n && 0 <= j < m ==> !on_ray(
                #[trigger] rays[j],
                (#[trigger] steps[i]).0 as int,
                steps[i].1 as int,
            ),
    ensures
        distinct_targets(leaps(b, p, steps, n) + slides(b, p, rays, m)),
{
    lemma_leaps_shape(b, p, steps, n);
    lemma_slides_shape(b, p, rays, m);
    let a = leaps(b, p, steps, n);
    let s = slides(b, p, rays, m);
    assert forall|i: int, j: int| 0 <= i < a.len() && 0 <= j < s.len() implies !(#[trigger] a[i]).same_target(
        #[trigger] s[j],
    ) by {
        let k = choose|k: int|
            0 <= k < n && offset_x(p, a[i].move_to) == steps[k].0 && offset_y(p, a[i].move_to)
                == steps[k].1;
        let r = choose|r: int|
            0 <= r < m && on_ray(rays[r], offset_x(p, s[j].move_to), offset_y(p, s[j].move_to));
        assert(!on_ray(rays[r], steps[k].0 as int, steps[k].1 as int));
    }
    lemma_join_distinct(a, s);
}

/// The leaps by two lists of steps: different targets where the lists have
/// no step in common.
pub proof fn lemma_leaps_then_leaps(
    b: BoardView,
    p: Position,
    first: Seq<DeltaPosition>,
    n: int,
    second: Seq<DeltaPosition>,
    m: int,
)
    requires
        on_board(p),
        0 <= n <= first.len(),
        0 <= m <= second.len(),
        steps_differ(first, n),
        steps_differ(second, m),
        forall|i: int, j: int| 0 <= i < n && 0 <= j < m ==> #[trigger] first[i] != #[trigger] second[j],
    ensures
        distinct_targets(leaps(b, p, first, n) + leaps(b, p, second, m)),
{
    lemma_leaps_shape(b, p, first, n);
    lemma_leaps_shape(b, p, second, m);
    let a = leaps(b, p, first, n);
    let s = leaps(b, p, second, m);
    assert forall|i: int, j: int| 0 <= i < a.len() && 0 <= j < s.len() implies !(#[trigger] a[i]).same_target(
        #[trigger] s[j],
    ) by {
        let k = choose|k: int|
            0 <= k < n && offset_x(p, a[i].move_to) == first[k].0 && offset_y(p, a[i].move_to)
                == first[k].1;
        let r = choose|r: int|
            0 <= r < m && offset_x(p, s[j].move_to) == second[r].0 && offset_y(p, s[j].move_to)
                == second[r].1;
        assert(first[k] != second[r]);
    }
    lemma_join_distinct(a, s);
}

} // verus!
