//! Which floor can be walked to from the start of the carve.

use super::{is_room_carved, Tile};
use crate::world::grid::{in_rect, GridView};
use vstd::prelude::*;

verus! {

/// Two cells that share a side.
pub open spec fn adjacent(a: (int, int), b: (int, int)) -> bool {
    ||| (a.0 == b.0 && (a.1 == b.1 + 1 || b.1 == a.1 + 1))
    ||| (a.1 == b.1 && (a.0 == b.0 + 1 || b.0 == a.0 + 1))
}

pub open spec fn is_floor(grid: GridView<Tile>, cell: (int, int)) -> bool {
    grid.get(cell.0, cell.1) == Some(Tile::Floor)
}

/// A walk over floor: each cell after the first shares a side with the cell
/// before it and is floor. Of the first cell nothing is asked.
pub open spec fn is_floor_path(grid: GridView<Tile>, path: Seq<(int, int)>) -> bool {
    &&& path.len() > 0
    &&& forall|i: int|
        0 < i < path.len() ==> adjacent(path[i - 1], #[trigger] path[i]) && is_floor(grid, path[i])
}

/// Whether `cell` can be walked to from `start` over floor, in steps from a
/// cell to one that shares a side with it.
pub open spec fn linked(grid: GridView<Tile>, start: (int, int), cell: (int, int)) -> bool {
    exists|path: Seq<(int, int)>|
        #[trigger] is_floor_path(grid, path) && path[0] == start && path.last() == cell
}

/// Whether every floor cell of the grid can be walked to from `start`.
pub open spec fn all_floor_linked(grid: GridView<Tile>, start: (int, int)) -> bool {
    forall|x: int, y: int| #[trigger] is_floor(grid, (x, y)) ==> linked(grid, start, (x, y))
}

/// Whether `after` has floor wherever `before` has.
pub open spec fn keeps_floor(before: GridView<Tile>, after: GridView<Tile>) -> bool {
    forall|x: int, y: int| #[trigger] is_floor(before, (x, y)) ==> is_floor(after, (x, y))
}

/// The start can be walked to from itself.
pub proof fn lemma_start_linked(grid: GridView<Tile>, start: (int, int))
    ensures
        linked(grid, start, start),
{
    let path = seq![start];
    assert(is_floor_path(grid, path));
    assert(path[0] == start && path.last() == start);
}

/// A walk can be taken one step further, onto floor.
pub proof fn lemma_linked_step(
    grid: GridView<Tile>,
    start: (int, int),
    from: (int, int),
    to: (int, int),
)
    requires
        linked(grid, start, from),
        adjacent(from, to),
        is_floor(grid, to),
    ensures
        linked(grid, start, to),
{
    let path = choose|path: Seq<(int, int)>|
        #[trigger] is_floor_path(grid, path) && path[0] == start && path.last() == from;
    let longer = path.push(to);
    assert forall|i: int| 0 < i < longer.len() implies adjacent(
        longer[i - 1],
        #[trigger] longer[i],
    ) && is_floor(grid, longer[i]) by {
        if i < path.len() {
            assert(longer[i] == path[i]);
            assert(longer[i - 1] == path[i - 1]);
        }
    }
    assert(is_floor_path(grid, longer));
    assert(longer[0] == start && longer.last() == to);
}

/// A walk stays a walk when floor is added.
pub proof fn lemma_linked_kept(
    before: GridView<Tile>,
    after: GridView<Tile>,
    start: (int, int),
    cell: (int, int),
)
    requires
        keeps_floor(before, after),
        linked(before, start, cell),
    ensures
        linked(after, start, cell),
{
    let path = choose|path: Seq<(int, int)>|
        #[trigger] is_floor_path(before, path) && path[0] == start && path.last() == cell;
    assert forall|i: int| 0 < i < path.len() implies adjacent(path[i - 1], #[trigger] path[i])
        && is_floor(after, path[i]) by {
        assert(is_floor(before, path[i]));
    }
    assert(is_floor_path(after, path));
}

/// A walk can be taken down a column of floor.
pub proof fn lemma_linked_down(grid: GridView<Tile>, start: (int, int), x: int, y: int, to: int)
    requires
        linked(grid, start, (x, y)),
        y <= to,
        forall|k: int| y < k <= to ==> is_floor(grid, (x, k)),
    ensures
        linked(grid, start, (x, to)),
    decreases to - y,
{
    if y < to {
        lemma_linked_down(grid, start, x, y, to - 1);
        assert(is_floor(grid, (x, to)));
        lemma_linked_step(grid, start, (x, to - 1), (x, to));
    }
}

/// A walk can be taken along a row of floor, towards higher columns.
pub proof fn lemma_linked_right(grid: GridView<Tile>, start: (int, int), x: int, y: int, to: int)
    requires
        linked(grid, start, (x, y)),
        x <= to,
        forall|k: int| x < k <= to ==> is_floor(grid, (k, y)),
    ensures
        linked(grid, start, (to, y)),
    decreases to - x,
{
    if x < to {
        lemma_linked_right(grid, start, x, y, to - 1);
        assert(is_floor(grid, (to, y)));
        lemma_linked_step(grid, start, (to - 1, y), (to, y));
    }
}

/// Carving a cell next to one that can be walked to, or that cell itself,
/// leaves all floor within reach of the start.
pub proof fn lemma_carve_keeps_linked(
    grid: GridView<Tile>,
    start: (int, int),
    from: (int, int),
    to: (int, int),
)
    requires
        grid.wf(),
        all_floor_linked(grid, start),
        linked(grid, start, from),
        adjacent(from, to) || from == to,
    ensures
        all_floor_linked(grid.set(to.0, to.1, Tile::Floor), start),
        keeps_floor(grid, grid.set(to.0, to.1, Tile::Floor)),
{
    let after = grid.set(to.0, to.1, Tile::Floor);
    assert forall|x: int, y: int| true implies #[trigger] after.get(x, y) == if x == to.0 && y
        == to.1 && grid.in_bounds(x, y) {
        Some(Tile::Floor)
    } else {
        grid.get(x, y)
    } by {
        grid.lemma_get_set(to.0, to.1, Tile::Floor, x, y);
    }
    assert(keeps_floor(grid, after)) by {
        assert forall|x: int, y: int| #[trigger] is_floor(grid, (x, y)) implies is_floor(
            after,
            (x, y),
        ) by {
            assert(after.get(x, y) == Some(Tile::Floor));
        }
    }
    assert forall|x: int, y: int| #[trigger] is_floor(after, (x, y)) implies linked(
        after,
        start,
        (x, y),
    ) by {
        if is_floor(grid, (x, y)) {
            lemma_linked_kept(grid, after, start, (x, y));
        } else {
            assert(after.get(x, y) != grid.get(x, y));
            assert(x == to.0 && y == to.1);
            lemma_linked_kept(grid, after, start, from);
            if from != to {
                lemma_linked_step(after, start, from, to);
            }
        }
    }
}

/// Stamping a room whose least corner is floor within reach of the start,
/// on a grid without empty slots, leaves all floor within reach.
pub proof fn lemma_room_keeps_linked(
    before: GridView<Tile>,
    after: GridView<Tile>,
    start: (int, int),
    x: int,
    y: int,
    side: int,
)
    requires
        before.wf(),
        forall|cx: int, cy: int| before.in_bounds(cx, cy) ==> before.get(cx, cy) is Some,
        all_floor_linked(before, start),
        is_floor(before, (x, y)),
        is_room_carved(before, after, x, y, side),
    ensures
        all_floor_linked(after, start),
        keeps_floor(before, after),
{
    assert(keeps_floor(before, after)) by {
        assert forall|cx: int, cy: int| #[trigger] is_floor(before, (cx, cy)) implies is_floor(
            after,
            (cx, cy),
        ) by {
            assert(after.get(cx, cy) == Some(Tile::Floor));
        }
    }
    assert forall|cx: int, cy: int| #[trigger] is_floor(after, (cx, cy)) implies linked(
        after,
        start,
        (cx, cy),
    ) by {
        if is_floor(before, (cx, cy)) {
            lemma_linked_kept(before, after, start, (cx, cy));
        } else {
            assert(after.get(cx, cy) != before.get(cx, cy));
            assert(in_rect(x, y, side, side, cx, cy));
            assert(before.in_bounds(cx, cy));
            assert(before.in_bounds(x, y));
            lemma_linked_kept(before, after, start, (x, y));
            assert forall|k: int| y < k <= cy implies is_floor(after, (x, k)) by {
                assert(before.in_bounds(x, k));
                assert(in_rect(x, y, side, side, x, k));
                assert(before.get(x, k) is Some);
                assert(after.get(x, k) == Some(Tile::Floor));
            }
            lemma_linked_down(after, start, x, y, cy);
            assert forall|k: int| x < k <= cx implies is_floor(after, (k, cy)) by {
                assert(before.in_bounds(k, cy));
                assert(in_rect(x, y, side, side, k, cy));
                assert(before.get(k, cy) is Some);
                assert(after.get(k, cy) == Some(Tile::Floor));
            }
            lemma_linked_right(after, start, x, cy, cx);
        }
    }
}

/// Whether the floor of the grid is one region: from every floor cell
/// every other can be walked to over floor alone.
pub open spec fn is_one_region(grid: GridView<Tile>) -> bool {
    forall|a: (int, int), b: (int, int)|
        is_floor(grid, a) && is_floor(grid, b) ==> #[trigger] linked(grid, a, b)
}

/// Whether the grid has no floor at all.
pub open spec fn has_no_floor(grid: GridView<Tile>) -> bool {
    forall|x: int, y: int| !#[trigger] is_floor(grid, (x, y))
}

/// A walk that sets out from floor can be taken back.
pub proof fn lemma_linked_back(grid: GridView<Tile>, a: (int, int), b: (int, int))
    requires
        linked(grid, a, b),
        is_floor(grid, a),
    ensures
        linked(grid, b, a),
{
    let path = choose|path: Seq<(int, int)>|
        #[trigger] is_floor_path(grid, path) && path[0] == a && path.last() == b;
    let len = path.len() as int;
    let back = Seq::new(path.len(), |i: int| path[len - 1 - i]);
    assert forall|i: int| 0 < i < back.len() implies adjacent(back[i - 1], #[trigger] back[i])
        && is_floor(grid, back[i]) by {
        assert(adjacent(path[len - i - 1], path[len - i]));
        if len - 1 - i > 0 {
            assert(is_floor(grid, path[len - 1 - i]));
        }
    }
    assert(is_floor_path(grid, back));
    assert(back[0] == b && back.last() == a);
}

/// Two walks, the second from where the first ends, make one walk.
pub proof fn lemma_linked_on(grid: GridView<Tile>, a: (int, int), b: (int, int), c: (int, int))
    requires
        linked(grid, a, b),
        linked(grid, b, c),
    ensures
        linked(grid, a, c),
{
    let first = choose|path: Seq<(int, int)>|
        #[trigger] is_floor_path(grid, path) && path[0] == a && path.last() == b;
    let second = choose|path: Seq<(int, int)>|
        #[trigger] is_floor_path(grid, path) && path[0] == b && path.last() == c;
    let whole = first + second.skip(1);
    assert forall|i: int| 0 < i < whole.len() implies adjacent(whole[i - 1], #[trigger] whole[i])
        && is_floor(grid, whole[i]) by {
        if i < first.len() {
            assert(whole[i] == first[i] && whole[i - 1] == first[i - 1]);
        } else {
            let k = i - first.len() + 1;
            assert(whole[i] == second[k]);
            assert(adjacent(second[k - 1], second[k]) && is_floor(grid, second[k]));
            if i == first.len() {
                assert(whole[i - 1] == first.last());
            } else {
                assert(whole[i - 1] == second[k - 1]);
            }
        }
    }
    assert(is_floor_path(grid, whole));
    assert(whole[0] == a);
    if second.len() == 1 {
        assert(whole =~= first);
        assert(whole.last() == c);
    } else {
        assert(whole.last() == second.last());
    }
}

/// Where all floor can be walked to from one floor cell, the floor is one
/// region.
pub proof fn lemma_one_region(grid: GridView<Tile>, root: (int, int))
    requires
        all_floor_linked(grid, root),
        is_floor(grid, root),
    ensures
        is_one_region(grid),
{
    assert forall|a: (int, int), b: (int, int)|
        is_floor(grid, a) && is_floor(grid, b) implies #[trigger] linked(grid, a, b) by {
        assert(is_floor(grid, (a.0, a.1)));
        assert(is_floor(grid, (b.0, b.1)));
        lemma_linked_back(grid, root, a);
        lemma_linked_on(grid, a, root, b);
    }
}

/// Where the floor is one region, all of it can be walked to from each
/// floor cell.
pub proof fn lemma_region_root(grid: GridView<Tile>, root: (int, int))
    requires
        is_one_region(grid),
        is_floor(grid, root),
    ensures
        all_floor_linked(grid, root),
{
    assert forall|x: int, y: int| #[trigger] is_floor(grid, (x, y)) implies linked(
        grid,
        root,
        (x, y),
    ) by {}
}

/// The floor stays one region where a cell is carved next to floor, or
/// where the first floor of a grid is carved.
pub proof fn lemma_carve_keeps_region(grid: GridView<Tile>, from: (int, int), to: (int, int))
    requires
        grid.wf(),
        grid.in_bounds(to.0, to.1),
        is_one_region(grid),
        has_no_floor(grid) || (is_floor(grid, from) && (adjacent(from, to) || from == to)),
    ensures
        is_one_region(grid.set(to.0, to.1, Tile::Floor)),
{
    let after = grid.set(to.0, to.1, Tile::Floor);
    grid.lemma_get_set(to.0, to.1, Tile::Floor, to.0, to.1);
    assert(is_floor(after, (to.0, to.1)));
    if is_floor(grid, from) && (adjacent(from, to) || from == to) {
        lemma_region_root(grid, from);
        lemma_start_linked(grid, from);
        lemma_carve_keeps_linked(grid, from, from, to);
        assert(is_floor(grid, (from.0, from.1)));
        lemma_one_region(after, from);
    } else {
        assert forall|x: int, y: int| #[trigger] is_floor(after, (x, y)) implies linked(
            after,
            to,
            (x, y),
        ) by {
            grid.lemma_get_set(to.0, to.1, Tile::Floor, x, y);
            assert(!is_floor(grid, (x, y)));
            assert(x == to.0 && y == to.1);
            lemma_start_linked(after, to);
        }
        lemma_one_region(after, to);
    }
}

/// The floor stays one region where a room is stamped whose least corner
/// is floor, on a grid without empty slots.
pub proof fn lemma_room_keeps_region(
    before: GridView<Tile>,
    after: GridView<Tile>,
    x: int,
    y: int,
    side: int,
)
    requires
        before.wf(),
        forall|cx: int, cy: int| before.in_bounds(cx, cy) ==> before.get(cx, cy) is Some,
        is_one_region(before),
        is_floor(before, (x, y)),
        is_room_carved(before, after, x, y, side),
    ensures
        is_one_region(after),
{
    lemma_region_root(before, (x, y));
    lemma_room_keeps_linked(before, after, (x, y), x, y, side);
    assert(is_floor(after, (x, y)));
    lemma_one_region(after, (x, y));
}

} // verus!
