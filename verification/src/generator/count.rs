//! Counting the floor of a grid.

use super::Tile;
use crate::world::grid::{lemma_index_in_range, lemma_slot_has_coordinates, GridView};
use vstd::prelude::*;

verus! {

/// The number of floor cells among `cells`.
pub open spec fn floor_count_of(cells: Seq<Option<Tile>>) -> nat
    decreases cells.len(),
{
    if cells.len() == 0 {
        0
    } else {
        floor_count_of(cells.drop_last()) + if cells.last() == Some(Tile::Floor) {
            1nat
        } else {
            0nat
        }
    }
}

/// The number of floor cells of a grid.
pub open spec fn floor_count(grid: GridView<Tile>) -> nat {
    floor_count_of(grid.cells)
}

/// There is no more floor than there are cells.
pub proof fn lemma_floor_count_bound(cells: Seq<Option<Tile>>)
    ensures
        floor_count_of(cells) <= cells.len(),
    decreases cells.len(),
{
    if cells.len() > 0 {
        lemma_floor_count_bound(cells.drop_last());
    }
}

/// Where no cell is floor, the count is zero.
pub proof fn lemma_floor_count_zero(cells: Seq<Option<Tile>>)
    requires
        forall|i: int| 0 <= i < cells.len() ==> cells[i] != Some(Tile::Floor),
    ensures
        floor_count_of(cells) == 0,
    decreases cells.len(),
{
    if cells.len() > 0 {
        lemma_floor_count_zero(cells.drop_last());
    }
}

/// Where the count is positive, some cell is floor.
pub proof fn lemma_floor_count_positive(cells: Seq<Option<Tile>>) -> (i: int)
    requires
        floor_count_of(cells) > 0,
    ensures
        0 <= i < cells.len(),
        cells[i] == Some(Tile::Floor),
    decreases cells.len(),
{
    if cells.last() == Some(Tile::Floor) {
        cells.len() - 1
    } else {
        lemma_floor_count_positive(cells.drop_last())
    }
}

/// Writing one cell changes the count by what left and what came.
pub proof fn lemma_floor_count_update(cells: Seq<Option<Tile>>, i: int, value: Option<Tile>)
    requires
        0 <= i < cells.len(),
    ensures
        floor_count_of(cells.update(i, value)) + (if cells[i] == Some(Tile::Floor) {
            1nat
        } else {
            0nat
        }) == floor_count_of(cells) + (if value == Some(Tile::Floor) {
            1nat
        } else {
            0nat
        }),
    decreases cells.len(),
{
    let updated = cells.update(i, value);
    if i == cells.len() - 1 {
        assert(updated.drop_last() =~= cells.drop_last());
    } else {
        lemma_floor_count_update(cells.drop_last(), i, value);
        assert(updated.drop_last() =~= cells.drop_last().update(i, value));
    }
}

/// Carving a wall adds one to the count.
pub proof fn lemma_carve_counts(grid: GridView<Tile>, x: int, y: int)
    requires
        grid.wf(),
        grid.get(x, y) == Some(Tile::Wall),
    ensures
        floor_count(grid.set(x, y, Tile::Floor)) == floor_count(grid) + 1,
{
    lemma_index_in_range(grid.width, grid.height, x, y);
    lemma_floor_count_update(grid.cells, grid.index(x, y), Some(Tile::Floor));
}

/// A grid without a floor cell has a floor count of zero.
pub proof fn lemma_no_floor(grid: GridView<Tile>)
    requires
        grid.wf(),
        forall|x: int, y: int| grid.in_bounds(x, y) ==> grid.get(x, y) != Some(Tile::Floor),
    ensures
        floor_count(grid) == 0,
{
    assert forall|i: int| 0 <= i < grid.cells.len() implies grid.cells[i] != Some(Tile::Floor) by {
        lemma_slot_has_coordinates(grid.width, grid.height, i);
        let x = i % (grid.width as int);
        let y = i / (grid.width as int);
        assert(grid.in_bounds(x, y));
        assert(grid.get(x, y) == grid.cells[i]);
    }
    lemma_floor_count_zero(grid.cells);
}

/// A grid with a positive floor count has a floor cell.
pub proof fn lemma_some_floor(grid: GridView<Tile>) -> (cell: (int, int))
    requires
        grid.wf(),
        floor_count(grid) > 0,
    ensures
        grid.in_bounds(cell.0, cell.1),
        grid.get(cell.0, cell.1) == Some(Tile::Floor),
{
    let i = lemma_floor_count_positive(grid.cells);
    lemma_slot_has_coordinates(grid.width, grid.height, i);
    (i % (grid.width as int), i / (grid.width as int))
}

} // verus!
