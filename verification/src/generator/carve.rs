//! One tick of the carve: every walker steps and carves, some walkers
//! spawn, some are taken away.

use crate::chance::{draw_percent, happens, sample_range};
use super::count::{floor_count, lemma_carve_counts, lemma_floor_count_bound};
use super::direction::Direction;
use super::policy::{turn_table, MakeRoomConfig, RoomType, TABLE_SIZE};
use super::reach::{
    adjacent, all_floor_linked, has_no_floor, is_floor, is_one_region, keeps_floor,
    lemma_carve_keeps_linked, lemma_carve_keeps_region, lemma_linked_kept,
    lemma_room_keeps_linked, lemma_room_keeps_region, linked,
};
use super::walker::{destination, FloorMaker};
use super::{is_room_carved, place_floor, place_room, room_carved, Tile, START_X, START_Y};
use crate::world::grid::{Grid, GridView};
use vstd::prelude::*;

verus! {

/// The chance in percent that a walker spawns another in a tick, given the
/// number of walkers alive: ten points per walker, and no more than
/// certainty.
pub fn spawn_chance(population: usize) -> (chance: usize)
    ensures
        chance == if population >= 10 {
            100
        } else {
            10 * population
        },
{
    if population >= 10 {
        100
    } else {
        10 * population
    }
}

/// The chance in percent that a walker which may be taken away stays, given
/// the number of walkers alive: what the chance to spawn leaves of
/// certainty.
pub fn survival_chance(population: usize) -> (chance: usize)
    ensures
        chance == if population >= 10 {
            0
        } else {
            100 - 10 * population
        },
{
    100 - spawn_chance(population)
}

/// Whether a walker is spared the draw that may take it away: the last of
/// the walkers left is, and so is one that has not stepped yet.
pub fn is_spared(num_left: usize, step_count: u32) -> (spared: bool)
    ensures
        spared == (num_left <= 1 || step_count == 0),
{
    num_left <= 1 || step_count == 0
}

/// Whether `kept` holds the walkers of `from` at the places `picked`, in
/// their order.
pub open spec fn is_selection(kept: Seq<FloorMaker>, from: Seq<FloorMaker>, picked: Seq<int>) -> bool {
    &&& picked.len() == kept.len()
    &&& forall|k: int| 0 <= k < picked.len() ==> 0 <= #[trigger] picked[k] < from.len()
    &&& forall|j: int, k: int| 0 <= j < k < picked.len() ==> picked[j] < picked[k]
    &&& forall|k: int| 0 <= k < picked.len() ==> #[trigger] kept[k] == from[picked[k]]
}

/// The chance in percent that a walker which may be taken away stays,
/// given the number of walkers alive.
pub open spec fn staying_chance(population: int) -> int {
    if population >= 10 {
        0
    } else {
        100 - 10 * population
    }
}

/// Whether a walker stays when `num_left` walkers are left before it is
/// looked at and `drawn` is the number drawn for it: it stays if it is
/// spared or if the draw falls below the chance.
pub open spec fn stays(num_left: int, walker: FloorMaker, chance: int, drawn: usize) -> bool {
    num_left <= 1 || walker.step_count == 0 || drawn < chance
}

/// The number of walkers left once the walkers of `walkers` have been
/// looked at in their order, each with its draw, of `total` walkers at
/// the outset.
pub open spec fn left_after(
    walkers: Seq<FloorMaker>,
    draws: Seq<usize>,
    total: int,
    chance: int,
) -> int
    decreases walkers.len(),
{
    if walkers.len() == 0 {
        total
    } else {
        let before = left_after(walkers.drop_last(), draws.drop_last(), total, chance);
        if stays(before, walkers.last(), chance, draws.last()) {
            before
        } else {
            before - 1
        }
    }
}

/// Those of `walkers` that stay once they have been looked at in their
/// order, each with its draw, of `total` walkers at the outset.
pub open spec fn kept_of(
    walkers: Seq<FloorMaker>,
    draws: Seq<usize>,
    total: int,
    chance: int,
) -> Seq<FloorMaker>
    decreases walkers.len(),
{
    if walkers.len() == 0 {
        Seq::empty()
    } else {
        let kept = kept_of(walkers.drop_last(), draws.drop_last(), total, chance);
        if stays(
            left_after(walkers.drop_last(), draws.drop_last(), total, chance),
            walkers.last(),
            chance,
            draws.last(),
        ) {
            kept.push(walkers.last())
        } else {
            kept
        }
    }
}

/// The walkers that are left of `walkers` when `draws` holds the number
/// drawn for each. The walkers are looked at in their order. A walker
/// that is spared stays: the last of the walkers left, and one that has
/// not stepped yet. Each other stays if its draw falls below the chance
/// that the number of walkers at the outset gives, and is taken away if
/// not.
pub open spec fn culled(walkers: Seq<FloorMaker>, draws: Seq<usize>) -> Seq<FloorMaker> {
    kept_of(
        walkers,
        draws.take(walkers.len() as int),
        walkers.len() as int,
        staying_chance(walkers.len() as int),
    )
}

/// Takes walkers away by the numbers drawn for them: `draws` holds one
/// number for each walker, in their order.
pub fn cull_with(floor_makers: Vec<FloorMaker>, draws: &Vec<usize>) -> (kept: Vec<FloorMaker>)
    requires
        draws@.len() >= floor_makers@.len(),
    ensures
        kept@ == culled(floor_makers@, draws@),
        floor_makers@.len() > 0 ==> kept@.len() > 0,
        floor_makers@.len() <= 1 ==> kept@ == floor_makers@,
        exists|picked: Seq<int>|
            {
                &&& #[trigger] is_selection(kept@, floor_makers@, picked)
                &&& forall|i: int|
                    0 <= i < floor_makers@.len() && floor_makers@[i].step_count == 0
                        ==> picked.contains(i)
            },
{
    let population = floor_makers.len();
    let chance = survival_chance(population);
    let ghost from = floor_makers@;
    let ghost numbers = draws@.take(population as int);
    let ghost mut picked: Seq<int> = Seq::empty();
    let mut kept: Vec<FloorMaker> = Vec::new();
    let mut num_left: usize = population;
    let mut at: usize = 0;
    proof {
        assert(from.take(0) =~= Seq::<FloorMaker>::empty());
    }
    for walker in it: floor_makers
        invariant
            it.seq() == from,
            population == from.len(),
            at == it.index(),
            draws@.len() >= population,
            numbers == draws@.take(population as int),
            chance == staying_chance(population as int),
            num_left == left_after(
                from.take(at as int),
                numbers.take(at as int),
                population as int,
                chance as int,
            ),
            kept@ == kept_of(
                from.take(at as int),
                numbers.take(at as int),
                population as int,
                chance as int,
            ),
            num_left + it.index() == population + kept@.len(),
            kept@.len() <= it.index(),
            num_left >= 1 || population == 0,
            it.index() < population ==> num_left > kept@.len(),
            population <= 1 ==> kept@ == from.take(it.index() as int),
            is_selection(kept@, from, picked),
            forall|k: int| 0 <= k < picked.len() ==> #[trigger] picked[k] < it.index(),
            forall|i: int|
                0 <= i < it.index() && from[i].step_count == 0 ==> picked.contains(i),
    {
        let ghost index = it.index() as int;
        let drawn = draws[at];
        proof {
            assert(from.take(index + 1).drop_last() =~= from.take(index));
            assert(from.take(index + 1).last() == walker);
            assert(numbers.take(index + 1).drop_last() =~= numbers.take(index));
            assert(numbers.take(index + 1).last() == drawn);
        }
        let stays = is_spared(num_left, walker.step_count) || happens(chance, drawn);
        if !stays {
            num_left -= 1;
        }
        if stays {
            kept.push(walker);
            proof {
                let longer = picked.push(index);
                assert(longer[picked.len() as int] == index);
                assert forall|i: int|
                    0 <= i < index + 1 && from[i].step_count == 0 implies longer.contains(i) by {
                    if i < index {
                        assert(picked.contains(i));
                        let k = choose|k: int| 0 <= k < picked.len() && picked[k] == i;
                        assert(longer[k] == i);
                    } else {
                        assert(longer[picked.len() as int] == i);
                    }
                }
                picked = longer;
                if population <= 1 {
                    assert(kept@ =~= from.take(index + 1));
                }
            }
        }
        at += 1;
    }
    proof {
        assert(from.take(population as int) =~= from);
        assert(numbers.take(population as int) =~= numbers);
    }
    kept
}

/// Takes walkers away at random: draws a number of percent points for
/// each walker and takes away by them.
pub fn cull(floor_makers: Vec<FloorMaker>) -> (kept: Vec<FloorMaker>)
    ensures
        exists|draws: Seq<usize>|
            {
                &&& draws.len() == floor_makers@.len()
                &&& forall|i: int| 0 <= i < draws.len() ==> #[trigger] draws[i] < 100
                &&& kept@ == #[trigger] culled(floor_makers@, draws)
            },
        floor_makers@.len() > 0 ==> kept@.len() > 0,
        floor_makers@.len() <= 1 ==> kept@ == floor_makers@,
        exists|picked: Seq<int>|
            {
                &&& #[trigger] is_selection(kept@, floor_makers@, picked)
                &&& forall|i: int|
                    0 <= i < floor_makers@.len() && floor_makers@[i].step_count == 0
                        ==> picked.contains(i)
            },
{
    let population = floor_makers.len();
    let mut draws: Vec<usize> = Vec::new();
    while draws.len() < population
        invariant
            draws@.len() <= population,
            forall|i: int| 0 <= i < draws@.len() ==> #[trigger] draws@[i] < 100,
        decreases population - draws@.len(),
    {
        draws.push(draw_percent());
    }
    let kept = cull_with(floor_makers, &draws);
    assert(kept@ == culled(floor_makers@, draws@));
    kept
}

/// Whether every slot of the grid holds a tile.
pub open spec fn is_full(grid: GridView<Tile>) -> bool {
    forall|x: int, y: int| grid.in_bounds(x, y) ==> (#[trigger] grid.get(x, y)) is Some
}

/// Whether the walker stands inside the grid, on a cell that can be walked
/// to from `start`.
pub open spec fn is_placed(grid: GridView<Tile>, start: (int, int), walker: FloorMaker) -> bool {
    &&& grid.in_bounds(walker.x as int, walker.y as int)
    &&& linked(grid, start, (walker.x as int, walker.y as int))
}

pub open spec fn all_placed(grid: GridView<Tile>, start: (int, int), walkers: Seq<FloorMaker>) -> bool {
    forall|i: int| 0 <= i < walkers.len() ==> is_placed(grid, start, #[trigger] walkers[i])
}

/// Whether every walker stands on floor.
pub open spec fn all_on_floor(grid: GridView<Tile>, walkers: Seq<FloorMaker>) -> bool {
    forall|i: int|
        0 <= i < walkers.len() ==> is_floor(
            grid,
            ((#[trigger] walkers[i]).x as int, walkers[i].y as int),
        )
}

/// Whether the walkers stand where a carve has them: on floor, or, while
/// there is no floor yet, there is no more than the one walker that sets
/// out.
pub open spec fn is_settled(grid: GridView<Tile>, walkers: Seq<FloorMaker>) -> bool {
    all_on_floor(grid, walkers) || (has_no_floor(grid) && walkers.len() <= 1)
}

/// What holds between the ticks of a carve: the grid has no empty slot;
/// its floor is one region, all of which can be walked to from `start`;
/// and every walker stands inside the grid, on floor once there is floor.
pub open spec fn is_carving(grid: GridView<Tile>, start: (int, int), walkers: Seq<FloorMaker>) -> bool {
    &&& grid.wf()
    &&& is_full(grid)
    &&& all_floor_linked(grid, start)
    &&& is_one_region(grid)
    &&& all_placed(grid, start, walkers)
    &&& is_settled(grid, walkers)
}

/// Walkers on floor stay on floor when floor is added.
pub proof fn lemma_on_floor_kept(
    before: GridView<Tile>,
    after: GridView<Tile>,
    walkers: Seq<FloorMaker>,
)
    requires
        keeps_floor(before, after),
        all_on_floor(before, walkers),
    ensures
        all_on_floor(after, walkers),
{
    assert forall|i: int| 0 <= i < walkers.len() implies is_floor(
        after,
        ((#[trigger] walkers[i]).x as int, walkers[i].y as int),
    ) by {
        assert(is_floor(before, (walkers[i].x as int, walkers[i].y as int)));
    }
}

/// A step ends inside the grid if it began there, on the cell it began on
/// or on one that shares a side with it.
pub proof fn lemma_destination(x: int, y: int, direction: Direction, width: int, height: int)
    requires
        0 <= x < width,
        0 <= y < height,
    ensures
        ({
            let to = destination(x, y, direction, width, height);
            &&& 0 <= to.0 < width
            &&& 0 <= to.1 < height
            &&& (to == (x, y) || adjacent((x, y), to))
        }),
{
}

/// Walkers stay placed when floor is added.
pub proof fn lemma_placed_kept(
    before: GridView<Tile>,
    after: GridView<Tile>,
    start: (int, int),
    walkers: Seq<FloorMaker>,
)
    requires
        keeps_floor(before, after),
        after.width == before.width,
        after.height == before.height,
        all_placed(before, start, walkers),
    ensures
        all_placed(after, start, walkers),
{
    assert forall|i: int| 0 <= i < walkers.len() implies is_placed(
        after,
        start,
        #[trigger] walkers[i],
    ) by {
        assert(is_placed(before, start, walkers[i]));
        lemma_linked_kept(before, after, start, (walkers[i].x as int, walkers[i].y as int));
    }
}

/// Carving where a walker has stepped keeps the carve in order, and the
/// walker's cell is floor afterwards.
pub proof fn lemma_carve_step(
    grid: GridView<Tile>,
    start: (int, int),
    from: (int, int),
    to: (int, int),
)
    requires
        grid.wf(),
        is_full(grid),
        all_floor_linked(grid, start),
        grid.in_bounds(to.0, to.1),
        linked(grid, start, from),
        adjacent(from, to) || from == to,
    ensures
        ({
            let after = if grid.get(to.0, to.1) == Some(Tile::Wall) {
                grid.set(to.0, to.1, Tile::Floor)
            } else {
                grid
            };
            &&& after.wf()
            &&& is_full(after)
            &&& all_floor_linked(after, start)
            &&& keeps_floor(grid, after)
            &&& is_floor(after, to)
            &&& linked(after, start, to)
        }),
{
    if grid.get(to.0, to.1) == Some(Tile::Wall) {
        let after = grid.set(to.0, to.1, Tile::Floor);
        lemma_carve_keeps_linked(grid, start, from, to);
        assert forall|x: int, y: int| after.in_bounds(x, y) implies (#[trigger] after.get(
            x,
            y,
        )) is Some by {
            grid.lemma_get_set(to.0, to.1, Tile::Floor, x, y);
        }
        grid.lemma_get_set(to.0, to.1, Tile::Floor, to.0, to.1);
        assert(is_floor(after, to));
    } else {
        assert(grid.get(to.0, to.1) is Some);
        let tile = grid.get(to.0, to.1)->0;
        assert(tile == Tile::Floor || tile == Tile::Wall);
        assert(grid.get(to.0, to.1) == Some(tile));
        assert(is_floor(grid, (to.0, to.1)));
    }
}

/// Stamping a room where a walker stands on floor keeps the carve in order.
pub proof fn lemma_room_step(
    before: GridView<Tile>,
    after: GridView<Tile>,
    start: (int, int),
    x: int,
    y: int,
    side: int,
)
    requires
        before.wf(),
        is_full(before),
        all_floor_linked(before, start),
        is_floor(before, (x, y)),
        is_room_carved(before, after, x, y, side),
    ensures
        is_full(after),
        all_floor_linked(after, start),
        keeps_floor(before, after),
{
    lemma_room_keeps_linked(before, after, start, x, y, side);
    assert forall|cx: int, cy: int| after.in_bounds(cx, cy) implies (#[trigger] after.get(
        cx,
        cy,
    )) is Some by {
        assert(before.get(cx, cy) is Some);
    }
}

/// A grid of `u32` dimensions has fewer cells than a `u64` can count.
pub proof fn lemma_floor_fits(grid: GridView<Tile>)
    requires
        grid.wf(),
        grid.width <= u32::MAX,
        grid.height <= u32::MAX,
    ensures
        floor_count(grid) < u64::MAX,
{
    lemma_floor_count_bound(grid.cells);
    assert(grid.width * grid.height < u64::MAX) by (nonlinear_arith)
        requires
            grid.width <= u32::MAX,
            grid.height <= u32::MAX,
    ;
}

/// The cell on which a carve starts.
pub open spec fn start_cell() -> (int, int) {
    (START_X as int, START_Y as int)
}

/// The grid after a walker has come to stand on `(x, y)`: a wall there
/// has become floor, and `room` has been stamped with its least corner
/// there. Where the walker has come to stand on floor nothing has changed.
pub open spec fn carved_at(grid: GridView<Tile>, x: int, y: int, room: RoomType) -> GridView<Tile> {
    if grid.get(x, y) == Some(Tile::Wall) {
        room_carved(grid.set(x, y, Tile::Floor), x, y, room.spec_side() as int)
    } else {
        grid
    }
}

/// The grid after the walkers have carved where they stand, one after the
/// other; `rooms` holds the room that each would stamp.
pub open spec fn carved_along(
    grid: GridView<Tile>,
    walkers: Seq<FloorMaker>,
    rooms: Seq<RoomType>,
) -> GridView<Tile>
    decreases walkers.len(),
{
    if walkers.len() == 0 {
        grid
    } else {
        carved_at(
            carved_along(grid, walkers.drop_last(), rooms.drop_last()),
            walkers.last().x as int,
            walkers.last().y as int,
            rooms.last(),
        )
    }
}

/// The numbers drawn for one tick of a carve.
pub struct TickDraws {
    /// For each walker, the slot of its turn policy from which its turn is
    /// taken.
    pub turns: Vec<usize>,
    /// For each walker, the slot of the room policy from which its room
    /// is taken, should it carve.
    pub rooms: Vec<usize>,
    /// For each walker, the percent points that decide whether it spawns.
    pub spawns: Vec<usize>,
    /// For each walker, the index of the facing of the walker that it
    /// spawns, should it spawn.
    pub facings: Vec<usize>,
    /// For each walker that has stepped and then for each that was
    /// spawned, the percent points that decide whether it stays.
    pub culls: Vec<usize>,
}

impl TickDraws {
    /// Whether there are numbers enough for a tick of `population`
    /// walkers, and the slots are slots of a policy table.
    pub open spec fn fits(&self, population: int) -> bool {
        &&& self.turns@.len() >= population
        &&& self.rooms@.len() >= population
        &&& self.spawns@.len() >= population
        &&& self.facings@.len() >= population
        &&& self.culls@.len() >= 2 * population
        &&& forall|i: int| 0 <= i < population ==> (#[trigger] self.turns@[i]) < 100
        &&& forall|i: int| 0 <= i < population ==> (#[trigger] self.rooms@[i]) < 100
    }

    /// Draws the numbers for a tick of `population` walkers.
    pub fn draw(population: usize) -> (draws: TickDraws)
        ensures
            draws.fits(population as int),
    {
        let turns = draw_many(population, TABLE_SIZE);
        let rooms = draw_many(population, TABLE_SIZE);
        let spawns = draw_many(population, 100);
        let facings = draw_many(population, 4);
        let mut culls = draw_many(population, 100);
        let mut more = draw_many(population, 100);
        culls.append(&mut more);
        TickDraws { turns, rooms, spawns, facings, culls }
    }
}

/// Draws `count` numbers below `high`.
pub fn draw_many(count: usize, high: usize) -> (drawn: Vec<usize>)
    requires
        high > 0,
    ensures
        drawn@.len() == count,
        forall|i: int| 0 <= i < count ==> (#[trigger] drawn@[i]) < high,
{
    let mut drawn: Vec<usize> = Vec::new();
    while drawn.len() < count
        invariant
            high > 0,
            drawn@.len() <= count,
            forall|i: int| 0 <= i < drawn@.len() ==> (#[trigger] drawn@[i]) < high,
        decreases count - drawn@.len(),
    {
        drawn.push(sample_range(0, high));
    }
    drawn
}

/// The chance in percent that a walker spawns another in a tick, given
/// the number of walkers alive.
pub open spec fn spawning_chance(population: int) -> int {
    if population >= 10 {
        100
    } else {
        10 * population
    }
}

/// The walkers after each has turned by the turn in the drawn slot of its
/// own policy, and stepped.
pub open spec fn stepped_by(
    walkers: Seq<FloorMaker>,
    turns: Seq<usize>,
    width: int,
    height: int,
) -> Seq<FloorMaker> {
    Seq::new(
        walkers.len(),
        |i: int|
            walkers[i].advanced(walkers[i].turn_chance_config@[turns[i] as int], width, height),
    )
}

/// The rooms in the drawn slots of the room policy, for `count` walkers.
pub open spec fn rooms_by(table: Seq<RoomType>, rooms: Seq<usize>, count: int) -> Seq<RoomType> {
    Seq::new(count as nat, |i: int| table[rooms[i] as int])
}

/// Where and with which facing walkers are spawned by the first `count`
/// of the walkers that have stepped: each whose draw falls below the
/// chance spawns one, on its own cell, with the facing of the drawn
/// index.
pub open spec fn spawn_plan(
    stepped: Seq<FloorMaker>,
    spawns: Seq<usize>,
    facings: Seq<usize>,
    chance: int,
    count: nat,
) -> Seq<(u32, u32, Direction)>
    decreases count,
{
    if count == 0 {
        Seq::empty()
    } else {
        let before = spawn_plan(stepped, spawns, facings, chance, (count - 1) as nat);
        if spawns[count - 1] < chance {
            before.push(
                (
                    stepped[count - 1].x,
                    stepped[count - 1].y,
                    Direction::indexed(facings[count - 1] as int),
                ),
            )
        } else {
            before
        }
    }
}

/// Whether `spawned` are the walkers of a plan: each where and as the plan
/// has it, with no step taken, turning left, right and around with ten
/// percent each.
pub open spec fn is_spawned(spawned: Seq<FloorMaker>, plan: Seq<(u32, u32, Direction)>) -> bool {
    &&& spawned.len() == plan.len()
    &&& forall|k: int|
        0 <= k < spawned.len() ==> {
            &&& (#[trigger] spawned[k]).x == plan[k].0
            &&& spawned[k].y == plan[k].1
            &&& spawned[k].direction == plan[k].2
            &&& spawned[k].step_count == 0
            &&& spawned[k].turn_chance_config@ == turn_table(10, 10, 10)
        }
}

/// Whether one tick with the numbers `draws` leads from `grid` and
/// `walkers` to `grid_after` and `walkers_after`, with `spawned` the
/// walkers that were spawned. The walkers step, each by the turn it drew;
/// they carve where they come to stand, in their order, each with the
/// room it drew; those that draw below the chance to spawn do so; and of
/// the walkers that have stepped, followed by the spawned, those stay
/// that the draws to stay leave.
pub open spec fn is_tick_by(
    grid: GridView<Tile>,
    walkers: Seq<FloorMaker>,
    table: Seq<RoomType>,
    draws: TickDraws,
    grid_after: GridView<Tile>,
    walkers_after: Seq<FloorMaker>,
    spawned: Seq<FloorMaker>,
) -> bool {
    let stepped = stepped_by(walkers, draws.turns@, grid.width as int, grid.height as int);
    &&& grid_after == carved_along(grid, stepped, rooms_by(table, draws.rooms@, walkers.len() as int))
    &&& is_spawned(
        spawned,
        spawn_plan(
            stepped,
            draws.spawns@,
            draws.facings@,
            spawning_chance(walkers.len() as int),
            walkers.len(),
        ),
    )
    &&& walkers_after == culled(stepped + spawned, draws.culls@)
}

/// A plan reads of the walkers only where the first `count` of them
/// stand.
pub proof fn lemma_spawn_plan_agrees(
    a: Seq<FloorMaker>,
    b: Seq<FloorMaker>,
    spawns: Seq<usize>,
    facings: Seq<usize>,
    chance: int,
    count: nat,
)
    requires
        forall|j: int| 0 <= j < count ==> (#[trigger] a[j]).x == b[j].x && a[j].y == b[j].y,
    ensures
        spawn_plan(a, spawns, facings, chance, count) == spawn_plan(
            b,
            spawns,
            facings,
            chance,
            count,
        ),
    decreases count,
{
    if count > 0 {
        lemma_spawn_plan_agrees(a, b, spawns, facings, chance, (count - 1) as nat);
        assert(a[count - 1].x == b[count - 1].x && a[count - 1].y == b[count - 1].y);
    }
}

/// What a walker does where it has come to stand on `(x, y)` from `from`:
/// it carves the cell if it is a wall, and then stamps the room in the
/// slot `room` of the room policy. Returns the number of cells that became
/// floor.
pub(crate) fn carve_where(
    x: u32,
    y: u32,
    grid: &mut Grid<Tile>,
    make_room_config: &MakeRoomConfig,
    room: usize,
    from: Ghost<(int, int)>,
) -> (carved: u64)
    requires
        room < 100,
        old(grid)@.wf(),
        is_full(old(grid)@),
        all_floor_linked(old(grid)@, start_cell()),
        is_one_region(old(grid)@),
        old(grid)@.in_bounds(x as int, y as int),
        linked(old(grid)@, start_cell(), from@),
        adjacent(from@, (x as int, y as int)) || from@ == (x as int, y as int),
        has_no_floor(old(grid)@) || is_floor(old(grid)@, from@),
    ensures
        final(grid)@.wf(),
        final(grid)@.width == old(grid)@.width,
        final(grid)@.height == old(grid)@.height,
        is_full(final(grid)@),
        all_floor_linked(final(grid)@, start_cell()),
        is_one_region(final(grid)@),
        keeps_floor(old(grid)@, final(grid)@),
        is_floor(final(grid)@, (x as int, y as int)),
        linked(final(grid)@, start_cell(), (x as int, y as int)),
        final(grid)@ == carved_at(old(grid)@, x as int, y as int, make_room_config@[room as int]),
        floor_count(final(grid)@) == floor_count(old(grid)@) + carved,
{
    let ghost start = start_cell();
    let ghost from = from@;
    let ghost before = grid@;
    let ghost to = (x as int, y as int);
    let width = grid.width();
    let height = grid.height();
    proof {
        lemma_carve_step(before, start, from, to);
        lemma_floor_fits(before);
        if before.get(to.0, to.1) == Some(Tile::Wall) {
            lemma_carve_counts(before, to.0, to.1);
            before.lemma_get_set(to.0, to.1, Tile::Floor, to.0, to.1);
            lemma_carve_keeps_region(before, from, to);
        }
    }
    let placed = place_floor(x, y, grid);
    let ghost carved_grid = grid@;
    let mut carved: u64 = 0;
    proof {
        lemma_floor_fits(carved_grid);
    }
    if placed {
        carved += 1;
        let room_type = make_room_config.room_type_at(room);
        let in_room = place_room(room_type, x, y, grid);
        proof {
            lemma_room_step(carved_grid, grid@, start, to.0, to.1, room_type.spec_side() as int);
            lemma_room_keeps_region(
                carved_grid,
                grid@,
                to.0,
                to.1,
                room_type.spec_side() as int,
            );
            lemma_floor_fits(grid@);
        }
        carved += in_room as u64;
    }
    proof {
        lemma_linked_kept(carved_grid, grid@, start, to);
        assert(is_floor(grid@, (to.0, to.1)));
    }
    carved
}

/// One tick of a carve with the numbers `draws`. Every walker turns and
/// steps; where it comes to stand on a wall it carves the cell and stamps
/// its room, and where its draw falls below the chance to spawn it spawns
/// a walker on its cell. Then the spawned walkers join the others, and
/// the draws to stay decide who is taken away. Returns the number of cells
/// that became floor.
pub fn tick_with(
    grid: &mut Grid<Tile>,
    floor_makers: &mut Vec<FloorMaker>,
    make_room_config: &MakeRoomConfig,
    draws: &TickDraws,
) -> (carved: u64)
    requires
        is_carving(old(grid)@, start_cell(), old(floor_makers)@),
        old(floor_makers)@.len() > 0,
        draws.fits(old(floor_makers)@.len() as int),
    ensures
        is_carving(final(grid)@, start_cell(), final(floor_makers)@),
        final(floor_makers)@.len() > 0,
        final(grid)@.width == old(grid)@.width,
        final(grid)@.height == old(grid)@.height,
        keeps_floor(old(grid)@, final(grid)@),
        floor_count(final(grid)@) == floor_count(old(grid)@) + carved,
        exists|spawned: Seq<FloorMaker>| #[trigger]
            is_tick_by(
                old(grid)@,
                old(floor_makers)@,
                make_room_config@,
                *draws,
                final(grid)@,
                final(floor_makers)@,
                spawned,
            ),
{
    let ghost start = start_cell();
    let population = floor_makers.len();
    let chance = spawn_chance(population);
    let width = grid.width();
    let height = grid.height();
    let mut new_floor_makers: Vec<FloorMaker> = Vec::new();
    let mut carved: u64 = 0;
    let ghost table = make_room_config@;
    let mut i: usize = 0;
    proof {
        assert(floor_makers@.take(0) =~= Seq::<FloorMaker>::empty());
    }
    while i < population
        invariant
            i <= population,
            floor_makers@.len() == population,
            population > 0,
            population == old(floor_makers)@.len(),
            draws.fits(population as int),
            chance == spawning_chance(population as int),
            start == start_cell(),
            table == make_room_config@,
            width == grid@.width,
            height == grid@.height,
            grid@.width == old(grid)@.width,
            grid@.height == old(grid)@.height,
            is_carving(grid@, start, floor_makers@),
            i > 0 ==> all_on_floor(grid@, floor_makers@),
            all_placed(grid@, start, new_floor_makers@),
            all_on_floor(grid@, new_floor_makers@),
            keeps_floor(old(grid)@, grid@),
            floor_count(grid@) == floor_count(old(grid)@) + carved,
            forall|j: int| i <= j < population ==> floor_makers@[j] == old(floor_makers)@[j],
            forall|j: int|
                0 <= j < i ==> #[trigger] floor_makers@[j] == old(floor_makers)@[j].advanced(
                    old(floor_makers)@[j].turn_chance_config@[draws.turns@[j] as int],
                    width as int,
                    height as int,
                ),
            grid@ == carved_along(
                old(grid)@,
                floor_makers@.take(i as int),
                rooms_by(table, draws.rooms@, i as int),
            ),
            new_floor_makers@.len() <= i,
            is_spawned(
                new_floor_makers@,
                spawn_plan(floor_makers@, draws.spawns@, draws.facings@, chance as int, i as nat),
            ),
        decreases population - i,
    {
        let ghost before = grid@;
        let ghost walkers = floor_makers@;
        let ghost from = (walkers[i as int].x as int, walkers[i as int].y as int);
        let ghost plan = spawn_plan(walkers, draws.spawns@, draws.facings@, chance as int, i as nat);
        assert(is_placed(before, start, walkers[i as int]));
        let turn = floor_makers[i].turn_chance_config.turn_at(draws.turns[i]);
        floor_makers[i].advance(turn, width, height);
        let x = floor_makers[i].x;
        let y = floor_makers[i].y;
        let ghost to = (x as int, y as int);
        proof {
            lemma_destination(
                from.0,
                from.1,
                floor_makers@[i as int].direction,
                width as int,
                height as int,
            );
            if all_on_floor(before, walkers) {
                assert(is_floor(before, (walkers[i as int].x as int, walkers[i as int].y as int)));
            }
            lemma_floor_fits(before);
        }
        let gained = carve_where(x, y, grid, make_room_config, draws.rooms[i], Ghost(from));
        proof {
            lemma_floor_fits(grid@);
        }
        carved += gained;
        proof {
            assert(keeps_floor(before, grid@));
            assert(keeps_floor(old(grid)@, grid@));
            lemma_placed_kept(before, grid@, start, walkers);
            lemma_placed_kept(before, grid@, start, new_floor_makers@);
            lemma_on_floor_kept(before, grid@, new_floor_makers@);
            assert(is_placed(grid@, start, floor_makers@[i as int]));
            assert(is_floor(grid@, (to.0, to.1)));
            assert forall|j: int| 0 <= j < floor_makers@.len() implies is_placed(
                grid@,
                start,
                #[trigger] floor_makers@[j],
            ) by {
                if j != i {
                    assert(floor_makers@[j] == walkers[j]);
                    assert(is_placed(grid@, start, walkers[j]));
                }
            }
            assert forall|j: int| 0 <= j < floor_makers@.len() implies is_floor(
                grid@,
                ((#[trigger] floor_makers@[j]).x as int, floor_makers@[j].y as int),
            ) by {
                if j != i {
                    assert(floor_makers@[j] == walkers[j]);
                    assert(all_on_floor(before, walkers));
                    assert(is_floor(before, (walkers[j].x as int, walkers[j].y as int)));
                }
            }
            let earlier = walkers.take(i as int);
            let so_far = floor_makers@.take(i as int + 1);
            assert(so_far.drop_last() =~= earlier);
            assert(so_far.last() == floor_makers@[i as int]);
            let rooms = rooms_by(table, draws.rooms@, i as int + 1);
            assert(rooms.drop_last() =~= rooms_by(table, draws.rooms@, i as int));
            assert(rooms.last() == table[draws.rooms@[i as int] as int]);
            assert forall|j: int| 0 <= j < i + 1 implies #[trigger] floor_makers@[j] == old(
                floor_makers,
            )@[j].advanced(
                old(floor_makers)@[j].turn_chance_config@[draws.turns@[j] as int],
                width as int,
                height as int,
            ) by {
                if j < i {
                    assert(floor_makers@[j] == walkers[j]);
                }
            }
            assert forall|j: int| 0 <= j < i implies (#[trigger] walkers[j]).x == floor_makers@[j].x
                && walkers[j].y == floor_makers@[j].y by {
                assert(floor_makers@[j] == walkers[j]);
            }
            lemma_spawn_plan_agrees(
                walkers,
                floor_makers@,
                draws.spawns@,
                draws.facings@,
                chance as int,
                i as nat,
            );
        }
        if happens(chance, draws.spawns[i]) {
            let spawned = FloorMaker::with_direction(
                x,
                y,
                Direction::from_index(draws.facings[i]),
            );
            assert(is_placed(grid@, start, spawned));
            assert(is_floor(grid@, (spawned.x as int, spawned.y as int)));
            let ghost earlier_spawned = new_floor_makers@;
            new_floor_makers.push(spawned);
            proof {
                let longer = spawn_plan(
                    floor_makers@,
                    draws.spawns@,
                    draws.facings@,
                    chance as int,
                    (i + 1) as nat,
                );
                assert(longer == plan.push((x, y, Direction::indexed(draws.facings@[i as int] as int))));
                assert forall|k: int| 0 <= k < new_floor_makers@.len() implies is_placed(
                    grid@,
                    start,
                    #[trigger] new_floor_makers@[k],
                ) by {
                    if k < earlier_spawned.len() {
                        assert(new_floor_makers@[k] == earlier_spawned[k]);
                    }
                }
                assert forall|k: int| 0 <= k < new_floor_makers@.len() implies is_floor(
                    grid@,
                    ((#[trigger] new_floor_makers@[k]).x as int, new_floor_makers@[k].y as int),
                ) by {
                    if k < earlier_spawned.len() {
                        assert(new_floor_makers@[k] == earlier_spawned[k]);
                    }
                }
                assert forall|k: int| 0 <= k < new_floor_makers@.len() implies {
                    &&& (#[trigger] new_floor_makers@[k]).x == longer[k].0
                    &&& new_floor_makers@[k].y == longer[k].1
                    &&& new_floor_makers@[k].direction == longer[k].2
                    &&& new_floor_makers@[k].step_count == 0
                    &&& new_floor_makers@[k].turn_chance_config@ == turn_table(10, 10, 10)
                } by {
                    if k < earlier_spawned.len() {
                        assert(new_floor_makers@[k] == earlier_spawned[k]);
                        assert(longer[k] == plan[k]);
                    }
                }
            }
        }
        i += 1;
    }
    let ghost stepped = floor_makers@;
    let ghost spawned = new_floor_makers@;
    let ghost all_walkers = stepped + spawned;
    proof {
        assert(stepped.take(population as int) =~= stepped);
        assert(stepped =~= stepped_by(
            old(floor_makers)@,
            draws.turns@,
            width as int,
            height as int,
        ));
    }
    floor_makers.append(&mut new_floor_makers);
    assert(floor_makers@ == all_walkers);
    assert(all_placed(grid@, start, floor_makers@)) by {
        assert forall|j: int| 0 <= j < floor_makers@.len() implies is_placed(
            grid@,
            start,
            #[trigger] floor_makers@[j],
        ) by {
            if j < stepped.len() {
                assert(floor_makers@[j] == stepped[j]);
            } else {
                assert(floor_makers@[j] == spawned[j - stepped.len()]);
            }
        }
    }
    assert(all_on_floor(grid@, floor_makers@)) by {
        assert forall|j: int| 0 <= j < floor_makers@.len() implies is_floor(
            grid@,
            ((#[trigger] floor_makers@[j]).x as int, floor_makers@[j].y as int),
        ) by {
            if j < stepped.len() {
                assert(floor_makers@[j] == stepped[j]);
            } else {
                assert(floor_makers@[j] == spawned[j - stepped.len()]);
            }
        }
    }
    let mut all: Vec<FloorMaker> = Vec::new();
    core::mem::swap(floor_makers, &mut all);
    let kept = cull_with(all, &draws.culls);
    proof {
        let picked = choose|picked: Seq<int>| #[trigger]
            is_selection(kept@, all_walkers, picked);
        assert forall|j: int| 0 <= j < kept@.len() implies is_placed(
            grid@,
            start,
            #[trigger] kept@[j],
        ) by {
            assert(kept@[j] == all_walkers[picked[j]]);
        }
        assert forall|j: int| 0 <= j < kept@.len() implies is_floor(
            grid@,
            ((#[trigger] kept@[j]).x as int, kept@[j].y as int),
        ) by {
            assert(kept@[j] == all_walkers[picked[j]]);
        }
    }
    *floor_makers = kept;
    proof {
        assert(is_tick_by(
            old(grid)@,
            old(floor_makers)@,
            make_room_config@,
            *draws,
            grid@,
            floor_makers@,
            spawned,
        ));
    }
    carved
}

/// One tick of a carve: draws the numbers for it and ticks with them.
pub fn tick(
    grid: &mut Grid<Tile>,
    floor_makers: &mut Vec<FloorMaker>,
    make_room_config: &MakeRoomConfig,
) -> (carved: u64)
    requires
        is_carving(old(grid)@, start_cell(), old(floor_makers)@),
        old(floor_makers)@.len() > 0,
    ensures
        is_carving(final(grid)@, start_cell(), final(floor_makers)@),
        final(floor_makers)@.len() > 0,
        final(grid)@.width == old(grid)@.width,
        final(grid)@.height == old(grid)@.height,
        keeps_floor(old(grid)@, final(grid)@),
        floor_count(final(grid)@) == floor_count(old(grid)@) + carved,
        exists|draws: TickDraws, spawned: Seq<FloorMaker>|
            {
                &&& draws.fits(old(floor_makers)@.len() as int)
                &&& #[trigger] is_tick_by(
                    old(grid)@,
                    old(floor_makers)@,
                    make_room_config@,
                    draws,
                    final(grid)@,
                    final(floor_makers)@,
                    spawned,
                )
            },
{
    let draws = TickDraws::draw(floor_makers.len());
    tick_with(grid, floor_makers, make_room_config, &draws)
}

} // verus!
