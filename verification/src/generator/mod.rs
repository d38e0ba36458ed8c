//! The dungeon carver: walkers that wander over a grid of walls and leave
//! floor behind them.

pub mod carve;
pub mod count;
pub mod direction;
pub mod policy;
pub mod reach;
pub mod walker;

pub use direction::{Direction, TurnType};
pub use policy::{MakeRoomConfig, PolicyError, RoomType, TurnChanceConfig};
pub use walker::FloorMaker;

use crate::world::grid::{
    in_rect, lemma_index_in_range, lemma_index_injective, lemma_slot_has_coordinates, Grid, GridView,
};
use carve::{is_carving, is_full, lemma_floor_fits, tick};
use count::{floor_count, lemma_carve_counts, lemma_no_floor};
use reach::{all_floor_linked, is_one_region, lemma_start_linked};
use vstd::prelude::*;

verus! {

/// What a cell of a generated level is made of.
#[derive(Clone, Copy, Debug, PartialEq, Eq, Structural)]
pub enum Tile {
    Wall,
    Floor,
}

/// Turns the cell at `(x, y)` into floor if it is a wall, and says whether
/// it did. Floor stays floor, and nothing happens outside the grid.
pub fn place_floor(x: u32, y: u32, grid: &mut Grid<Tile>) -> (placed: bool)
    ensures
        placed == (old(grid)@.get(x as int, y as int) == Some(Tile::Wall)),
        final(grid)@ == if placed {
            old(grid)@.set(x as int, y as int, Tile::Floor)
        } else {
            old(grid)@
        },
        final(grid)@.wf(),
{
    proof {
        use_type_invariant(&*grid);
    }
    let is_wall = match grid.get(x, y) {
        Some(tile) => match *tile {
            Tile::Wall => true,
            Tile::Floor => false,
        },
        None => false,
    };
    if is_wall {
        grid.set(x, y, Tile::Floor);
    }
    is_wall
}

/// Whether `after` is `before` with every wall in the square of side
/// `side` whose least corner is `(x, y)` turned into floor, and nothing
/// else changed.
pub open spec fn is_room_carved(
    before: GridView<Tile>,
    after: GridView<Tile>,
    x: int,
    y: int,
    side: int,
) -> bool {
    &&& after.wf()
    &&& after.width == before.width
    &&& after.height == before.height
    &&& forall|cx: int, cy: int|
        #[trigger] after.get(cx, cy) == if in_rect(x, y, side, side, cx, cy) && before.get(cx, cy)
            == Some(Tile::Wall) {
            Some(Tile::Floor)
        } else {
            before.get(cx, cy)
        }
}

/// The grid with every wall in the square of side `side` whose least
/// corner is `(x, y)` turned into floor.
pub open spec fn room_carved(grid: GridView<Tile>, x: int, y: int, side: int) -> GridView<Tile> {
    GridView {
        cells: Seq::new(
            grid.cells.len(),
            |i: int|
                if in_rect(x, y, side, side, i % (grid.width as int), i / (grid.width as int))
                    && grid.cells[i] == Some(Tile::Wall) {
                    Some(Tile::Floor)
                } else {
                    grid.cells[i]
                },
        ),
        ..grid
    }
}

/// The grid with a room carved is the one grid that has the room carved.
pub proof fn lemma_room_carved(grid: GridView<Tile>, x: int, y: int, side: int)
    requires
        grid.wf(),
    ensures
        is_room_carved(grid, room_carved(grid, x, y, side), x, y, side),
        forall|after: GridView<Tile>| #[trigger]
            is_room_carved(grid, after, x, y, side) ==> after == room_carved(grid, x, y, side),
{
    let carved = room_carved(grid, x, y, side);
    assert forall|cx: int, cy: int| #[trigger]
        carved.get(cx, cy) == if in_rect(x, y, side, side, cx, cy) && grid.get(cx, cy) == Some(
            Tile::Wall,
        ) {
            Some(Tile::Floor)
        } else {
            grid.get(cx, cy)
        } by {
        if grid.in_bounds(cx, cy) {
            lemma_index_in_range(grid.width, grid.height, cx, cy);
            let i = grid.index(cx, cy);
            lemma_slot_has_coordinates(grid.width, grid.height, i);
            lemma_index_injective(
                grid.width,
                i % (grid.width as int),
                i / (grid.width as int),
                cx,
                cy,
            );
        }
    }
    assert(is_room_carved(grid, carved, x, y, side));
    assert forall|after: GridView<Tile>| #[trigger]
        is_room_carved(grid, after, x, y, side) implies after == carved by {
        assert forall|cx: int, cy: int| after.in_bounds(cx, cy) implies after.get(cx, cy)
            == carved.get(cx, cy) by {
            assert(after.get(cx, cy) == if in_rect(x, y, side, side, cx, cy) && grid.get(cx, cy)
                == Some(Tile::Wall) {
                Some(Tile::Floor)
            } else {
                grid.get(cx, cy)
            });
        }
        after.lemma_extensional(carved);
    }
}

/// Stamps a room whose least corner is `(x_start, y_start)`: every wall in
/// its square becomes floor, as far as the square lies inside the grid.
/// Returns the number of cells that it turned.
pub fn place_room(room_type: RoomType, x_start: u32, y_start: u32, grid: &mut Grid<Tile>) -> (placed:
    u32)
    ensures
        is_room_carved(
            old(grid)@,
            final(grid)@,
            x_start as int,
            y_start as int,
            room_type.spec_side() as int,
        ),
        final(grid)@ == room_carved(
            old(grid)@,
            x_start as int,
            y_start as int,
            room_type.spec_side() as int,
        ),
        floor_count(final(grid)@) == floor_count(old(grid)@) + placed,
        placed <= room_type.spec_side() * room_type.spec_side(),
{
    proof {
        use_type_invariant(&*grid);
    }
    let side: u32 = room_type.side();
    let ghost s = side as int;
    let x_end: u64 = x_start as u64 + side as u64;
    let y_end: u64 = y_start as u64 + side as u64;
    let x_stop: u32 = if x_end < grid.width() as u64 {
        x_end as u32
    } else {
        grid.width()
    };
    let y_stop: u32 = if y_end < grid.height() as u64 {
        y_end as u32
    } else {
        grid.height()
    };
    let mut turned: u32 = 0;
    let mut y: u32 = y_start;
    while y < y_stop
        invariant
            s == side <= 3,
            x_stop <= grid@.width,
            y_stop <= grid@.height,
            x_stop <= x_start + s,
            y_stop <= y_start + s,
            x_start + s <= x_stop || x_stop == grid@.width,
            y_start + s <= y_stop || y_stop == grid@.height,
            y_start <= y,
            grid@.wf(),
            grid@.width == old(grid)@.width,
            grid@.height == old(grid)@.height,
            turned <= (y - y_start) * s,
            y <= y_stop || turned == 0,
            floor_count(grid@) == floor_count(old(grid)@) + turned,
            forall|cx: int, cy: int|
                #[trigger] grid@.get(cx, cy) == if in_rect(x_start as int, y_start as int, s, s, cx, cy)
                    && cy < y && old(grid)@.get(cx, cy) == Some(Tile::Wall) {
                    Some(Tile::Floor)
                } else {
                    old(grid)@.get(cx, cy)
                },
        decreases y_stop - y,
    {
        let mut x: u32 = x_start;
        let ghost row_start = turned;
        assert(row_start <= 6) by (nonlinear_arith)
            requires
                row_start <= (y - y_start) * s,
                0 <= y - y_start < s <= 3,
        ;
        while x < x_stop
            invariant
                s == side <= 3,
                x_stop <= grid@.width,
                y_stop <= grid@.height,
                x_stop <= x_start + s,
                y_stop <= y_start + s,
                x_start + s <= x_stop || x_stop == grid@.width,
                y_start <= y < y_stop,
                x_start <= x,
                grid@.wf(),
                grid@.width == old(grid)@.width,
                grid@.height == old(grid)@.height,
                row_start <= (y - y_start) * s,
                row_start <= 6,
                turned <= row_start + (x - x_start),
                x <= x_stop || turned == row_start,
                floor_count(grid@) == floor_count(old(grid)@) + turned,
                forall|cx: int, cy: int|
                    #[trigger] grid@.get(cx, cy) == if in_rect(
                        x_start as int,
                        y_start as int,
                        s,
                        s,
                        cx,
                        cy,
                    ) && (cy < y || (cy == y && cx < x)) && old(grid)@.get(cx, cy) == Some(
                        Tile::Wall,
                    ) {
                        Some(Tile::Floor)
                    } else {
                        old(grid)@.get(cx, cy)
                    },
            decreases x_stop - x,
        {
            let ghost before = grid@;
            let carved = place_floor(x, y, grid);
            proof {
                assert forall|cx: int, cy: int| true implies #[trigger] grid@.get(cx, cy) == if cx
                    == x && cy == y && carved {
                    Some(Tile::Floor)
                } else {
                    before.get(cx, cy)
                } by {
                    before.lemma_get_set(x as int, y as int, Tile::Floor, cx, cy);
                }
                before.lemma_get_set(x as int, y as int, Tile::Floor, 0, 0);
                if carved {
                    lemma_carve_counts(before, x as int, y as int);
                }
            }
            if carved {
                turned += 1;
            }
            x += 1;
        }
        assert(turned <= (y + 1 - y_start) * s) by (nonlinear_arith)
            requires
                turned <= row_start + s,
                row_start <= (y - y_start) * s,
        ;
        y += 1;
    }
    assert(turned <= s * s) by (nonlinear_arith)
        requires
            turned <= (y - y_start) * s,
            y <= y_start + s || turned == 0,
            0 <= s,
            y_start <= y,
    ;
    proof {
        assert(is_room_carved(old(grid)@, grid@, x_start as int, y_start as int, s));
        lemma_room_carved(old(grid)@, x_start as int, y_start as int, s);
    }
    turned
}

/// A generated level: its tiles, and the cell on which the first walker
/// set out.
pub struct Level {
    pub grid: Grid<Tile>,
    pub start: (u32, u32),
}

/// Why no level was generated.
#[derive(Clone, Copy, Debug, PartialEq, Eq, Structural)]
pub enum GenerationError {
    /// The grid does not hold the cell on which the first walker sets out.
    GridTooSmall,
    /// The floor did not grow past its target within the allowed ticks.
    TickLimit,
    /// The grid has more cells than can be held.
    GridTooLarge,
}

/// What a carve does next.
#[derive(Clone, Copy, Debug, PartialEq, Eq, Structural)]
pub enum CarveStep {
    /// There is more floor than the target: the level is done.
    Done,
    /// The allowed ticks are used up: give up.
    GiveUp,
    /// Go on with one more tick.
    Tick,
}

/// The column on which the first walker sets out.
pub const START_X: u32 = 50;

/// The row on which the first walker sets out.
pub const START_Y: u32 = 50;

/// The carve is done once there are more floor cells than this.
pub const FLOOR_TARGET: u64 = 110;

/// The carve gives up after this many ticks.
pub const TICK_LIMIT: u32 = 100000;

/// Whether `grid` is a finished level of `width` by `height` cells: no slot
/// is empty, there is more floor than the target, every floor cell can be
/// walked to from the start, and the floor is one region.
pub open spec fn is_level(grid: GridView<Tile>, width: int, height: int) -> bool {
    &&& grid.wf()
    &&& grid.width == width
    &&& grid.height == height
    &&& is_full(grid)
    &&& floor_count(grid) > FLOOR_TARGET
    &&& all_floor_linked(grid, (START_X as int, START_Y as int))
    &&& is_one_region(grid)
}

/// What a carve does next, with `floor_count` floor cells carved after
/// `ticks` ticks: it is done once there is more floor than the target,
/// gives up where the allowed ticks are used up, and ticks on otherwise.
pub fn carve_step(floor_count: u64, ticks: u32, tick_limit: u32) -> (step: CarveStep)
    ensures
        step == if floor_count > FLOOR_TARGET {
            CarveStep::Done
        } else if ticks >= tick_limit {
            CarveStep::GiveUp
        } else {
            CarveStep::Tick
        },
{
    if floor_count > FLOOR_TARGET {
        CarveStep::Done
    } else if ticks >= tick_limit {
        CarveStep::GiveUp
    } else {
        CarveStep::Tick
    }
}

/// Whether a grid of `width` by `height` cells can be carved: it holds the
/// start cell, and its cells can be counted.
pub open spec fn can_carve(width: u32, height: u32) -> Result<(), GenerationError> {
    if !(width > START_X && height > START_Y) {
        Err(GenerationError::GridTooSmall)
    } else if width * height > usize::MAX {
        Err(GenerationError::GridTooLarge)
    } else {
        Ok(())
    }
}

/// Carves a level out of a grid of `width` by `height` walls.
///
/// One walker sets out from the start cell. Tick after tick the walkers
/// turn, step and carve, spawn and are taken away, until there is more
/// floor than the target. The turns, rooms, spawns and removals are drawn
/// at random, so the level differs from call to call, and the carve may
/// run into the tick limit.
pub fn make_level(width: u32, height: u32) -> (r: Result<Level, GenerationError>)
    ensures
        match r {
            Ok(level) => {
                &&& can_carve(width, height) is Ok
                &&& level.start == (START_X, START_Y)
                &&& is_level(level.grid@, width as int, height as int)
            },
            Err(e) => if can_carve(width, height) is Ok {
                e == GenerationError::TickLimit
            } else {
                can_carve(width, height) == Err::<(), GenerationError>(e)
            },
        },
{
    make_level_within(width, height, TICK_LIMIT)
}

/// Carves a level as [`make_level`] does, and gives up after `tick_limit`
/// ticks. No floor is carved before the first tick, so a limit of zero
/// ticks is always run into.
pub fn make_level_within(width: u32, height: u32, tick_limit: u32) -> (r: Result<
    Level,
    GenerationError,
>)
    ensures
        match r {
            Ok(level) => {
                &&& can_carve(width, height) is Ok
                &&& tick_limit > 0
                &&& level.start == (START_X, START_Y)
                &&& is_level(level.grid@, width as int, height as int)
            },
            Err(e) => if can_carve(width, height) is Ok {
                e == GenerationError::TickLimit
            } else {
                can_carve(width, height) == Err::<(), GenerationError>(e)
            },
        },
{
    if width <= START_X || height <= START_Y {
        return Err(GenerationError::GridTooSmall);
    }
    assert(width * height <= 0xffff_ffff * 0xffff_ffff) by (nonlinear_arith)
        requires
            0 <= width <= 0xffff_ffff,
            0 <= height <= 0xffff_ffff,
    ;
    if width as u64 * height as u64 > usize::MAX as u64 {
        return Err(GenerationError::GridTooLarge);
    }
    let mut grid = Grid::<Tile>::new(width, height);
    let wall = || -> (tile: Tile)
        ensures
            tile == Tile::Wall,
        { Tile::Wall };
    grid.fill(0, 0, width, height, wall);
    let ghost start = (START_X as int, START_Y as int);
    proof {
        assert forall|x: int, y: int| grid@.in_bounds(x, y) implies grid@.get(x, y) == Some(
            Tile::Wall,
        ) by {
            assert(in_rect(0, 0, width as int, height as int, x, y));
            assert(grid@.get(x, y) is Some);
        }
        lemma_no_floor(grid@);
        lemma_start_linked(grid@, start);
    }

    let make_room_config = MakeRoomConfig::new(10, 10).unwrap();
    let mut floor_makers: Vec<FloorMaker> = Vec::new();
    floor_makers.push(FloorMaker::new(START_X, START_Y));

    let mut floor_count: u64 = 0;
    let mut ticks: u32 = 0;
    loop
        invariant
            grid@.width == width,
            grid@.height == height,
            is_carving(grid@, start, floor_makers@),
            floor_makers@.len() > 0,
            floor_count == count::floor_count(grid@),
            ticks <= tick_limit,
            ticks == 0 ==> floor_count == 0,
            can_carve(width, height) is Ok,
            start == (START_X as int, START_Y as int),
        decreases tick_limit - ticks,
    {
        match carve_step(floor_count, ticks, tick_limit) {
            CarveStep::Done => {
                return Ok(Level { grid, start: (START_X, START_Y) });
            },
            CarveStep::GiveUp => {
                return Err(GenerationError::TickLimit);
            },
            CarveStep::Tick => {
                ticks += 1;
                let carved = tick(&mut grid, &mut floor_makers, &make_room_config);
                proof {
                    lemma_floor_fits(grid@);
                }
                floor_count += carved;
            },
        }
    }
}

/// A finished level has floor, and all of it can be walked to from the
/// start: there is a floor cell within reach.
pub proof fn lemma_level_has_floor_in_reach(grid: GridView<Tile>, width: int, height: int) -> (cell: (
    int,
    int,
))
    requires
        is_level(grid, width, height),
    ensures
        grid.in_bounds(cell.0, cell.1),
        reach::is_floor(grid, cell),
        reach::linked(grid, (START_X as int, START_Y as int), cell),
{
    let cell = count::lemma_some_floor(grid);
    assert(reach::is_floor(grid, (cell.0, cell.1)));
    cell
}

} // verus!
