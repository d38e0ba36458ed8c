//! From a generated level to the play grid: the level is cropped to its
//! floor, every tile becomes a block of cells, and rock that has floor
//! right below it becomes a wall face.

use crate::generator;
use crate::world::grid::{in_rect, Grid, GridView};
use crate::world::{Cell, Tile};
use vstd::prelude::*;
use vstd::std_specs::convert::FromSpec;

verus! {

/// A level ready to be played on.
pub struct Level {
    pub grid: Grid<Cell>,
    pub start_tile: (u32, u32),
}

/// The least rectangle of tiles that holds all the floor of a level; both
/// ends of each range belong to it.
#[derive(Clone, Copy, Debug, PartialEq, Eq, Structural)]
pub struct BoundingBox {
    pub min_x: u32,
    pub max_x: u32,
    pub min_y: u32,
    pub max_y: u32,
}

pub open spec fn has_floor_at(template: GridView<generator::Tile>, x: int, y: int) -> bool {
    template.get(x, y) == Some(generator::Tile::Floor)
}

/// Whether `bbox` holds all the floor of `template` and has floor on each
/// of its four edges.
pub open spec fn is_bounding_box(template: GridView<generator::Tile>, bbox: BoundingBox) -> bool {
    &&& forall|x: int, y: int| #[trigger]
        has_floor_at(template, x, y) ==> bbox.min_x <= x <= bbox.max_x && bbox.min_y <= y
            <= bbox.max_y
    &&& exists|y: int| #[trigger] has_floor_at(template, bbox.min_x as int, y)
    &&& exists|y: int| #[trigger] has_floor_at(template, bbox.max_x as int, y)
    &&& exists|x: int| #[trigger] has_floor_at(template, x, bbox.min_y as int)
    &&& exists|x: int| #[trigger] has_floor_at(template, x, bbox.max_y as int)
}

/// The bounding box of the floor of `template`, if it has any floor.
pub fn bounding_box(template: &Grid<generator::Tile>) -> (r: Option<BoundingBox>)
    ensures
        match r {
            Some(bbox) => is_bounding_box(template@, bbox),
            None => forall|x: int, y: int| !has_floor_at(template@, x, y),
        },
{
    let width = template.width();
    let height = template.height();
    let mut found: Option<BoundingBox> = None;
    let mut y: u32 = 0;
    while y < height
        invariant
            y <= height,
            width == template@.width,
            height == template@.height,
            match found {
                Some(bbox) => {
                    &&& forall|cx: int, cy: int| #[trigger]
                        has_floor_at(template@, cx, cy) && cy < y ==> bbox.min_x <= cx
                            <= bbox.max_x && bbox.min_y <= cy <= bbox.max_y
                    &&& exists|cy: int| #[trigger] has_floor_at(template@, bbox.min_x as int, cy)
                    &&& exists|cy: int| #[trigger] has_floor_at(template@, bbox.max_x as int, cy)
                    &&& exists|cx: int| #[trigger] has_floor_at(template@, cx, bbox.min_y as int)
                    &&& exists|cx: int| #[trigger] has_floor_at(template@, cx, bbox.max_y as int)
                },
                None => forall|cx: int, cy: int| #[trigger]
                    has_floor_at(template@, cx, cy) ==> cy >= y,
            },
        decreases height - y,
    {
        let mut x: u32 = 0;
        while x < width
            invariant
                x <= width,
                y < height,
                width == template@.width,
                height == template@.height,
                match found {
                    Some(bbox) => {
                        &&& forall|cx: int, cy: int| #[trigger]
                            has_floor_at(template@, cx, cy) && (cy < y || (cy == y && cx < x))
                                ==> bbox.min_x <= cx <= bbox.max_x && bbox.min_y <= cy
                                <= bbox.max_y
                        &&& exists|cy: int| #[trigger]
                            has_floor_at(template@, bbox.min_x as int, cy)
                        &&& exists|cy: int| #[trigger]
                            has_floor_at(template@, bbox.max_x as int, cy)
                        &&& exists|cx: int| #[trigger]
                            has_floor_at(template@, cx, bbox.min_y as int)
                        &&& exists|cx: int| #[trigger]
                            has_floor_at(template@, cx, bbox.max_y as int)
                    },
                    None => forall|cx: int, cy: int| #[trigger]
                        has_floor_at(template@, cx, cy) ==> cy > y || (cy == y && cx >= x),
                },
            decreases width - x,
        {
            let is_floor = match template.get(x, y) {
                Some(tile) => match *tile {
                    generator::Tile::Floor => true,
                    generator::Tile::Wall => false,
                },
                None => false,
            };
            let ghost before = found;
            if is_floor {
                assert(has_floor_at(template@, x as int, y as int));
                found = match found {
                    Some(bbox) => Some(
                        BoundingBox {
                            min_x: if x < bbox.min_x {
                                x
                            } else {
                                bbox.min_x
                            },
                            max_x: if x >= bbox.max_x {
                                x
                            } else {
                                bbox.max_x
                            },
                            min_y: if y < bbox.min_y {
                                y
                            } else {
                                bbox.min_y
                            },
                            max_y: if y >= bbox.max_y {
                                y
                            } else {
                                bbox.max_y
                            },
                        },
                    ),
                    None => Some(BoundingBox { min_x: x, max_x: x, min_y: y, max_y: y }),
                };
                proof {
                    let bbox = found->0;
                    if let Some(earlier) = before {
                        if bbox.min_x == earlier.min_x {
                            let cy = choose|cy: int| #[trigger]
                                has_floor_at(template@, earlier.min_x as int, cy);
                            assert(has_floor_at(template@, bbox.min_x as int, cy));
                        }
                        if bbox.max_x == earlier.max_x {
                            let cy = choose|cy: int| #[trigger]
                                has_floor_at(template@, earlier.max_x as int, cy);
                            assert(has_floor_at(template@, bbox.max_x as int, cy));
                        }
                        if bbox.min_y == earlier.min_y {
                            let cx = choose|cx: int| #[trigger]
                                has_floor_at(template@, cx, earlier.min_y as int);
                            assert(has_floor_at(template@, cx, bbox.min_y as int));
                        }
                        if bbox.max_y == earlier.max_y {
                            let cx = choose|cx: int| #[trigger]
                                has_floor_at(template@, cx, earlier.max_y as int);
                            assert(has_floor_at(template@, cx, bbox.max_y as int));
                        }
                    }
                }
            }
            proof {
                if let Some(bbox) = found {
                    assert(forall|cx: int, cy: int| #[trigger]
                            has_floor_at(template@, cx, cy) && (cy < y || (cy == y && cx < x + 1))
                                ==> bbox.min_x <= cx <= bbox.max_x && bbox.min_y <= cy
                                <= bbox.max_y);
                }
            }
            x += 1;
        }
        y += 1;
    }
    proof {
        assert forall|cx: int, cy: int| #[trigger] has_floor_at(template@, cx, cy) implies cy
            < height by {
            assert(template@.in_bounds(cx, cy));
        }
    }
    found
}

/// A level has no more than one bounding box.
pub proof fn lemma_bounding_box_unique(
    template: GridView<generator::Tile>,
    first: BoundingBox,
    second: BoundingBox,
)
    requires
        is_bounding_box(template, first),
        is_bounding_box(template, second),
    ensures
        first == second,
{
    let y1 = choose|y: int| #[trigger] has_floor_at(template, first.min_x as int, y);
    let y2 = choose|y: int| #[trigger] has_floor_at(template, second.min_x as int, y);
    let y3 = choose|y: int| #[trigger] has_floor_at(template, first.max_x as int, y);
    let y4 = choose|y: int| #[trigger] has_floor_at(template, second.max_x as int, y);
    let x1 = choose|x: int| #[trigger] has_floor_at(template, x, first.min_y as int);
    let x2 = choose|x: int| #[trigger] has_floor_at(template, x, second.min_y as int);
    let x3 = choose|x: int| #[trigger] has_floor_at(template, x, first.max_y as int);
    let x4 = choose|x: int| #[trigger] has_floor_at(template, x, second.max_y as int);
    assert(has_floor_at(template, first.min_x as int, y1));
    assert(has_floor_at(template, second.min_x as int, y2));
    assert(has_floor_at(template, first.max_x as int, y3));
    assert(has_floor_at(template, second.max_x as int, y4));
    assert(has_floor_at(template, x1, first.min_y as int));
    assert(has_floor_at(template, x2, second.min_y as int));
    assert(has_floor_at(template, x3, first.max_y as int));
    assert(has_floor_at(template, x4, second.max_y as int));
}

/// The bounding box of the floor of a level that has floor.
pub open spec fn bounding_box_of(template: GridView<generator::Tile>) -> BoundingBox {
    choose|bbox: BoundingBox| is_bounding_box(template, bbox)
}

impl BoundingBox {
    /// The number of tile columns of the play grid: those of the box and
    /// one of margin on either side.
    pub open spec fn tiles_across(self) -> int {
        self.max_x - self.min_x + 3
    }

    /// The number of tile rows of the play grid: those of the box and one
    /// of margin on either side.
    pub open spec fn tiles_down(self) -> int {
        self.max_y - self.min_y + 3
    }
}

/// What the block in column `i` and row `j` of the play grid is made of:
/// floor where the tile of the level that it stands for is floor, rock
/// where that tile is a wall or lies outside the level. Block `(0, 0)`
/// stands for the tile one column and one row before the bounding box.
pub open spec fn block_tile(
    template: GridView<generator::Tile>,
    bbox: BoundingBox,
    i: int,
    j: int,
) -> Tile {
    if has_floor_at(template, bbox.min_x - 1 + i, bbox.min_y - 1 + j) {
        Tile::Floor
    } else {
        Tile::Solid
    }
}

/// The cell at `(fx, fy)` of the play grid before rock is told from wall
/// faces: every tile of the bounding box, and of one tile of margin on
/// every side, is a block of `cell_size` by `cell_size` cells.
pub open spec fn expanded(
    template: GridView<generator::Tile>,
    bbox: BoundingBox,
    cell_size: int,
    fx: int,
    fy: int,
) -> Option<Cell> {
    if cell_size > 0 && 0 <= fx < bbox.tiles_across() * cell_size && 0 <= fy
        < bbox.tiles_down() * cell_size {
        Some(Cell { tile: block_tile(template, bbox, fx / cell_size, fy / cell_size) })
    } else {
        None
    }
}

/// What a cell is after rock has been told from wall faces, given the cell
/// right below it: rock with floor below is a wall face, every other cell
/// stays what it is.
pub open spec fn wall_face(cell: Option<Cell>, below: Option<Cell>) -> Option<Cell> {
    match cell {
        Some(c) => if c.tile == Tile::Solid && below == Some(Cell { tile: Tile::Floor }) {
            Some(Cell { tile: Tile::Wall })
        } else {
            Some(c)
        },
        None => None,
    }
}

/// The cell at `(fx, fy)` of the play grid.
pub open spec fn autotiled(
    template: GridView<generator::Tile>,
    bbox: BoundingBox,
    cell_size: int,
    fx: int,
    fy: int,
) -> Option<Cell> {
    wall_face(
        expanded(template, bbox, cell_size, fx, fy),
        expanded(template, bbox, cell_size, fx, fy + 1),
    )
}

/// The cell of the play grid at which the block of the level's start tile
/// begins; `(0, 0)` where no block stands for that tile.
pub open spec fn start_cell(bbox: BoundingBox, cell_size: int, start: (u32, u32)) -> (int, int) {
    if bbox.min_x - 1 <= start.0 <= bbox.max_x + 1 && bbox.min_y - 1 <= start.1 <= bbox.max_y
        + 1 {
        ((start.0 - (bbox.min_x - 1)) * cell_size, (start.1 - (bbox.min_y - 1)) * cell_size)
    } else {
        (0, 0)
    }
}

/// Whether a play grid of blocks of `cell_size` cells can be held: each
/// dimension in a `u32`, the number of cells in a `usize`.
pub open spec fn fits(bbox: BoundingBox, cell_size: int) -> bool {
    &&& bbox.tiles_across() * cell_size <= u32::MAX
    &&& bbox.tiles_down() * cell_size <= u32::MAX
    &&& (bbox.tiles_across() * cell_size) * (bbox.tiles_down() * cell_size) <= usize::MAX
}

/// Whether `grid` and `start_tile` are the play grid of the level
/// `template` with the start tile `start`, in blocks of `cell_size` cells.
pub open spec fn is_play_grid(
    template: GridView<generator::Tile>,
    start: (u32, u32),
    cell_size: int,
    grid: GridView<Cell>,
    start_tile: (u32, u32),
) -> bool {
    let bbox = bounding_box_of(template);
    &&& is_bounding_box(template, bbox)
    &&& grid.wf()
    &&& grid.width == bbox.tiles_across() * cell_size
    &&& grid.height == bbox.tiles_down() * cell_size
    &&& forall|fx: int, fy: int|
        grid.in_bounds(fx, fy) ==> #[trigger] grid.get(fx, fy) == autotiled(
            template,
            bbox,
            cell_size,
            fx,
            fy,
        )
    &&& (start_tile.0 as int, start_tile.1 as int) == start_cell(bbox, cell_size, start)
}

/// Why a level could not be made ready.
#[derive(Clone, Copy, Debug, PartialEq, Eq, Structural)]
pub enum LevelError {
    /// The grid to carve does not hold the cell on which the carve starts.
    GridTooSmall,
    /// The carve ran into its tick limit.
    TickLimit,
    /// The grid to carve has more cells than can be held.
    GridTooLarge,
    /// The level has no floor to crop to.
    NoFloor,
    /// The play grid would have more cells than can be held.
    TooLarge,
}

impl From<generator::GenerationError> for LevelError {
    fn from(error: generator::GenerationError) -> (e: LevelError) {
        match error {
            generator::GenerationError::GridTooSmall => LevelError::GridTooSmall,
            generator::GenerationError::TickLimit => LevelError::TickLimit,
            generator::GenerationError::GridTooLarge => LevelError::GridTooLarge,
        }
    }
}

impl vstd::std_specs::convert::FromSpecImpl<generator::GenerationError> for LevelError {
    open spec fn obeys_from_spec() -> bool {
        true
    }

    /// Why no level was carved is why no level was made ready.
    open spec fn from_spec(error: generator::GenerationError) -> LevelError {
        match error {
            generator::GenerationError::GridTooSmall => LevelError::GridTooSmall,
            generator::GenerationError::TickLimit => LevelError::TickLimit,
            generator::GenerationError::GridTooLarge => LevelError::GridTooLarge,
        }
    }
}

/// The cells of block `i` are those whose coordinate divided by the size
/// of a block is `i`.
pub proof fn lemma_block_of(cell_size: int, i: int, f: int)
    requires
        cell_size > 0,
    ensures
        (i * cell_size <= f < i * cell_size + cell_size) <==> f / cell_size == i,
{
    assert((i * cell_size <= f < i * cell_size + cell_size) <==> f / cell_size == i)
        by (nonlinear_arith)
        requires
            cell_size > 0,
    ;
}

/// What the block in column `i` and row `j` of the play grid is made of.
fn block_kind(template: &Grid<generator::Tile>, bbox: &BoundingBox, i: u32, j: u32) -> (tile: Tile)
    ensures
        tile == block_tile(template@, *bbox, i as int, j as int),
{
    let width = template.width();
    let height = template.height();
    let tx: u64 = bbox.min_x as u64 + i as u64;
    let ty: u64 = bbox.min_y as u64 + j as u64;
    if tx == 0 || ty == 0 || tx - 1 > u32::MAX as u64 || ty - 1 > u32::MAX as u64 {
        return Tile::Solid;
    }
    match template.get((tx - 1) as u32, (ty - 1) as u32) {
        Some(tile) => match *tile {
            generator::Tile::Floor => Tile::Floor,
            generator::Tile::Wall => Tile::Solid,
        },
        None => Tile::Solid,
    }
}

/// The play grid of a level before rock is told from wall faces, and the
/// cell at which the block of the level's start tile begins.
pub fn expand(level: &generator::Level, bbox: BoundingBox, cell_size: u32) -> (out: Level)
    requires
        bbox.min_x <= bbox.max_x,
        bbox.min_y <= bbox.max_y,
        fits(bbox, cell_size as int),
    ensures
        out.grid@.wf(),
        out.grid@.width == bbox.tiles_across() * cell_size,
        out.grid@.height == bbox.tiles_down() * cell_size,
        forall|fx: int, fy: int|
            out.grid@.in_bounds(fx, fy) ==> #[trigger] out.grid@.get(fx, fy) == expanded(
                level.grid@,
                bbox,
                cell_size as int,
                fx,
                fy,
            ),
        (out.start_tile.0 as int, out.start_tile.1 as int) == start_cell(
            bbox,
            cell_size as int,
            level.start,
        ),
{
    let ghost n = cell_size as int;
    let ghost template = level.grid@;
    if cell_size == 0 {
        assert(bbox.tiles_across() * 0 == 0 && bbox.tiles_down() * 0 == 0) by (nonlinear_arith);
        assert((level.start.0 - (bbox.min_x - 1)) * 0 == 0 && (level.start.1 - (bbox.min_y - 1))
            * 0 == 0) by (nonlinear_arith);
        return Level { grid: Grid::new(0, 0), start_tile: (0, 0) };
    }
    let across: u64 = (bbox.max_x - bbox.min_x) as u64 + 3;
    let down: u64 = (bbox.max_y - bbox.min_y) as u64 + 3;
    proof {
        assert(across <= u32::MAX && down <= u32::MAX) by (nonlinear_arith)
            requires
                across * n <= u32::MAX,
                down * n <= u32::MAX,
                n >= 1,
                across >= 0,
                down >= 0,
        ;
    }
    let width: u32 = (across * cell_size as u64) as u32;
    let height: u32 = (down * cell_size as u64) as u32;
    let blocks_across: u32 = across as u32;
    let blocks_down: u32 = down as u32;
    let mut grid = Grid::<Cell>::new(width, height);
    let mut start: (u32, u32) = (0, 0);
    proof {
        assert(blocks_across * n == width && blocks_down * n == height);
    }
    let mut y: u32 = 0;
    let mut j: u32 = 0;
    while j < blocks_down
        invariant
            n == cell_size > 0,
            template == level.grid@,
            bbox.min_x <= bbox.max_x,
            bbox.min_y <= bbox.max_y,
            blocks_across == bbox.tiles_across(),
            blocks_down == bbox.tiles_down(),
            blocks_across * n == width,
            blocks_down * n == height,
            j <= blocks_down,
            y == j * n,
            grid@.wf(),
            grid@.width == width,
            grid@.height == height,
            forall|fx: int, fy: int|
                grid@.in_bounds(fx, fy) ==> #[trigger] grid@.get(fx, fy) == if fy < y {
                    expanded(template, bbox, n, fx, fy)
                } else {
                    None
                },
            (start.0 as int, start.1 as int) == if level.start.1 - (bbox.min_y - 1) < j {
                start_cell(bbox, n, level.start)
            } else {
                (0, 0)
            },
        decreases blocks_down - j,
    {
        proof {
            assert(j * n + n <= blocks_down * n) by (nonlinear_arith)
                requires
                    j < blocks_down,
                    n > 0,
            ;
        }
        let mut x: u32 = 0;
        let mut i: u32 = 0;
        while i < blocks_across
            invariant
                n == cell_size > 0,
                template == level.grid@,
                bbox.min_x <= bbox.max_x,
                bbox.min_y <= bbox.max_y,
                blocks_across == bbox.tiles_across(),
                blocks_down == bbox.tiles_down(),
                blocks_across * n == width,
                blocks_down * n == height,
                j < blocks_down,
                i <= blocks_across,
                y == j * n,
                y + n <= blocks_down * n,
                x == i * n,
                grid@.wf(),
                grid@.width == width,
                grid@.height == height,
                forall|fx: int, fy: int|
                    grid@.in_bounds(fx, fy) ==> #[trigger] grid@.get(fx, fy) == if fy < y || (fy
                        < y + n && fx < x) {
                        expanded(template, bbox, n, fx, fy)
                    } else {
                        None
                    },
                (start.0 as int, start.1 as int) == if level.start.1 - (bbox.min_y - 1) < j || (
                level.start.1 - (bbox.min_y - 1) == j && level.start.0 - (bbox.min_x - 1) < i) {
                    start_cell(bbox, n, level.start)
                } else {
                    (0, 0)
                },
            decreases blocks_across - i,
        {
            proof {
                assert(i * n + n <= blocks_across * n) by (nonlinear_arith)
                    requires
                        i < blocks_across,
                        n > 0,
                ;
            }
            if bbox.min_x as u64 + i as u64 == level.start.0 as u64 + 1 && bbox.min_y as u64
                + j as u64 == level.start.1 as u64 + 1 {
                start = (x, y);
            }
            let tile = block_kind(&level.grid, &bbox, i, j);
            let make = || -> (cell: Cell)
                ensures
                    cell.tile == tile,
                { Cell::new(tile) };
            let ghost before = grid@;
            grid.fill(x, y, cell_size, cell_size, make);
            proof {
                assert forall|fx: int, fy: int| grid@.in_bounds(fx, fy) implies #[trigger] grid@.get(
                    fx,
                    fy,
                ) == if fy < y || (fy < y + n && fx < x + n) {
                    expanded(template, bbox, n, fx, fy)
                } else {
                    None
                } by {
                    assert(before.in_bounds(fx, fy));
                    if in_rect(x as int, y as int, n, n, fx, fy) {
                        lemma_block_of(n, i as int, fx);
                        lemma_block_of(n, j as int, fy);
                        assert(grid@.get(fx, fy) is Some);
                        assert(grid@.get(fx, fy)->0.tile == tile);
                    } else {
                        assert(grid@.get(fx, fy) == before.get(fx, fy));
                    }
                }
                assert((i + 1) * n == x + n) by (nonlinear_arith)
                    requires
                        x == i * n,
                ;
            }
            x += cell_size;
            i += 1;
        }
        proof {
            assert forall|fx: int, fy: int| grid@.in_bounds(fx, fy) implies #[trigger] grid@.get(
                fx,
                fy,
            ) == if fy < y + n {
                expanded(template, bbox, n, fx, fy)
            } else {
                None
            } by {
            }
            assert((j + 1) * n == y + n) by (nonlinear_arith)
                requires
                    y == j * n,
            ;
        }
        y += cell_size;
        j += 1;
    }
    Level { grid, start_tile: start }
}

/// Tells rock from wall faces: every solid cell with floor right below it
/// becomes a wall, and no other cell changes.
pub fn autotile(grid: &mut Grid<Cell>)
    ensures
        final(grid)@.wf(),
        final(grid)@.width == old(grid)@.width,
        final(grid)@.height == old(grid)@.height,
        forall|x: int, y: int| #[trigger]
            final(grid)@.get(x, y) == wall_face(old(grid)@.get(x, y), old(grid)@.get(x, y + 1)),
{
    proof {
        use_type_invariant(&*grid);
    }
    let width = grid.width();
    let height = grid.height();
    let mut y: u32 = 0;
    while y < height
        invariant
            y <= height,
            grid@.wf(),
            width == grid@.width == old(grid)@.width,
            height == grid@.height == old(grid)@.height,
            forall|cx: int, cy: int| #[trigger]
                grid@.get(cx, cy) == if cy < y {
                    wall_face(old(grid)@.get(cx, cy), old(grid)@.get(cx, cy + 1))
                } else {
                    old(grid)@.get(cx, cy)
                },
        decreases height - y,
    {
        let mut x: u32 = 0;
        while x < width
            invariant
                y < height,
                x <= width,
                grid@.wf(),
                width == grid@.width == old(grid)@.width,
                height == grid@.height == old(grid)@.height,
                forall|cx: int, cy: int| #[trigger]
                    grid@.get(cx, cy) == if cy < y || (cy == y && cx < x) {
                        wall_face(old(grid)@.get(cx, cy), old(grid)@.get(cx, cy + 1))
                    } else {
                        old(grid)@.get(cx, cy)
                    },
            decreases width - x,
        {
            let below_is_floor = match grid.get(x, y + 1) {
                Some(below) => below.tile == Tile::Floor,
                None => false,
            };
            let ghost before = grid@;
            assert(before.get(x as int, y as int + 1) == old(grid)@.get(x as int, y as int + 1));
            assert(before.get(x as int, y as int) == old(grid)@.get(x as int, y as int));
            match grid.get_mut(x, y) {
                Some(cell) => {
                    if cell.tile == Tile::Solid && below_is_floor {
                        cell.tile = Tile::Wall;
                    }
                },
                None => {},
            }
            proof {
                assert forall|cx: int, cy: int| #[trigger]
                    grid@.get(cx, cy) == if cy < y || (cy == y && cx < x + 1) {
                        wall_face(old(grid)@.get(cx, cy), old(grid)@.get(cx, cy + 1))
                    } else {
                        old(grid)@.get(cx, cy)
                    } by {
                    if let Some(cell) = before.get(x as int, y as int) {
                        let turned = wall_face(Some(cell), before.get(x as int, y as int + 1))->0;
                        assert(grid@ == before.set(x as int, y as int, turned));
                        before.lemma_get_set(x as int, y as int, turned, cx, cy);
                    }
                }
                if let Some(cell) = before.get(x as int, y as int) {
                    let turned = wall_face(Some(cell), before.get(x as int, y as int + 1))->0;
                    before.lemma_get_set(x as int, y as int, turned, x as int, y as int);
                }
            }
            x += 1;
        }
        y += 1;
    }
}

/// Whether a level has any floor.
pub open spec fn has_floor(template: GridView<generator::Tile>) -> bool {
    exists|x: int, y: int| #[trigger] has_floor_at(template, x, y)
}

/// The ends of a bounding box are in order.
pub proof fn lemma_bounding_box_ordered(template: GridView<generator::Tile>, bbox: BoundingBox)
    requires
        is_bounding_box(template, bbox),
    ensures
        bbox.min_x <= bbox.max_x,
        bbox.min_y <= bbox.max_y,
        has_floor(template),
{
    let y = choose|y: int| #[trigger] has_floor_at(template, bbox.min_x as int, y);
    assert(has_floor_at(template, bbox.min_x as int, y));
}

/// Whether a slot holds a cell of rock, of a wall face or of floor.
pub open spec fn is_level_cell(cell: Option<Cell>) -> bool {
    cell is Some && (cell->0.tile == Tile::Solid || cell->0.tile == Tile::Wall || cell->0.tile
        == Tile::Floor)
}

/// Whether a slot holds a cell of rock or of a wall face.
pub open spec fn is_rock(cell: Option<Cell>) -> bool {
    cell is Some && (cell->0.tile == Tile::Solid || cell->0.tile == Tile::Wall)
}

/// Every cell of a play grid is there, and is rock, a wall face or floor.
pub proof fn lemma_play_grid_is_full(
    template: GridView<generator::Tile>,
    start: (u32, u32),
    cell_size: int,
    grid: GridView<Cell>,
    start_tile: (u32, u32),
    fx: int,
    fy: int,
)
    requires
        is_play_grid(template, start, cell_size, grid, start_tile),
        grid.in_bounds(fx, fy),
    ensures
        is_level_cell(grid.get(fx, fy)),
{
    let bbox = bounding_box_of(template);
    assert(cell_size > 0) by (nonlinear_arith)
        requires
            0 <= fx < bbox.tiles_across() * cell_size,
            bbox.tiles_across() > 0,
    ;
    assert(grid.get(fx, fy) == autotiled(template, bbox, cell_size, fx, fy));
}

/// Whether `(fx, fy)` lies among the outermost `cell_size` cells of some
/// edge of the grid.
pub open spec fn on_border(grid: GridView<Cell>, cell_size: int, fx: int, fy: int) -> bool {
    ||| fx < cell_size
    ||| fy < cell_size
    ||| fx >= grid.width - cell_size
    ||| fy >= grid.height - cell_size
}

/// The border ring of a play grid, as wide as a block, holds rock and wall
/// faces and no floor.
pub proof fn lemma_border_without_floor(
    template: GridView<generator::Tile>,
    start: (u32, u32),
    cell_size: int,
    grid: GridView<Cell>,
    start_tile: (u32, u32),
    fx: int,
    fy: int,
)
    requires
        is_play_grid(template, start, cell_size, grid, start_tile),
        grid.in_bounds(fx, fy),
        on_border(grid, cell_size, fx, fy),
    ensures
        is_rock(grid.get(fx, fy)),
{
    let bbox = bounding_box_of(template);
    let n = cell_size;
    let across = bbox.tiles_across();
    let down = bbox.tiles_down();
    assert(n > 0) by (nonlinear_arith)
        requires
            0 <= fx < across * n,
            across > 0,
    ;
    let i = fx / n;
    let j = fy / n;
    lemma_block_of(n, i, fx);
    lemma_block_of(n, j, fy);
    lemma_block_of(n, 0, fx);
    lemma_block_of(n, 0, fy);
    lemma_block_of(n, across - 1, fx);
    lemma_block_of(n, down - 1, fy);
    assert((across - 1) * n + n == across * n && (down - 1) * n + n == down * n)
        by (nonlinear_arith);
    assert(i == 0 || j == 0 || i == across - 1 || j == down - 1);
    assert(!has_floor_at(template, bbox.min_x - 1 + i, bbox.min_y - 1 + j));
    assert(grid.get(fx, fy) == autotiled(template, bbox, n, fx, fy));
}

/// Whether a play grid of blocks of `cell_size` cells can be held.
fn can_hold(bbox: &BoundingBox, cell_size: u32) -> (yes: bool)
    requires
        bbox.min_x <= bbox.max_x,
        bbox.min_y <= bbox.max_y,
    ensures
        yes == fits(*bbox, cell_size as int),
{
    let ghost n = cell_size as int;
    let across: u64 = (bbox.max_x - bbox.min_x) as u64 + 3;
    let down: u64 = (bbox.max_y - bbox.min_y) as u64 + 3;
    if cell_size == 0 {
        assert(across * 0 == 0 && down * 0 == 0 && (across * 0) * (down * 0) == 0)
            by (nonlinear_arith);
        return true;
    }
    if across > u32::MAX as u64 || down > u32::MAX as u64 {
        assert(across * n >= across && down * n >= down) by (nonlinear_arith)
            requires
                n >= 1,
                across >= 0,
                down >= 0,
        ;
        return false;
    }
    assert(across * n <= 0xffff_ffff * 0xffff_ffff && down * n <= 0xffff_ffff * 0xffff_ffff)
        by (nonlinear_arith)
        requires
            0 <= across <= 0xffff_ffff,
            0 <= down <= 0xffff_ffff,
            0 <= n <= 0xffff_ffff,
    ;
    let width: u64 = across * cell_size as u64;
    let height: u64 = down * cell_size as u64;
    if width > u32::MAX as u64 || height > u32::MAX as u64 {
        return false;
    }
    assert(width * height <= 0xffff_ffff * 0xffff_ffff) by (nonlinear_arith)
        requires
            0 <= width <= 0xffff_ffff,
            0 <= height <= 0xffff_ffff,
    ;
    width * height <= usize::MAX as u64
}

/// Makes a generated level ready to be played on.
///
/// The level is cropped to the bounding box of its floor and one tile of
/// margin on every side, every tile becomes a block of `cell_size` by
/// `cell_size` cells, floor for floor and rock for wall, and rock with
/// floor right below it becomes a wall face. The start tile of the level is
/// handed on as the cell at which its block begins.
pub fn post_process(level: &generator::Level, cell_size: u32) -> (r: Result<Level, LevelError>)
    ensures
        match r {
            Ok(out) => {
                &&& has_floor(level.grid@)
                &&& fits(bounding_box_of(level.grid@), cell_size as int)
                &&& is_play_grid(
                    level.grid@,
                    level.start,
                    cell_size as int,
                    out.grid@,
                    out.start_tile,
                )
                &&& out.grid@.width == cell_size * (bounding_box_of(level.grid@).max_x
                    - bounding_box_of(level.grid@).min_x + 3)
                &&& out.grid@.height == cell_size * (bounding_box_of(level.grid@).max_y
                    - bounding_box_of(level.grid@).min_y + 3)
                &&& forall|fx: int, fy: int|
                    out.grid@.in_bounds(fx, fy) ==> is_level_cell(#[trigger] out.grid@.get(fx, fy))
                &&& forall|fx: int, fy: int|
                    out.grid@.in_bounds(fx, fy) && on_border(out.grid@, cell_size as int, fx, fy)
                        ==> is_rock(#[trigger] out.grid@.get(fx, fy))
            },
            Err(e) => if has_floor(level.grid@) {
                e == LevelError::TooLarge && !fits(
                    bounding_box_of(level.grid@),
                    cell_size as int,
                )
            } else {
                e == LevelError::NoFloor
            },
        },
{
    let bbox = match bounding_box(&level.grid) {
        Some(bbox) => bbox,
        None => {
            return Err(LevelError::NoFloor);
        },
    };
    proof {
        lemma_bounding_box_ordered(level.grid@, bbox);
        lemma_bounding_box_unique(level.grid@, bbox, bounding_box_of(level.grid@));
    }
    if !can_hold(&bbox, cell_size) {
        return Err(LevelError::TooLarge);
    }
    let mut out = expand(level, bbox, cell_size);
    let ghost expanded_grid = out.grid@;
    autotile(&mut out.grid);
    proof {
        assert forall|fx: int, fy: int| out.grid@.in_bounds(fx, fy) implies #[trigger] out.grid@.get(
            fx,
            fy,
        ) == autotiled(level.grid@, bbox, cell_size as int, fx, fy) by {
            assert(expanded_grid.in_bounds(fx, fy));
            assert(expanded_grid.get(fx, fy) == expanded(
                level.grid@,
                bbox,
                cell_size as int,
                fx,
                fy,
            ));
            if expanded_grid.in_bounds(fx, fy + 1) {
                assert(expanded_grid.get(fx, fy + 1) == expanded(
                    level.grid@,
                    bbox,
                    cell_size as int,
                    fx,
                    fy + 1,
                ));
            }
        }
        assert forall|fx: int, fy: int| out.grid@.in_bounds(fx, fy) implies is_level_cell(
            #[trigger] out.grid@.get(fx, fy),
        ) by {
            lemma_play_grid_is_full(
                level.grid@,
                level.start,
                cell_size as int,
                out.grid@,
                out.start_tile,
                fx,
                fy,
            );
        }
        assert(cell_size * (bbox.max_x - bbox.min_x + 3) == bbox.tiles_across() * cell_size
            && cell_size * (bbox.max_y - bbox.min_y + 3) == bbox.tiles_down() * cell_size)
            by (nonlinear_arith)
            requires
                bbox.tiles_across() == bbox.max_x - bbox.min_x + 3,
                bbox.tiles_down() == bbox.max_y - bbox.min_y + 3,
        ;
        assert forall|fx: int, fy: int|
            out.grid@.in_bounds(fx, fy) && on_border(
                out.grid@,
                cell_size as int,
                fx,
                fy,
            ) implies is_rock(#[trigger] out.grid@.get(fx, fy)) by {
            lemma_border_without_floor(
                level.grid@,
                level.start,
                cell_size as int,
                out.grid@,
                out.start_tile,
                fx,
                fy,
            );
        }
    }
    Ok(out)
}

/// The number of cells along a side of the block that stands for a tile.
pub const CELL_SIZE: u32 = 3;

/// Generates a level on a grid of `width` by `height` tiles and makes it
/// ready to be played on, in blocks of three by three cells.
pub fn make_level(width: u32, height: u32) -> (r: Result<Level, LevelError>)
    ensures
        match r {
            Ok(out) => {
                &&& exists|template: GridView<generator::Tile>|
                    {
                        &&& #[trigger] generator::is_level(template, width as int, height as int)
                        &&& is_play_grid(
                            template,
                            (generator::START_X, generator::START_Y),
                            CELL_SIZE as int,
                            out.grid@,
                            out.start_tile,
                        )
                    }
                &&& forall|fx: int, fy: int|
                    out.grid@.in_bounds(fx, fy) ==> is_level_cell(#[trigger] out.grid@.get(fx, fy))
                &&& forall|fx: int, fy: int|
                    out.grid@.in_bounds(fx, fy) && on_border(out.grid@, CELL_SIZE as int, fx, fy)
                        ==> is_rock(#[trigger] out.grid@.get(fx, fy))
            },
            Err(e) => match generator::can_carve(width, height) {
                Ok(()) => e == LevelError::TickLimit || e == LevelError::TooLarge,
                Err(early) => e == LevelError::from_spec(early),
            },
        },
{
    let level = match generator::make_level(width, height) {
        Ok(level) => level,
        Err(error) => {
            return Err(LevelError::from(error));
        },
    };
    proof {
        let cell = generator::count::lemma_some_floor(level.grid@);
        assert(has_floor_at(level.grid@, cell.0, cell.1));
    }
    post_process(&level, CELL_SIZE)
}

} // verus!
