//! What of the world is on the screen, and with which part of the tile
//! texture each tile is drawn.

use crate::motor::gfx::TextureRegion;
use crate::world::Tile;
use vstd::prelude::*;

verus! {

/// The length in pixels of a side of a tile on the screen.
pub const TILE_SIZE: u32 = 8;

/// The place of a tile in the table of a tile set.
pub open spec fn tile_index(tile: Tile) -> int {
    match tile {
        Tile::Grass => 0,
        Tile::Water => 1,
        Tile::Solid => 2,
        Tile::Wall => 3,
        Tile::Floor => 4,
    }
}

fn index_of(tile: &Tile) -> (index: usize)
    ensures
        index == tile_index(*tile),
{
    match tile {
        Tile::Grass => 0,
        Tile::Water => 1,
        Tile::Solid => 2,
        Tile::Wall => 3,
        Tile::Floor => 4,
    }
}

/// For each kind of tile, the region of the tile texture that shows it.
pub struct TileSet {
    tiles: Vec<Option<TextureRegion>>,
}

impl TileSet {
    #[verifier::type_invariant]
    spec fn inv(&self) -> bool {
        self.tiles@.len() == 5
    }

    /// The region that shows `tile`, if one was added.
    pub closed spec fn region_of(&self, tile: Tile) -> Option<TextureRegion> {
        self.tiles@[tile_index(tile)]
    }

    /// A tile set without regions.
    pub fn new() -> (tile_set: TileSet)
        ensures
            forall|tile: Tile| tile_set.region_of(tile) is None,
    {
        let mut tiles: Vec<Option<TextureRegion>> = Vec::new();
        tiles.push(None);
        tiles.push(None);
        tiles.push(None);
        tiles.push(None);
        tiles.push(None);
        TileSet { tiles }
    }

    /// Sets the region that shows `tile`, in place of the one it had.
    pub fn add_tile(&mut self, tile: Tile, texture_region: TextureRegion)
        ensures
            forall|other: Tile|
                #[trigger] final(self).region_of(other) == if other == tile {
                    Some(texture_region)
                } else {
                    old(self).region_of(other)
                },
    {
        proof {
            use_type_invariant(&*self);
        }
        let index = index_of(&tile);
        self.tiles[index] = Some(texture_region);
    }

    /// The region that shows `tile`, if one was added.
    pub fn get_texture_region(&self, tile: &Tile) -> (region: Option<&TextureRegion>)
        ensures
            match region {
                Some(r) => self.region_of(*tile) == Some(*r),
                None => self.region_of(*tile) is None,
            },
    {
        proof {
            use_type_invariant(self);
        }
        self.tiles[index_of(tile)].as_ref()
    }
}

/// The tiles of a grid that are drawn: the columns from `start_x` up to,
/// but not including, `end_x`, and the rows from `start_y` up to `end_y`
/// likewise.
#[derive(Clone, Copy, Debug, PartialEq, Eq, Structural)]
pub struct TileRange {
    pub start_x: u32,
    pub start_y: u32,
    pub end_x: u32,
    pub end_y: u32,
}

/// The first tile that a screen shows whose edge stands at the pixel
/// `offset` of the world: none before the first of the grid.
pub open spec fn first_tile(offset: i32) -> int {
    if offset >= 0 {
        offset as int / 8
    } else {
        0
    }
}

pub open spec fn min_of(a: int, b: int) -> int {
    if a <= b {
        a
    } else {
        b
    }
}

/// The tiles that are drawn on a screen of `camera_size` pixels whose top
/// left corner stands at the pixel `offset` of the world, on a grid of
/// `grid_size` tiles: as many as the screen is wide and high, one more
/// across and two more down for those cut by the edge, and none past the
/// grid.
pub open spec fn visible(camera_size: (u32, u32), offset: (i32, i32), grid_size: (u32, u32)) -> TileRange {
    let start_x = first_tile(offset.0);
    let start_y = first_tile(offset.1);
    TileRange {
        start_x: start_x as u32,
        start_y: start_y as u32,
        end_x: min_of(start_x + camera_size.0 / 8 + 1, grid_size.0 as int) as u32,
        end_y: min_of(start_y + camera_size.1 / 8 + 2, grid_size.1 as int) as u32,
    }
}

/// The tiles to draw.
pub fn visible_tiles(camera_size: (u32, u32), offset: (i32, i32), grid_size: (u32, u32)) -> (range:
    TileRange)
    ensures
        range == visible(camera_size, offset, grid_size),
{
    let num_tiles_across: u32 = camera_size.0 / TILE_SIZE;
    let num_tiles_down: u32 = camera_size.1 / TILE_SIZE;
    let start_x: u32 = if offset.0 >= 0 {
        offset.0 as u32 / TILE_SIZE
    } else {
        0
    };
    let start_y: u32 = if offset.1 >= 0 {
        offset.1 as u32 / TILE_SIZE
    } else {
        0
    };
    let reach_x: u32 = start_x + num_tiles_across + 1;
    let reach_y: u32 = start_y + num_tiles_down + 2;
    TileRange {
        start_x,
        start_y,
        end_x: if reach_x <= grid_size.0 {
            reach_x
        } else {
            grid_size.0
        },
        end_y: if reach_y <= grid_size.1 {
            reach_y
        } else {
            grid_size.1
        },
    }
}

/// Where on the screen the tile in column `x` and row `y` is drawn, if
/// that can be held in an `i32`.
pub fn tile_position(x: u32, y: u32, offset: (i32, i32)) -> (position: Option<(i32, i32)>)
    ensures
        position == if i32::MIN <= x * 8 - offset.0 <= i32::MAX && i32::MIN <= y * 8 - offset.1
            <= i32::MAX {
            Some(((x * 8 - offset.0) as i32, (y * 8 - offset.1) as i32))
        } else {
            None
        },
{
    let x_pos: i64 = x as i64 * 8 - offset.0 as i64;
    let y_pos: i64 = y as i64 * 8 - offset.1 as i64;
    if x_pos < i32::MIN as i64 || x_pos > i32::MAX as i64 || y_pos < i32::MIN as i64 || y_pos
        > i32::MAX as i64 {
        None
    } else {
        Some((x_pos as i32, y_pos as i32))
    }
}

} // verus!
