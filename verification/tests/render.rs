use tilegame::motor::gfx::TextureRegion;
use tilegame::render::{tile_position, visible_tiles, TileRange, TileSet, TILE_SIZE};
use tilegame::world::Tile;

#[test]
fn tile_set_holds_a_region_per_tile() {
    let mut tile_set = TileSet::new();
    for tile in [Tile::Grass, Tile::Water, Tile::Solid, Tile::Wall, Tile::Floor] {
        assert!(tile_set.get_texture_region(&tile).is_none());
    }
    tile_set.add_tile(Tile::Grass, TextureRegion::new(0, 0, 8, 8));
    tile_set.add_tile(Tile::Water, TextureRegion::new(0, 8, 8, 8));
    tile_set.add_tile(Tile::Solid, TextureRegion::new(0, 16, 8, 8));
    tile_set.add_tile(Tile::Wall, TextureRegion::new(8, 16, 8, 8));
    assert_eq!(tile_set.get_texture_region(&Tile::Grass), Some(&TextureRegion::new(0, 0, 8, 8)));
    assert_eq!(tile_set.get_texture_region(&Tile::Water), Some(&TextureRegion::new(0, 8, 8, 8)));
    assert_eq!(tile_set.get_texture_region(&Tile::Solid), Some(&TextureRegion::new(0, 16, 8, 8)));
    assert_eq!(tile_set.get_texture_region(&Tile::Wall), Some(&TextureRegion::new(8, 16, 8, 8)));
    assert_eq!(tile_set.get_texture_region(&Tile::Floor), None);
    tile_set.add_tile(Tile::Wall, TextureRegion::new(64, 0, 8, 8));
    assert_eq!(tile_set.get_texture_region(&Tile::Wall), Some(&TextureRegion::new(64, 0, 8, 8)));
    assert_eq!(tile_set.get_texture_region(&Tile::Solid), Some(&TextureRegion::new(0, 16, 8, 8)));
}

#[test]
fn visible_tiles_of_a_screen() {
    assert_eq!(TILE_SIZE, 8);
    assert_eq!(
        visible_tiles((200, 150), (0, 0), (300, 300)),
        TileRange { start_x: 0, start_y: 0, end_x: 26, end_y: 20 }
    );
    assert_eq!(
        visible_tiles((200, 150), (17, 40), (300, 300)),
        TileRange { start_x: 2, start_y: 5, end_x: 28, end_y: 25 }
    );
}

#[test]
fn visible_tiles_stop_at_the_grid() {
    assert_eq!(
        visible_tiles((200, 150), (100, 100), (20, 15)),
        TileRange { start_x: 12, start_y: 12, end_x: 20, end_y: 15 }
    );
    assert_eq!(
        visible_tiles((200, 150), (1000, 1000), (20, 15)),
        TileRange { start_x: 125, start_y: 125, end_x: 20, end_y: 15 }
    );
    assert_eq!(
        visible_tiles((200, 150), (0, 0), (0, 0)),
        TileRange { start_x: 0, start_y: 0, end_x: 0, end_y: 0 }
    );
}

#[test]
fn visible_tiles_before_the_grid() {
    assert_eq!(
        visible_tiles((16, 16), (-100, -1), (50, 50)),
        TileRange { start_x: 0, start_y: 0, end_x: 3, end_y: 4 }
    );
    assert_eq!(
        visible_tiles((16, 16), (i32::MIN, i32::MIN), (50, 50)),
        TileRange { start_x: 0, start_y: 0, end_x: 3, end_y: 4 }
    );
}

#[test]
fn visible_tiles_at_the_limits() {
    assert_eq!(
        visible_tiles((u32::MAX, u32::MAX), (i32::MAX, i32::MAX), (u32::MAX, u32::MAX)),
        TileRange { start_x: 268435455, start_y: 268435455, end_x: 805306367, end_y: 805306368 }
    );
}

#[test]
fn tile_positions() {
    assert_eq!(tile_position(0, 0, (0, 0)), Some((0, 0)));
    assert_eq!(tile_position(3, 5, (17, 40)), Some((7, 0)));
    assert_eq!(tile_position(0, 0, (17, 40)), Some((-17, -40)));
    assert_eq!(tile_position(2, 1, (-4, -4)), Some((20, 12)));
    assert_eq!(tile_position(268435455, 0, (1, 0)), Some((2147483639, 0)));
    assert_eq!(tile_position(268435456, 0, (0, 0)), None);
    assert_eq!(tile_position(268435456, 0, (1, 0)), Some((i32::MAX, 0)));
    assert_eq!(tile_position(0, u32::MAX, (0, 0)), None);
    assert_eq!(tile_position(0, 0, (i32::MIN, 0)), None);
    assert_eq!(tile_position(0, 0, (i32::MIN + 1, i32::MAX)), Some((i32::MAX, -i32::MAX)));
}
