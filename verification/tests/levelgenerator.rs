use tilegame::generator;
use tilegame::levelgenerator::{
    autotile, bounding_box, expand, make_level, post_process, BoundingBox, Level, LevelError,
    CELL_SIZE,
};
use tilegame::world::grid::Grid;
use tilegame::world::{Cell, Tile};

fn template(width: u32, height: u32, floor: &[(u32, u32)], start: (u32, u32)) -> generator::Level {
    let mut grid = Grid::new(width, height);
    grid.fill(0, 0, width, height, || generator::Tile::Wall);
    for &(x, y) in floor {
        grid.set(x, y, generator::Tile::Floor);
    }
    generator::Level { grid, start }
}

fn processed(level: &generator::Level, cell_size: u32) -> Level {
    match post_process(level, cell_size) {
        Ok(out) => out,
        Err(error) => panic!("not processed: {:?}", error),
    }
}

fn tile_at(grid: &Grid<Cell>, x: u32, y: u32) -> Option<Tile> {
    grid.get(x, y).map(|cell| cell.tile)
}

#[test]
fn bounding_box_of_scattered_floor() {
    let level = template(10, 8, &[(3, 2), (5, 6), (4, 4)], (3, 2));
    assert_eq!(
        bounding_box(&level.grid),
        Some(BoundingBox { min_x: 3, max_x: 5, min_y: 2, max_y: 6 })
    );
}

#[test]
fn bounding_box_of_one_tile() {
    let level = template(4, 4, &[(0, 3)], (0, 3));
    assert_eq!(
        bounding_box(&level.grid),
        Some(BoundingBox { min_x: 0, max_x: 0, min_y: 3, max_y: 3 })
    );
}

#[test]
fn bounding_box_without_floor() {
    let level = template(4, 4, &[], (0, 0));
    assert_eq!(bounding_box(&level.grid), None);
    let empty: Grid<generator::Tile> = Grid::new(0, 0);
    assert_eq!(bounding_box(&empty), None);
    let unset: Grid<generator::Tile> = Grid::new(3, 3);
    assert_eq!(bounding_box(&unset), None);
}

#[test]
fn one_floor_tile_in_blocks_of_three() {
    let level = template(10, 10, &[(4, 5)], (4, 5));
    let out = processed(&level, 3);
    assert_eq!(out.grid.width(), 9);
    assert_eq!(out.grid.height(), 9);
    assert_eq!(out.start_tile, (3, 3));
    for y in 0..9 {
        for x in 0..9 {
            let expected = if (3..6).contains(&x) && (3..6).contains(&y) {
                Tile::Floor
            } else if (3..6).contains(&x) && y == 2 {
                Tile::Wall
            } else {
                Tile::Solid
            };
            assert_eq!(tile_at(&out.grid, x, y), Some(expected), "at ({}, {})", x, y);
        }
    }
}

#[test]
fn dimensions_follow_the_bounding_box() {
    let level = template(20, 20, &[(3, 2), (7, 9)], (3, 2));
    let out = processed(&level, 3);
    assert_eq!(out.grid.width(), (7 - 3 + 3) * 3);
    assert_eq!(out.grid.height(), (9 - 2 + 3) * 3);
    assert_eq!(out.start_tile, (3, 3));
    let out = processed(&level, 2);
    assert_eq!(out.grid.width(), 14);
    assert_eq!(out.grid.height(), 20);
    assert_eq!(out.start_tile, (2, 2));
    let out = processed(&level, 1);
    assert_eq!(out.grid.width(), 7);
    assert_eq!(out.grid.height(), 10);
    assert_eq!(out.start_tile, (1, 1));
    assert_eq!(tile_at(&out.grid, 1, 1), Some(Tile::Floor));
    assert_eq!(tile_at(&out.grid, 5, 8), Some(Tile::Floor));
    assert_eq!(tile_at(&out.grid, 1, 0), Some(Tile::Wall));
    assert_eq!(tile_at(&out.grid, 5, 7), Some(Tile::Wall));
    assert_eq!(tile_at(&out.grid, 0, 0), Some(Tile::Solid));
    assert_eq!(tile_at(&out.grid, 6, 9), Some(Tile::Solid));
    assert_eq!(tile_at(&out.grid, 7, 9), None);
    assert_eq!(tile_at(&out.grid, 6, 10), None);
}

#[test]
fn start_next_to_the_floor() {
    let level = template(20, 20, &[(6, 6), (7, 6)], (5, 6));
    let out = processed(&level, 3);
    assert_eq!(out.start_tile, (0, 3));
    let level = template(20, 20, &[(6, 6), (7, 6)], (8, 7));
    let out = processed(&level, 3);
    assert_eq!(out.start_tile, (9, 6));
}

#[test]
fn start_far_from_the_floor() {
    let level = template(20, 20, &[(6, 6)], (12, 6));
    assert_eq!(processed(&level, 3).start_tile, (0, 0));
    let level = template(20, 20, &[(6, 6)], (6, 2));
    assert_eq!(processed(&level, 3).start_tile, (0, 0));
}

#[test]
fn floor_at_the_edge_of_the_level() {
    let level = template(3, 3, &[(0, 0), (2, 2)], (0, 0));
    let out = processed(&level, 2);
    assert_eq!(out.grid.width(), 10);
    assert_eq!(out.grid.height(), 10);
    assert_eq!(out.start_tile, (2, 2));
    for y in 0..10 {
        for x in 0..10 {
            let floor = |x: u32, y: u32| {
                ((2..4).contains(&x) && (2..4).contains(&y))
                    || ((6..8).contains(&x) && (6..8).contains(&y))
            };
            let expected = if floor(x, y) {
                Tile::Floor
            } else if floor(x, y + 1) {
                Tile::Wall
            } else {
                Tile::Solid
            };
            assert_eq!(tile_at(&out.grid, x, y), Some(expected), "at ({}, {})", x, y);
        }
    }
}

#[test]
fn blocks_of_no_cells() {
    let level = template(5, 5, &[(2, 2)], (2, 2));
    let out = processed(&level, 0);
    assert_eq!(out.grid.width(), 0);
    assert_eq!(out.grid.height(), 0);
    assert_eq!(out.start_tile, (0, 0));
}

#[test]
fn level_without_floor_is_rejected() {
    let level = template(5, 5, &[], (2, 2));
    assert!(matches!(post_process(&level, 3), Err(LevelError::NoFloor)));
    assert!(matches!(post_process(&level, 0), Err(LevelError::NoFloor)));
}

#[test]
fn play_grid_too_large_is_rejected() {
    let level = template(5, 5, &[(2, 2)], (2, 2));
    assert!(matches!(post_process(&level, u32::MAX), Err(LevelError::TooLarge)));
    assert!(matches!(post_process(&level, u32::MAX / 3 + 1), Err(LevelError::TooLarge)));
}

#[test]
fn expand_writes_every_block() {
    let level = template(6, 6, &[(2, 2), (3, 2)], (2, 2));
    let bbox = BoundingBox { min_x: 2, max_x: 3, min_y: 2, max_y: 2 };
    let out = expand(&level, bbox, 2);
    assert_eq!(out.grid.width(), 8);
    assert_eq!(out.grid.height(), 6);
    assert_eq!(out.start_tile, (2, 2));
    for y in 0..6 {
        for x in 0..8 {
            let expected = if (2..6).contains(&x) && (2..4).contains(&y) {
                Tile::Floor
            } else {
                Tile::Solid
            };
            assert_eq!(tile_at(&out.grid, x, y), Some(expected));
        }
    }
}

#[test]
fn autotile_turns_rock_above_floor() {
    let mut grid: Grid<Cell> = Grid::new(3, 4);
    grid.fill(0, 0, 3, 4, || Cell::new(Tile::Solid));
    grid.set(1, 2, Cell::new(Tile::Floor));
    grid.set(1, 1, Cell::new(Tile::Floor));
    grid.set(2, 3, Cell::new(Tile::Floor));
    grid.set(0, 1, Cell::new(Tile::Water));
    grid.set(0, 0, Cell::new(Tile::Grass));
    autotile(&mut grid);
    let expected = [
        [Tile::Grass, Tile::Wall, Tile::Solid],
        [Tile::Water, Tile::Floor, Tile::Solid],
        [Tile::Solid, Tile::Floor, Tile::Wall],
        [Tile::Solid, Tile::Solid, Tile::Floor],
    ];
    for y in 0..4 {
        for x in 0..3 {
            assert_eq!(tile_at(&grid, x, y), Some(expected[y as usize][x as usize]));
        }
    }
}

#[test]
fn autotile_does_not_spread() {
    let mut grid: Grid<Cell> = Grid::new(1, 4);
    grid.fill(0, 0, 1, 4, || Cell::new(Tile::Solid));
    grid.set(0, 3, Cell::new(Tile::Floor));
    autotile(&mut grid);
    assert_eq!(tile_at(&grid, 0, 0), Some(Tile::Solid));
    assert_eq!(tile_at(&grid, 0, 1), Some(Tile::Solid));
    assert_eq!(tile_at(&grid, 0, 2), Some(Tile::Wall));
    assert_eq!(tile_at(&grid, 0, 3), Some(Tile::Floor));
}

#[test]
fn autotile_skips_empty_slots() {
    let mut grid: Grid<Cell> = Grid::new(2, 2);
    grid.set(0, 0, Cell::new(Tile::Solid));
    grid.set(1, 1, Cell::new(Tile::Floor));
    autotile(&mut grid);
    assert_eq!(tile_at(&grid, 0, 0), Some(Tile::Solid));
    assert_eq!(tile_at(&grid, 1, 0), None);
    assert_eq!(tile_at(&grid, 0, 1), None);
    assert_eq!(tile_at(&grid, 1, 1), Some(Tile::Floor));
}

fn check_play_grid(out: &Level, cell_size: u32) {
    let width = out.grid.width();
    let height = out.grid.height();
    assert!(width >= 3 * cell_size && height >= 3 * cell_size);
    assert_eq!(width % cell_size, 0);
    assert_eq!(height % cell_size, 0);
    let mut floor = 0;
    for y in 0..height {
        for x in 0..width {
            let tile = match tile_at(&out.grid, x, y) {
                Some(tile) => tile,
                None => panic!("an empty slot at ({}, {})", x, y),
            };
            let on_border = x < cell_size
                || y < cell_size
                || x >= width - cell_size
                || y >= height - cell_size;
            if on_border {
                assert_ne!(tile, Tile::Floor, "floor on the border at ({}, {})", x, y);
            }
            let below = tile_at(&out.grid, x, y + 1);
            match tile {
                Tile::Floor => floor += 1,
                Tile::Wall => assert_eq!(below, Some(Tile::Floor)),
                Tile::Solid => assert_ne!(below, Some(Tile::Floor)),
                Tile::Grass | Tile::Water => panic!("no such tile in a level"),
            }
        }
    }
    assert!(floor > 110 * cell_size * cell_size);
}

#[test]
fn made_level_has_a_closed_border() {
    for _ in 0..5 {
        let out = match make_level(100, 100) {
            Ok(out) => out,
            Err(error) => panic!("no level: {:?}", error),
        };
        assert_eq!(CELL_SIZE, 3);
        check_play_grid(&out, 3);
        assert_eq!(out.start_tile.0 % 3, 0);
        assert_eq!(out.start_tile.1 % 3, 0);
        assert!(out.start_tile.0 < out.grid.width());
        assert!(out.start_tile.1 < out.grid.height());
    }
}

#[test]
fn generated_level_processed_in_other_block_sizes() {
    let level = match generator::make_level(150, 150) {
        Ok(level) => level,
        Err(error) => panic!("no level: {:?}", error),
    };
    for cell_size in 1..5 {
        let out = processed(&level, cell_size);
        check_play_grid(&out, cell_size);
    }
}

#[test]
fn make_level_on_a_small_grid() {
    assert!(matches!(make_level(50, 50), Err(LevelError::GridTooSmall)));
    assert!(matches!(make_level(0, 200), Err(LevelError::GridTooSmall)));
}

#[test]
fn generation_errors_are_handed_on() {
    assert_eq!(
        LevelError::from(generator::GenerationError::GridTooSmall),
        LevelError::GridTooSmall
    );
    assert_eq!(LevelError::from(generator::GenerationError::TickLimit), LevelError::TickLimit);
    assert_eq!(
        LevelError::from(generator::GenerationError::GridTooLarge),
        LevelError::GridTooLarge
    );
}
