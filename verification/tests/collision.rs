//! An entity with positions in floating point, moved over a play grid
//! whose solid tiles the library gathers.

use tilegame::world::grid::Grid;
use tilegame::world::{get_collision_tiles, Cell, CollisionData, Tile};

const TILE_SIZE: f64 = 8.0;

struct Entity {
    position: (f64, f64),
    velocity: (f64, f64),
    width: f64,
    height: f64,
    collision_data: CollisionData,
}

impl Entity {
    fn new(x: f64, y: f64, velocity: (f64, f64)) -> Entity {
        Entity {
            position: (x, y),
            velocity,
            width: 8.0,
            height: 8.0,
            collision_data: CollisionData::new(),
        }
    }
}

fn overlaps(a: (f64, f64, f64, f64), b: (f64, f64, f64, f64)) -> bool {
    a.0 < b.0 + b.2 && a.0 + a.2 > b.0 && a.1 < b.1 + b.3 && a.1 + a.3 > b.1
}

fn tiles_between(low: f64, high: f64) -> (u32, u32) {
    ((low / TILE_SIZE) as u32, (high / TILE_SIZE) as u32)
}

fn hits(rect: (f64, f64, f64, f64), collision_data: &CollisionData) -> bool {
    (0..collision_data.count()).any(|index| {
        let (x, y) = collision_data.tile(index);
        overlaps(rect, (x as f64 * TILE_SIZE, y as f64 * TILE_SIZE, TILE_SIZE, TILE_SIZE))
    })
}

fn move_entity(entity: &mut Entity, grid: &Grid<Cell>) -> bool {
    let mut collision = false;
    let (x, y) = entity.position;
    let (w, h) = (entity.width, entity.height);

    let (start_x, end_x) = if entity.velocity.0 > 0.0 {
        tiles_between(x + w, x + w + entity.velocity.0)
    } else {
        tiles_between(x + entity.velocity.0, x)
    };
    let (start_y, end_y) = tiles_between(y, y + h);
    get_collision_tiles(start_x, end_x, start_y, end_y, grid, &mut entity.collision_data);
    if hits((x + entity.velocity.0, y, w, h), &entity.collision_data) {
        entity.velocity.0 = 0.0;
        collision = true;
    }

    let (start_y, end_y) = if entity.velocity.1 > 0.0 {
        tiles_between(y + h, y + h + entity.velocity.1)
    } else {
        tiles_between(y + entity.velocity.1, y)
    };
    let (start_x, end_x) = tiles_between(x, x + w);
    get_collision_tiles(start_x, end_x, start_y, end_y, grid, &mut entity.collision_data);
    if hits((x, y + entity.velocity.1, w, h), &entity.collision_data) {
        entity.velocity.1 = 0.0;
        collision = true;
    }

    entity.position = (x + entity.velocity.0, y + entity.velocity.1);
    collision
}

fn floor_with(solid: &[(u32, u32)]) -> Grid<Cell> {
    let mut grid = Grid::new(16, 16);
    grid.fill(0, 0, 16, 16, || Cell::new(Tile::Floor));
    for &(x, y) in solid {
        grid.set(x, y, Cell::new(Tile::Solid));
    }
    grid
}

#[test]
fn no_penetration() {
    let grid = floor_with(&[(1, 0)]);
    let mut entity = Entity::new(7.0, 0.0, (5.0, 0.0));
    assert!(move_entity(&mut entity, &grid));
    assert_eq!(entity.velocity.0, 0.0);
    assert_eq!(entity.position.0, 7.0);
    assert_eq!(entity.position.1, 0.0);
}

#[test]
fn free_movement() {
    let grid = floor_with(&[]);
    let mut entity = Entity::new(7.0, 0.0, (3.0, -2.0));
    assert!(!move_entity(&mut entity, &grid));
    assert_eq!(entity.velocity, (3.0, -2.0));
    assert_eq!(entity.position, (10.0, -2.0));
}

#[test]
fn sliding_along_a_wall() {
    let mut grid = floor_with(&[]);
    for x in 0..16 {
        grid.set(x, 4, Cell::new(Tile::Wall));
    }
    let mut entity = Entity::new(40.0, 23.0, (2.0, 3.0));
    assert!(move_entity(&mut entity, &grid));
    assert_eq!(entity.velocity, (2.0, 0.0));
    assert_eq!(entity.position, (42.0, 23.0));
}

#[test]
fn stopped_on_the_way_left_and_up() {
    let grid = floor_with(&[(2, 5), (5, 2)]);
    let mut entity = Entity::new(25.0, 40.0, (-3.0, 0.0));
    assert!(move_entity(&mut entity, &grid));
    assert_eq!(entity.position, (25.0, 40.0));
    let mut entity = Entity::new(40.0, 25.0, (0.0, -3.0));
    assert!(move_entity(&mut entity, &grid));
    assert_eq!(entity.position, (40.0, 25.0));
    let mut entity = Entity::new(40.0, 40.0, (-3.0, -3.0));
    assert!(!move_entity(&mut entity, &grid));
    assert_eq!(entity.position, (37.0, 37.0));
}
