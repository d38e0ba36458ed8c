use tilegame::generator::carve::{tick, tick_with, TickDraws};
use tilegame::generator::{
    carve_step, make_level, make_level_within, place_floor, place_room, CarveStep,
    Direction, FloorMaker, GenerationError, MakeRoomConfig, RoomType, Tile, FLOOR_TARGET, START_X,
    START_Y, TICK_LIMIT,
};
use tilegame::world::grid::Grid;

fn walls(width: u32, height: u32) -> Grid<Tile> {
    let mut grid = Grid::new(width, height);
    grid.fill(0, 0, width, height, || Tile::Wall);
    grid
}

fn count_floor(grid: &Grid<Tile>) -> u64 {
    let mut count = 0;
    for y in 0..grid.height() {
        for x in 0..grid.width() {
            if grid.get(x, y) == Some(&Tile::Floor) {
                count += 1;
            }
        }
    }
    count
}

#[test]
fn place_floor_carves_a_wall() {
    let mut grid = walls(3, 3);
    assert!(place_floor(1, 2, &mut grid));
    assert_eq!(grid.get(1, 2), Some(&Tile::Floor));
    assert_eq!(count_floor(&grid), 1);
    assert!(!place_floor(1, 2, &mut grid));
    assert_eq!(grid.get(1, 2), Some(&Tile::Floor));
    assert_eq!(count_floor(&grid), 1);
}

#[test]
fn place_floor_outside_does_nothing() {
    let mut grid = walls(3, 3);
    assert!(!place_floor(3, 0, &mut grid));
    assert!(!place_floor(0, 3, &mut grid));
    assert!(!place_floor(u32::MAX, u32::MAX, &mut grid));
    assert_eq!(count_floor(&grid), 0);
}

#[test]
fn place_floor_leaves_an_empty_slot_empty() {
    let mut grid: Grid<Tile> = Grid::new(2, 2);
    assert!(!place_floor(0, 0, &mut grid));
    assert_eq!(grid.get(0, 0), None);
}

#[test]
fn place_room_two_by_two() {
    let mut grid = walls(5, 5);
    assert_eq!(place_room(RoomType::TwoByTwo, 1, 2, &mut grid), 4);
    for y in 0..5 {
        for x in 0..5 {
            let inside = (1..3).contains(&x) && (2..4).contains(&y);
            let expected = if inside { Tile::Floor } else { Tile::Wall };
            assert_eq!(grid.get(x, y), Some(&expected));
        }
    }
}

#[test]
fn place_room_three_by_three_counts_only_walls() {
    let mut grid = walls(6, 6);
    assert!(place_floor(2, 2, &mut grid));
    assert!(place_floor(3, 3, &mut grid));
    assert_eq!(place_room(RoomType::ThreeByThree, 2, 2, &mut grid), 7);
    assert_eq!(count_floor(&grid), 9);
    for y in 0..6 {
        for x in 0..6 {
            let inside = (2..5).contains(&x) && (2..5).contains(&y);
            let expected = if inside { Tile::Floor } else { Tile::Wall };
            assert_eq!(grid.get(x, y), Some(&expected));
        }
    }
    assert_eq!(place_room(RoomType::ThreeByThree, 2, 2, &mut grid), 0);
}

#[test]
fn place_room_without_a_room() {
    let mut grid = walls(4, 4);
    assert_eq!(place_room(RoomType::NoRoom, 1, 1, &mut grid), 0);
    assert_eq!(count_floor(&grid), 0);
}

#[test]
fn place_room_is_cut_off_at_the_edge() {
    let mut grid = walls(4, 4);
    assert_eq!(place_room(RoomType::ThreeByThree, 2, 3, &mut grid), 2);
    assert_eq!(grid.get(2, 3), Some(&Tile::Floor));
    assert_eq!(grid.get(3, 3), Some(&Tile::Floor));
    assert_eq!(count_floor(&grid), 2);
    assert_eq!(place_room(RoomType::ThreeByThree, 4, 4, &mut grid), 0);
    assert_eq!(place_room(RoomType::TwoByTwo, u32::MAX, u32::MAX, &mut grid), 0);
    assert_eq!(count_floor(&grid), 2);
}

fn reachable(grid: &Grid<Tile>, start: (u32, u32)) -> Vec<Vec<bool>> {
    let width = grid.width() as usize;
    let height = grid.height() as usize;
    let mut seen = vec![vec![false; width]; height];
    let mut queue = vec![start];
    seen[start.1 as usize][start.0 as usize] = true;
    while let Some((x, y)) = queue.pop() {
        let mut next = Vec::new();
        if x > 0 {
            next.push((x - 1, y));
        }
        if y > 0 {
            next.push((x, y - 1));
        }
        if x + 1 < grid.width() {
            next.push((x + 1, y));
        }
        if y + 1 < grid.height() {
            next.push((x, y + 1));
        }
        for (nx, ny) in next {
            if !seen[ny as usize][nx as usize] && grid.get(nx, ny) == Some(&Tile::Floor) {
                seen[ny as usize][nx as usize] = true;
                queue.push((nx, ny));
            }
        }
    }
    seen
}

fn check_level(width: u32, height: u32) {
    let level = match make_level(width, height) {
        Ok(level) => level,
        Err(error) => panic!("no level: {:?}", error),
    };
    assert_eq!(level.start, (START_X, START_Y));
    assert_eq!(level.start, (50, 50));
    assert_eq!(level.grid.width(), width);
    assert_eq!(level.grid.height(), height);
    assert!(count_floor(&level.grid) > FLOOR_TARGET);
    assert!(count_floor(&level.grid) > 110);
    let seen = reachable(&level.grid, level.start);
    for y in 0..height {
        for x in 0..width {
            match level.grid.get(x, y) {
                Some(Tile::Floor) => assert!(seen[y as usize][x as usize]),
                Some(Tile::Wall) => {}
                None => panic!("an empty slot at ({}, {})", x, y),
            }
        }
    }
}

#[test]
fn level_of_150_by_150() {
    for _ in 0..5 {
        check_level(150, 150);
    }
}

#[test]
fn level_of_100_by_100() {
    for _ in 0..5 {
        check_level(100, 100);
    }
}

#[test]
fn level_on_the_smallest_grid() {
    check_level(51, 51);
}

#[test]
fn levels_differ() {
    let mut counts = Vec::new();
    let mut cells = Vec::new();
    for _ in 0..6 {
        let level = match make_level(120, 120) {
            Ok(level) => level,
            Err(error) => panic!("no level: {:?}", error),
        };
        counts.push(count_floor(&level.grid));
        let mut floor = Vec::new();
        for y in 0..120 {
            for x in 0..120 {
                if level.grid.get(x, y) == Some(&Tile::Floor) {
                    floor.push((x, y));
                }
            }
        }
        cells.push(floor);
    }
    assert!(cells.iter().any(|floor| *floor != cells[0]));
}

#[test]
fn grid_without_the_start_is_too_small() {
    assert!(matches!(make_level(50, 150), Err(GenerationError::GridTooSmall)));
    assert!(matches!(make_level(150, 50), Err(GenerationError::GridTooSmall)));
    assert!(matches!(make_level(0, 0), Err(GenerationError::GridTooSmall)));
    assert!(matches!(make_level(10, 10), Err(GenerationError::GridTooSmall)));
}

#[test]
fn no_level_within_no_ticks() {
    assert!(matches!(make_level_within(150, 150, 0), Err(GenerationError::TickLimit)));
    assert!(matches!(make_level_within(51, 51, 0), Err(GenerationError::TickLimit)));
    assert!(matches!(make_level_within(50, 51, 0), Err(GenerationError::GridTooSmall)));
}

#[test]
fn no_level_within_few_ticks() {
    // A walker carves nine cells a tick at most, and the walkers double at
    // most: three ticks cannot carve more than the target.
    for _ in 0..20 {
        assert!(matches!(make_level_within(150, 150, 3), Err(GenerationError::TickLimit)));
    }
}

#[test]
fn level_within_the_usual_ticks() {
    assert_eq!(TICK_LIMIT, 100000);
    let level = match make_level_within(150, 150, TICK_LIMIT) {
        Ok(level) => level,
        Err(error) => panic!("no level: {:?}", error),
    };
    assert!(count_floor(&level.grid) > 110);
}

#[test]
fn what_a_carve_does_next() {
    assert_eq!(carve_step(0, 0, 10), CarveStep::Tick);
    assert_eq!(carve_step(110, 9, 10), CarveStep::Tick);
    assert_eq!(carve_step(110, 10, 10), CarveStep::GiveUp);
    assert_eq!(carve_step(0, 0, 0), CarveStep::GiveUp);
    assert_eq!(carve_step(111, 0, 0), CarveStep::Done);
    assert_eq!(carve_step(111, 10, 10), CarveStep::Done);
    assert_eq!(carve_step(u64::MAX, u32::MAX, 0), CarveStep::Done);
    assert_eq!(carve_step(3, u32::MAX, u32::MAX), CarveStep::GiveUp);
}

#[test]
fn floor_of_a_level_is_one_region() {
    for _ in 0..5 {
        let level = match make_level(150, 150) {
            Ok(level) => level,
            Err(error) => panic!("no level: {:?}", error),
        };
        let mut first = None;
        for y in 0..150 {
            for x in 0..150 {
                if first.is_none() && level.grid.get(x, y) == Some(&Tile::Floor) {
                    first = Some((x, y));
                }
            }
        }
        let first = match first {
            Some(first) => first,
            None => panic!("no floor"),
        };
        let seen = reachable(&level.grid, first);
        for y in 0..150 {
            for x in 0..150 {
                if level.grid.get(x, y) == Some(&Tile::Floor) {
                    assert!(seen[y as usize][x as usize]);
                }
            }
        }
    }
}

fn room_policy() -> MakeRoomConfig {
    match MakeRoomConfig::new(10, 10) {
        Ok(policy) => policy,
        Err(_) => panic!("the weights are in range"),
    }
}

fn floor_cells(grid: &Grid<Tile>) -> Vec<(u32, u32)> {
    let mut cells = Vec::new();
    for y in 0..grid.height() {
        for x in 0..grid.width() {
            if grid.get(x, y) == Some(&Tile::Floor) {
                cells.push((x, y));
            }
        }
    }
    cells
}

fn places(walkers: &[FloorMaker]) -> Vec<(u32, u32, Direction, u32)> {
    walkers.iter().map(|w| (w.x, w.y, w.direction, w.step_count)).collect()
}

#[test]
fn tick_by_given_draws() {
    let mut grid = walls(60, 60);
    let mut walkers = vec![FloorMaker::with_direction(50, 50, Direction::Up)];
    let policy = room_policy();
    // Straight on, the smaller room, a spawn facing left, and both stay.
    let draws = TickDraws {
        turns: vec![99],
        rooms: vec![0],
        spawns: vec![5],
        facings: vec![2],
        culls: vec![0, 0],
    };
    assert_eq!(tick_with(&mut grid, &mut walkers, &policy, &draws), 4);
    assert_eq!(floor_cells(&grid), vec![(50, 49), (51, 49), (50, 50), (51, 50)]);
    assert_eq!(places(&walkers), vec![(50, 49, Direction::Up, 1), (50, 49, Direction::Left, 0)]);

    // The first turns right and walks onto floor; the second walks on and
    // carves with the larger room. Nobody spawns; the first is taken away.
    let draws = TickDraws {
        turns: vec![10, 30],
        rooms: vec![0, 10],
        spawns: vec![20, 99],
        facings: vec![0, 0],
        culls: vec![80, 99, 0, 0],
    };
    assert_eq!(tick_with(&mut grid, &mut walkers, &policy, &draws), 5);
    assert_eq!(places(&walkers), vec![(49, 49, Direction::Left, 1)]);
    assert_eq!(
        floor_cells(&grid),
        vec![
            (49, 49), (50, 49), (51, 49),
            (49, 50), (50, 50), (51, 50),
            (49, 51), (50, 51), (51, 51),
        ]
    );
}

#[test]
fn tick_by_given_draws_without_a_room() {
    let mut grid = walls(60, 60);
    let mut walkers = vec![FloorMaker::with_direction(50, 50, Direction::Down)];
    let policy = room_policy();
    // A u-turn, no room, no spawn.
    let draws = TickDraws {
        turns: vec![20],
        rooms: vec![20],
        spawns: vec![10],
        facings: vec![3],
        culls: vec![99, 99],
    };
    assert_eq!(tick_with(&mut grid, &mut walkers, &policy, &draws), 1);
    assert_eq!(floor_cells(&grid), vec![(50, 49)]);
    assert_eq!(places(&walkers), vec![(50, 49, Direction::Up, 1)]);
    // Back onto the start, which is still a wall.
    let draws = TickDraws {
        turns: vec![29],
        rooms: vec![99],
        spawns: vec![99],
        facings: vec![0],
        culls: vec![99, 99],
    };
    assert_eq!(tick_with(&mut grid, &mut walkers, &policy, &draws), 1);
    assert_eq!(floor_cells(&grid), vec![(50, 49), (50, 50)]);
    assert_eq!(places(&walkers), vec![(50, 50, Direction::Down, 2)]);
    // Onto floor: nothing is carved.
    let draws = TickDraws {
        turns: vec![20],
        rooms: vec![0],
        spawns: vec![99],
        facings: vec![0],
        culls: vec![99, 99],
    };
    assert_eq!(tick_with(&mut grid, &mut walkers, &policy, &draws), 0);
    assert_eq!(floor_cells(&grid), vec![(50, 49), (50, 50)]);
    assert_eq!(places(&walkers), vec![(50, 49, Direction::Up, 3)]);
}

#[test]
fn drawn_numbers_fit_a_tick() {
    for population in [0, 1, 7] {
        let draws = TickDraws::draw(population);
        assert_eq!(draws.turns.len(), population);
        assert_eq!(draws.rooms.len(), population);
        assert_eq!(draws.spawns.len(), population);
        assert_eq!(draws.facings.len(), population);
        assert_eq!(draws.culls.len(), 2 * population);
        assert!(draws.turns.iter().all(|&drawn| drawn < 100));
        assert!(draws.rooms.iter().all(|&drawn| drawn < 100));
        assert!(draws.spawns.iter().all(|&drawn| drawn < 100));
        assert!(draws.facings.iter().all(|&drawn| drawn < 4));
        assert!(draws.culls.iter().all(|&drawn| drawn < 100));
    }
}

#[test]
fn a_tick_at_random_carves_next_to_the_start() {
    for _ in 0..50 {
        let mut grid = walls(60, 60);
        let mut walkers = vec![FloorMaker::with_direction(50, 50, Direction::Up)];
        let carved = tick(&mut grid, &mut walkers, &room_policy());
        assert_eq!(carved, count_floor(&grid));
        assert!((1..=9).contains(&carved));
        assert!(!walkers.is_empty() && walkers.len() <= 2);
        let (x, y) = (walkers[0].x, walkers[0].y);
        assert_eq!(x.abs_diff(50) + y.abs_diff(50), 1);
        assert_eq!(grid.get(x, y), Some(&Tile::Floor));
    }
}
