use tilegame::generator::carve::{cull, cull_with, is_spared, spawn_chance, survival_chance};
use tilegame::generator::{Direction, FloorMaker, TurnType};

#[test]
fn new_walker() {
    for _ in 0..50 {
        let walker = FloorMaker::new(3, 4);
        assert_eq!(walker.x, 3);
        assert_eq!(walker.y, 4);
        assert_eq!(walker.step_count, 0);
        for index in 0..100 {
            let expected = if index < 10 {
                TurnType::Left
            } else if index < 20 {
                TurnType::Right
            } else if index < 30 {
                TurnType::UTurn
            } else {
                TurnType::Straight
            };
            assert_eq!(walker.turn_chance_config.turn_at(index), expected);
        }
    }
}

#[test]
fn new_walkers_face_every_way() {
    let mut seen = [false; 4];
    for _ in 0..400 {
        match FloorMaker::new(0, 0).direction {
            Direction::Up => seen[0] = true,
            Direction::Down => seen[1] = true,
            Direction::Left => seen[2] = true,
            Direction::Right => seen[3] = true,
        }
    }
    assert_eq!(seen, [true; 4]);
}

#[test]
fn walker_with_direction() {
    let walker = FloorMaker::with_direction(7, 9, Direction::Left);
    assert_eq!(walker.x, 7);
    assert_eq!(walker.y, 9);
    assert_eq!(walker.direction, Direction::Left);
    assert_eq!(walker.step_count, 0);
}

#[test]
fn up_is_towards_lower_rows() {
    let mut walker = FloorMaker::with_direction(5, 5, Direction::Up);
    walker.advance(TurnType::Straight, 10, 10);
    assert_eq!((walker.x, walker.y), (5, 4));
    assert_eq!(walker.direction, Direction::Up);
    assert_eq!(walker.step_count, 1);
}

#[test]
fn down_is_towards_higher_rows() {
    let mut walker = FloorMaker::with_direction(5, 5, Direction::Down);
    walker.advance(TurnType::Straight, 10, 10);
    assert_eq!((walker.x, walker.y), (5, 6));
}

#[test]
fn left_and_right_change_the_column() {
    let mut walker = FloorMaker::with_direction(5, 5, Direction::Left);
    walker.advance(TurnType::Straight, 10, 10);
    assert_eq!((walker.x, walker.y), (4, 5));
    walker.advance(TurnType::UTurn, 10, 10);
    assert_eq!((walker.x, walker.y), (5, 5));
    assert_eq!(walker.direction, Direction::Right);
    walker.advance(TurnType::Straight, 10, 10);
    assert_eq!((walker.x, walker.y), (6, 5));
    assert_eq!(walker.step_count, 3);
}

#[test]
fn walker_turns_before_it_steps() {
    let mut walker = FloorMaker::with_direction(5, 5, Direction::Up);
    walker.advance(TurnType::Left, 10, 10);
    assert_eq!(walker.direction, Direction::Left);
    assert_eq!((walker.x, walker.y), (4, 5));
    walker.advance(TurnType::Left, 10, 10);
    assert_eq!(walker.direction, Direction::Down);
    assert_eq!((walker.x, walker.y), (4, 6));
    walker.advance(TurnType::Right, 10, 10);
    assert_eq!(walker.direction, Direction::Left);
    assert_eq!((walker.x, walker.y), (3, 6));
}

#[test]
fn the_edge_is_a_wall() {
    let mut walker = FloorMaker::with_direction(0, 0, Direction::Up);
    walker.advance(TurnType::Straight, 10, 10);
    assert_eq!((walker.x, walker.y), (0, 0));
    assert_eq!(walker.step_count, 1);
    walker.advance(TurnType::Left, 10, 10);
    assert_eq!(walker.direction, Direction::Left);
    assert_eq!((walker.x, walker.y), (0, 0));
    assert_eq!(walker.step_count, 2);

    let mut walker = FloorMaker::with_direction(9, 9, Direction::Down);
    walker.advance(TurnType::Straight, 10, 10);
    assert_eq!((walker.x, walker.y), (9, 9));
    walker.advance(TurnType::Left, 10, 10);
    assert_eq!(walker.direction, Direction::Right);
    assert_eq!((walker.x, walker.y), (9, 9));
    walker.advance(TurnType::UTurn, 10, 10);
    assert_eq!((walker.x, walker.y), (8, 9));
}

#[test]
fn a_walker_at_the_largest_coordinate_stays() {
    let mut walker = FloorMaker::with_direction(u32::MAX, u32::MAX, Direction::Down);
    walker.advance(TurnType::Straight, u32::MAX, u32::MAX);
    assert_eq!((walker.x, walker.y), (u32::MAX, u32::MAX));
    walker.advance(TurnType::Left, u32::MAX, u32::MAX);
    assert_eq!((walker.x, walker.y), (u32::MAX, u32::MAX));
}

#[test]
fn step_count_stops_at_its_limit() {
    let mut walker = FloorMaker::with_direction(1, 1, Direction::Up);
    walker.step_count = u32::MAX - 1;
    walker.advance(TurnType::Straight, 3, 3);
    assert_eq!(walker.step_count, u32::MAX);
    walker.advance(TurnType::Straight, 3, 3);
    assert_eq!(walker.step_count, u32::MAX);
}

#[test]
fn step_moves_by_at_most_one_cell() {
    for _ in 0..200 {
        let mut walker = FloorMaker::new(5, 5);
        walker.step(11, 11);
        let dx = walker.x.abs_diff(5);
        let dy = walker.y.abs_diff(5);
        assert_eq!(dx + dy, 1);
        assert_eq!(walker.step_count, 1);
        let (dx, dy): (i64, i64) = (walker.x as i64 - 5, walker.y as i64 - 5);
        let expected = match walker.direction {
            Direction::Up => (0, -1),
            Direction::Down => (0, 1),
            Direction::Left => (-1, 0),
            Direction::Right => (1, 0),
        };
        assert_eq!((dx, dy), expected);
    }
}

#[test]
fn step_stays_inside_a_single_cell() {
    for _ in 0..50 {
        let mut walker = FloorMaker::new(0, 0);
        walker.step(1, 1);
        assert_eq!((walker.x, walker.y), (0, 0));
    }
}

#[test]
fn chances_by_population() {
    assert_eq!(spawn_chance(0), 0);
    assert_eq!(spawn_chance(1), 10);
    assert_eq!(spawn_chance(5), 50);
    assert_eq!(spawn_chance(10), 100);
    assert_eq!(spawn_chance(11), 100);
    assert_eq!(spawn_chance(usize::MAX), 100);
    assert_eq!(survival_chance(0), 100);
    assert_eq!(survival_chance(1), 90);
    assert_eq!(survival_chance(2), 80);
    assert_eq!(survival_chance(9), 10);
    assert_eq!(survival_chance(10), 0);
    assert_eq!(survival_chance(usize::MAX), 0);
}

fn stepped(x: u32) -> FloorMaker {
    let mut walker = FloorMaker::with_direction(x, 0, Direction::Right);
    walker.step_count = 1;
    walker
}

#[test]
fn cull_never_takes_the_last_walker() {
    for _ in 0..100 {
        let walkers: Vec<FloorMaker> = (0..12).map(stepped).collect();
        let kept = cull(walkers);
        assert_eq!(kept.len(), 1);
        assert_eq!(kept[0].x, 11);
    }
}

#[test]
fn cull_of_one_keeps_it() {
    let kept = cull(vec![stepped(3)]);
    assert_eq!(kept.len(), 1);
    assert_eq!(kept[0].x, 3);
    assert!(cull(Vec::new()).is_empty());
}

#[test]
fn cull_keeps_fresh_walkers_and_the_order() {
    for _ in 0..100 {
        let mut walkers: Vec<FloorMaker> = Vec::new();
        for x in 0..20 {
            if x % 2 == 0 {
                walkers.push(stepped(x));
            } else {
                walkers.push(FloorMaker::with_direction(x, 0, Direction::Right));
            }
        }
        let kept = cull(walkers);
        let columns: Vec<u32> = kept.iter().map(|walker| walker.x).collect();
        assert_eq!(columns, vec![1, 3, 5, 7, 9, 11, 13, 15, 17, 19]);
    }
}

#[test]
fn cull_keeps_a_selection_in_order() {
    for _ in 0..100 {
        let walkers: Vec<FloorMaker> = (0..5).map(stepped).collect();
        let kept = cull(walkers);
        assert!(!kept.is_empty());
        assert!(kept.len() <= 5);
        for pair in kept.windows(2) {
            assert!(pair[0].x < pair[1].x);
        }
    }
}

#[test]
fn who_is_spared() {
    assert!(is_spared(1, 5));
    assert!(is_spared(0, 5));
    assert!(is_spared(7, 0));
    assert!(is_spared(1, 0));
    assert!(!is_spared(2, 1));
    assert!(!is_spared(usize::MAX, u32::MAX));
}

fn columns(walkers: &[FloorMaker]) -> Vec<u32> {
    walkers.iter().map(|walker| walker.x).collect()
}

#[test]
fn cull_by_given_draws() {
    // Five walkers: each stays if its draw falls below 50.
    let walkers: Vec<FloorMaker> = (0..5).map(stepped).collect();
    assert_eq!(columns(&cull_with(walkers, &vec![0, 49, 50, 99, 10])), vec![0, 1, 4]);
    let walkers: Vec<FloorMaker> = (0..5).map(stepped).collect();
    assert_eq!(columns(&cull_with(walkers, &vec![0, 0, 0, 0, 0])), vec![0, 1, 2, 3, 4]);
}

#[test]
fn cull_by_given_draws_spares_the_last_one_left() {
    let walkers: Vec<FloorMaker> = (0..5).map(stepped).collect();
    assert_eq!(columns(&cull_with(walkers, &vec![99, 99, 99, 99, 99])), vec![4]);
    let walkers: Vec<FloorMaker> = (0..5).map(stepped).collect();
    assert_eq!(columns(&cull_with(walkers, &vec![50, 60, 70, 80, 0])), vec![4]);
    // Two walkers stay with a chance of 80: the second is the last left.
    let walkers: Vec<FloorMaker> = (0..2).map(stepped).collect();
    assert_eq!(columns(&cull_with(walkers, &vec![80, 99])), vec![1]);
    let walkers: Vec<FloorMaker> = (0..2).map(stepped).collect();
    assert_eq!(columns(&cull_with(walkers, &vec![79, 80])), vec![0]);
}

#[test]
fn cull_by_given_draws_spares_fresh_walkers() {
    let mut walkers: Vec<FloorMaker> = (0..4).map(stepped).collect();
    walkers[1].step_count = 0;
    walkers[3].step_count = 0;
    assert_eq!(columns(&cull_with(walkers, &vec![99, 99, 99, 99])), vec![1, 3]);
}

#[test]
fn cull_by_given_draws_of_many_walkers() {
    // From ten walkers on nobody stays by a draw.
    let walkers: Vec<FloorMaker> = (0..10).map(stepped).collect();
    assert_eq!(columns(&cull_with(walkers, &vec![0; 10])), vec![9]);
    let walkers: Vec<FloorMaker> = (0..9).map(stepped).collect();
    assert_eq!(columns(&cull_with(walkers, &vec![9, 10, 9, 10, 9, 10, 9, 10, 10])), vec![0, 2, 4, 6]);
}

#[test]
fn cull_by_given_draws_of_few_walkers() {
    assert!(cull_with(Vec::new(), &Vec::new()).is_empty());
    assert_eq!(columns(&cull_with(vec![stepped(7)], &vec![99])), vec![7]);
    assert_eq!(columns(&cull_with(vec![stepped(7)], &vec![99, 1, 2])), vec![7]);
}
