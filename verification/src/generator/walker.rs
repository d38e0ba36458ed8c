//! The walker: a position, a facing and the habit of turning.

use super::direction::{Direction, TurnType};
use super::policy::{turn_table, TurnChanceConfig};
use vstd::prelude::*;

verus! {

/// Where a walker at `(x, y)` stands after one step in `direction` on a grid
/// of `width` by `height` cells: on the neighbouring cell if that lies
/// inside the grid, else where it stood. The edge of the grid is a wall.
pub open spec fn destination(x: int, y: int, direction: Direction, width: int, height: int) -> (
    int,
    int,
) {
    let nx = x + direction.offset().0;
    let ny = y + direction.offset().1;
    if 0 <= nx < width && 0 <= ny < height {
        (nx, ny)
    } else {
        (x, y)
    }
}

/// A walker that carves floor where it steps.
pub struct FloorMaker {
    pub x: u32,
    pub y: u32,
    pub direction: Direction,
    pub turn_chance_config: TurnChanceConfig,
    pub step_count: u32,
}

impl FloorMaker {
    /// The walker after it has turned by `turn` and then stepped, on a grid
    /// of `width` by `height` cells. The count of steps stops at the
    /// largest number it can hold.
    pub open spec fn advanced(self, turn: TurnType, width: int, height: int) -> FloorMaker {
        let direction = self.direction.turned(turn);
        let to = destination(self.x as int, self.y as int, direction, width, height);
        FloorMaker {
            x: to.0 as u32,
            y: to.1 as u32,
            direction,
            turn_chance_config: self.turn_chance_config,
            step_count: if self.step_count < u32::MAX {
                (self.step_count + 1) as u32
            } else {
                self.step_count
            },
        }
    }

    /// A walker at `(x, y)` that faces `direction`, has taken no step yet,
    /// and turns left, right and around with ten percent each.
    pub fn with_direction(x: u32, y: u32, direction: Direction) -> (walker: FloorMaker)
        ensures
            walker.x == x,
            walker.y == y,
            walker.direction == direction,
            walker.step_count == 0,
            walker.turn_chance_config@ == turn_table(10, 10, 10),
    {
        FloorMaker {
            x,
            y,
            direction,
            turn_chance_config: TurnChanceConfig::new(10, 10, 10).unwrap(),
            step_count: 0,
        }
    }

    /// A walker at `(x, y)` that faces a direction drawn at random, has
    /// taken no step yet, and turns left, right and around with ten percent
    /// each.
    pub fn new(x: u32, y: u32) -> (walker: FloorMaker)
        ensures
            walker.x == x,
            walker.y == y,
            walker.step_count == 0,
            walker.turn_chance_config@ == turn_table(10, 10, 10),
    {
        FloorMaker::with_direction(x, y, Direction::random())
    }

    /// Turns by `turn`, then steps one cell in the new facing unless that
    /// would leave the grid of `width` by `height` cells.
    pub fn advance(&mut self, turn: TurnType, width: u32, height: u32)
        ensures
            *final(self) == old(self).advanced(turn, width as int, height as int),
    {
        self.direction = self.direction.turn(turn);
        match self.direction {
            Direction::Up => {
                if self.y > 0 && self.y - 1 < height && self.x < width {
                    self.y -= 1;
                }
            },
            Direction::Down => {
                if self.y < u32::MAX && self.y + 1 < height && self.x < width {
                    self.y += 1;
                }
            },
            Direction::Left => {
                if self.x > 0 && self.x - 1 < width && self.y < height {
                    self.x -= 1;
                }
            },
            Direction::Right => {
                if self.x < u32::MAX && self.x + 1 < width && self.y < height {
                    self.x += 1;
                }
            },
        }
        if self.step_count < u32::MAX {
            self.step_count += 1;
        }
    }

    /// Draws a turn from the walker's policy and advances by it.
    pub fn step(&mut self, width: u32, height: u32)
        ensures
            exists|i: int|
                0 <= i < 100 && *final(self) == old(self).advanced(
                    #[trigger] old(self).turn_chance_config@[i],
                    width as int,
                    height as int,
                ),
    {
        let turn_type = self.turn_chance_config.random_turn();
        self.advance(turn_type, width, height);
    }
}

} // verus!
