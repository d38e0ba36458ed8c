//! Facings and the turns between them.

use crate::chance::sample_range;
use vstd::prelude::*;

verus! {

/// The way a walker faces. `Up` is towards lower rows, `Left` towards
/// lower columns.
#[derive(Clone, Copy, Debug, PartialEq, Eq, Structural, Hash)]
pub enum Direction {
    Up,
    Down,
    Left,
    Right,
}

/// What a walker does with its facing before it steps.
#[derive(Clone, Copy, Debug, PartialEq, Eq, Structural)]
pub enum TurnType {
    Straight,
    Left,
    Right,
    UTurn,
}

impl TurnType {
    /// The turn as a number of quarter turns to the right.
    pub open spec fn quarters(self) -> int {
        match self {
            TurnType::Straight => 0,
            TurnType::Right => 1,
            TurnType::UTurn => 2,
            TurnType::Left => 3,
        }
    }
}

impl Direction {
    /// The facing as a number of quarter turns to the right of `Up`.
    pub open spec fn quarters(self) -> int {
        match self {
            Direction::Up => 0,
            Direction::Right => 1,
            Direction::Down => 2,
            Direction::Left => 3,
        }
    }

    /// The facing that lies `quarters` quarter turns to the right of `Up`.
    pub open spec fn from_quarters(quarters: int) -> Direction {
        let q = quarters % 4;
        if q == 0 {
            Direction::Up
        } else if q == 1 {
            Direction::Right
        } else if q == 2 {
            Direction::Down
        } else {
            Direction::Left
        }
    }

    /// Turning adds quarter turns, counted modulo four.
    pub open spec fn turned(self, turn_type: TurnType) -> Direction {
        Direction::from_quarters(self.quarters() + turn_type.quarters())
    }

    /// The column and row offsets of one step in this facing.
    pub open spec fn offset(self) -> (int, int) {
        match self {
            Direction::Up => (0, -1),
            Direction::Down => (0, 1),
            Direction::Left => (-1, 0),
            Direction::Right => (1, 0),
        }
    }

    /// The facing after a turn.
    pub fn turn(&self, turn_type: TurnType) -> (d: Direction)
        ensures
            d == self.turned(turn_type),
    {
        match *self {
            Direction::Up => {
                match turn_type {
                    TurnType::Left => Direction::Left,
                    TurnType::Right => Direction::Right,
                    TurnType::UTurn => Direction::Down,
                    TurnType::Straight => Direction::Up,
                }
            },
            Direction::Down => {
                match turn_type {
                    TurnType::Left => Direction::Right,
                    TurnType::Right => Direction::Left,
                    TurnType::UTurn => Direction::Up,
                    TurnType::Straight => Direction::Down,
                }
            },
            Direction::Left => {
                match turn_type {
                    TurnType::Left => Direction::Down,
                    TurnType::Right => Direction::Up,
                    TurnType::UTurn => Direction::Right,
                    TurnType::Straight => Direction::Left,
                }
            },
            Direction::Right => {
                match turn_type {
                    TurnType::Left => Direction::Up,
                    TurnType::Right => Direction::Down,
                    TurnType::UTurn => Direction::Left,
                    TurnType::Straight => Direction::Right,
                }
            },
        }
    }

    /// The facing with the given index, in the order of the declaration;
    /// indices are taken modulo four.
    pub fn from_index(index: usize) -> (d: Direction)
        ensures
            d == Direction::indexed(index as int),
    {
        let i: usize = index % 4;
        if i == 0 {
            Direction::Up
        } else if i == 1 {
            Direction::Down
        } else if i == 2 {
            Direction::Left
        } else {
            Direction::Right
        }
    }

    /// A facing drawn at random, each being as likely as any other.
    pub fn random() -> Direction {
        Direction::from_index(sample_range(0, 4))
    }

    /// The facing with the given index, in the order of the declaration;
    /// indices are taken modulo four.
    pub open spec fn indexed(index: int) -> Direction {
        let i = index % 4;
        if i == 0 {
            Direction::Up
        } else if i == 1 {
            Direction::Down
        } else if i == 2 {
            Direction::Left
        } else {
            Direction::Right
        }
    }
}

/// Turns compose by adding their quarter turns: two turns in a row lead to
/// the facing that lies their sum of quarter turns to the right.
pub proof fn lemma_turns_compose(d: Direction, first: TurnType, second: TurnType)
    ensures
        d.turned(first).turned(second) == Direction::from_quarters(
            d.quarters() + first.quarters() + second.quarters(),
        ),
{
}

/// Four left turns in a row lead back to the facing they started from.
pub proof fn lemma_four_lefts(d: Direction)
    ensures
        d.turned(TurnType::Left).turned(TurnType::Left).turned(TurnType::Left).turned(
            TurnType::Left,
        ) == d,
{
}

/// Two u-turns in a row lead back to the facing they started from.
pub proof fn lemma_two_uturns(d: Direction)
    ensures
        d.turned(TurnType::UTurn).turned(TurnType::UTurn) == d,
{
}

} // verus!
