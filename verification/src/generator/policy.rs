//! Weighted tables from which a walker draws its turns and its rooms.

use crate::chance::sample_range;
use super::direction::TurnType;
use vstd::prelude::*;

verus! {

/// Why a policy could not be built.
#[derive(Clone, Copy, Debug, PartialEq, Eq, Structural)]
pub enum PolicyError {
    /// The weights add up to more than 100.
    WeightsAboveHundred,
}

/// The number of slots of a policy table; a weight is a number of slots.
pub const TABLE_SIZE: usize = 100;

/// The table of a turn policy: `left` slots of left turns, then `right`
/// slots of right turns, then `u` slots of u-turns, and straight on in
/// whatever is left of the 100 slots.
pub open spec fn turn_table(left: nat, right: nat, u: nat) -> Seq<TurnType> {
    Seq::new(
        100,
        |i: int|
            if i < left {
                TurnType::Left
            } else if i < left + right {
                TurnType::Right
            } else if i < left + right + u {
                TurnType::UTurn
            } else {
                TurnType::Straight
            },
    )
}

/// How likely a walker is to turn left, right or around before a step.
pub struct TurnChanceConfig {
    turns: Vec<TurnType>,
}

impl View for TurnChanceConfig {
    type V = Seq<TurnType>;

    closed spec fn view(&self) -> Seq<TurnType> {
        self.turns@
    }
}

impl TurnChanceConfig {
    #[verifier::type_invariant]
    pub open spec fn inv(&self) -> bool {
        self@.len() == 100
    }

    /// The policy with the given weights in percent, if they add up to no
    /// more than 100.
    pub fn new(left: u32, right: u32, u: u32) -> (r: Result<TurnChanceConfig, PolicyError>)
        ensures
            left + right + u <= 100 ==> r is Ok && r->Ok_0@ == turn_table(
                left as nat,
                right as nat,
                u as nat,
            ),
            left + right + u > 100 ==> r == Err::<TurnChanceConfig, PolicyError>(
                PolicyError::WeightsAboveHundred,
            ),
    {
        if left as u64 + right as u64 + u as u64 > 100 {
            return Err(PolicyError::WeightsAboveHundred);
        }
        let mut turns: Vec<TurnType> = Vec::new();
        let mut index: u32 = 0;
        while index < 100
            invariant
                index <= 100,
                left + right + u <= 100,
                turns@.len() == index,
                forall|i: int|
                    0 <= i < index ==> turns@[i] == turn_table(
                        left as nat,
                        right as nat,
                        u as nat,
                    )[i],
            decreases 100 - index,
        {
            let turn = if index < left {
                TurnType::Left
            } else if index < left + right {
                TurnType::Right
            } else if index < left + right + u {
                TurnType::UTurn
            } else {
                TurnType::Straight
            };
            turns.push(turn);
            index += 1;
        }
        assert(turns@ =~= turn_table(left as nat, right as nat, u as nat));
        Ok(TurnChanceConfig { turns })
    }

    /// The turn in the given slot of the table.
    pub fn turn_at(&self, index: usize) -> (turn: TurnType)
        requires
            index < 100,
        ensures
            self@.len() == 100,
            turn == self@[index as int],
    {
        proof {
            use_type_invariant(self);
        }
        self.turns[index]
    }

    /// A turn drawn from the table, every slot being as likely as any other.
    pub fn random_turn(&self) -> (turn: TurnType)
        ensures
            self@.len() == 100,
            exists|i: int| 0 <= i < 100 && turn == #[trigger] self@[i],
    {
        let index = sample_range(0, TABLE_SIZE);
        self.turn_at(index)
    }
}

/// The room that a walker stamps where it has carved.
#[derive(Clone, Copy, Debug, PartialEq, Eq, Structural)]
pub enum RoomType {
    NoRoom,
    TwoByTwo,
    ThreeByThree,
}

impl RoomType {
    /// The length in cells of a side of the room.
    pub open spec fn spec_side(self) -> nat {
        match self {
            RoomType::NoRoom => 0,
            RoomType::TwoByTwo => 2,
            RoomType::ThreeByThree => 3,
        }
    }

    /// The length in cells of a side of the room.
    pub fn side(self) -> (s: u32)
        ensures
            s == self.spec_side(),
    {
        match self {
            RoomType::NoRoom => 0,
            RoomType::TwoByTwo => 2,
            RoomType::ThreeByThree => 3,
        }
    }
}

/// The table of a room policy: `two_by_two` slots of the smaller room, then
/// `three_by_three` slots of the larger, and no room in whatever is left of
/// the 100 slots.
pub open spec fn room_table(two_by_two: nat, three_by_three: nat) -> Seq<RoomType> {
    Seq::new(
        100,
        |i: int|
            if i < two_by_two {
                RoomType::TwoByTwo
            } else if i < two_by_two + three_by_three {
                RoomType::ThreeByThree
            } else {
                RoomType::NoRoom
            },
    )
}

/// How likely a walker is to stamp a room where it has carved.
pub struct MakeRoomConfig {
    rooms: Vec<RoomType>,
}

impl View for MakeRoomConfig {
    type V = Seq<RoomType>;

    closed spec fn view(&self) -> Seq<RoomType> {
        self.rooms@
    }
}

impl MakeRoomConfig {
    #[verifier::type_invariant]
    pub open spec fn inv(&self) -> bool {
        self@.len() == 100
    }

    /// The policy with the given weights in percent, if they add up to no
    /// more than 100.
    pub fn new(two_by_two: u32, three_by_three: u32) -> (r: Result<MakeRoomConfig, PolicyError>)
        ensures
            two_by_two + three_by_three <= 100 ==> r is Ok && r->Ok_0@ == room_table(
                two_by_two as nat,
                three_by_three as nat,
            ),
            two_by_two + three_by_three > 100 ==> r == Err::<MakeRoomConfig, PolicyError>(
                PolicyError::WeightsAboveHundred,
            ),
    {
        if two_by_two as u64 + three_by_three as u64 > 100 {
            return Err(PolicyError::WeightsAboveHundred);
        }
        let mut rooms: Vec<RoomType> = Vec::new();
        let mut index: u32 = 0;
        while index < 100
            invariant
                index <= 100,
                two_by_two + three_by_three <= 100,
                rooms@.len() == index,
                forall|i: int|
                    0 <= i < index ==> rooms@[i] == room_table(
                        two_by_two as nat,
                        three_by_three as nat,
                    )[i],
            decreases 100 - index,
        {
            let room = if index < two_by_two {
                RoomType::TwoByTwo
            } else if index < two_by_two + three_by_three {
                RoomType::ThreeByThree
            } else {
                RoomType::NoRoom
            };
            rooms.push(room);
            index += 1;
        }
        assert(rooms@ =~= room_table(two_by_two as nat, three_by_three as nat));
        Ok(MakeRoomConfig { rooms })
    }

    /// The room in the given slot of the table.
    pub fn room_type_at(&self, index: usize) -> (room: RoomType)
        requires
            index < 100,
        ensures
            self@.len() == 100,
            room == self@[index as int],
    {
        proof {
            use_type_invariant(self);
        }
        self.rooms[index]
    }

    /// A room drawn from the table, every slot being as likely as any other.
    pub fn random_room_type(&self) -> (room: RoomType)
        ensures
            self@.len() == 100,
            exists|i: int| 0 <= i < 100 && room == #[trigger] self@[i],
    {
        let index = sample_range(0, TABLE_SIZE);
        self.room_type_at(index)
    }
}

} // verus!
