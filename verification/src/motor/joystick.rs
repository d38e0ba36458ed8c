//! The game controllers that are plugged in.

use vstd::prelude::*;

verus! {

/// A game controller that has been opened: its number, its name and the
/// handle `C` through which it is read.
pub struct Controller<C> {
    pub id: i32,
    pub name: String,
    pub game_controller: C,
}

/// What happened to a game controller, as far as the list of controllers
/// cares.
#[derive(Clone, Copy, Debug, PartialEq, Eq, Structural)]
pub enum ControllerEvent {
    /// The device with the number `which` was plugged in.
    DeviceAdded { which: i32 },
    /// The device with the number `which` was unplugged.
    DeviceRemoved { which: i32 },
    DeviceRemapped,
    AxisMotion,
    ButtonDown,
    ButtonUp,
}

/// What the owner of the list is to do about an event.
#[derive(Clone, Copy, Debug, PartialEq, Eq, Structural)]
pub enum ControllerAction {
    /// Open the device with this number and add it.
    Open { id: i32 },
    /// Remove the controller with this number.
    Close { id: i32 },
    Nothing,
}

/// The controllers that have been added, in the order in which they came.
pub struct MotorJoystick<C> {
    controllers: Vec<Controller<C>>,
}

/// The first place in `controllers` at which the number `id` stands, or
/// their count if it stands nowhere.
pub open spec fn position_of<C>(controllers: Seq<Controller<C>>, id: i32) -> int
    decreases controllers.len(),
{
    if controllers.len() == 0 {
        0
    } else if controllers[0].id == id {
        0
    } else {
        1 + position_of(controllers.skip(1), id)
    }
}

/// The place found is the first at which the number stands.
pub proof fn lemma_position_of<C>(controllers: Seq<Controller<C>>, id: i32)
    ensures
        0 <= position_of(controllers, id) <= controllers.len(),
        position_of(controllers, id) < controllers.len() ==> controllers[position_of(
            controllers,
            id,
        )].id == id,
        forall|i: int| 0 <= i < position_of(controllers, id) ==> controllers[i].id != id,
    decreases controllers.len(),
{
    if controllers.len() > 0 && controllers[0].id != id {
        let rest = controllers.skip(1);
        lemma_position_of(rest, id);
        assert forall|i: int| 0 <= i < position_of(controllers, id) implies controllers[i].id
            != id by {
            if i > 0 {
                assert(rest[i - 1] == controllers[i]);
            }
        }
    }
}

impl<C> View for MotorJoystick<C> {
    type V = Seq<Controller<C>>;

    closed spec fn view(&self) -> Seq<Controller<C>> {
        self.controllers@
    }
}

impl<C> MotorJoystick<C> {
    /// No controllers.
    pub fn new() -> (joystick: MotorJoystick<C>)
        ensures
            joystick@.len() == 0,
    {
        MotorJoystick { controllers: Vec::new() }
    }

    /// The number of the controller that was added first, if there is
    /// one.
    pub fn get_controller_id(&self) -> (id: Option<i32>)
        ensures
            id == if self@.len() > 0 {
                Some(self@[0].id)
            } else {
                None
            },
    {
        if self.controllers.len() > 0 {
            return Some(self.controllers[0].id);
        }
        None
    }

    /// The place of the first controller with the number `id`.
    fn find(&self, id: i32) -> (index: usize)
        ensures
            index == position_of(self@, id),
            index <= self@.len(),
    {
        let count = self.controllers.len();
        let mut index: usize = 0;
        proof {
            lemma_position_of(self@, id);
        }
        while index < count && self.controllers[index].id != id
            invariant
                index <= count,
                count == self@.len(),
                forall|i: int| 0 <= i < index ==> self@[i].id != id,
            decreases count - index,
        {
            index += 1;
        }
        proof {
            let found = position_of(self@, id);
            if found < index {
                assert(self@[found].id == id);
            }
            if index < found {
                assert(self@[index as int].id != id);
            }
        }
        index
    }

    /// The first controller with the number `id`, if there is one.
    pub fn get_controller(&self, id: i32) -> (controller: Option<&Controller<C>>)
        ensures
            controller == if position_of(self@, id) < self@.len() {
                Some(&self@[position_of(self@, id)])
            } else {
                None
            },
    {
        let index = self.find(id);
        if index < self.controllers.len() {
            Some(&self.controllers[index])
        } else {
            None
        }
    }

    /// Adds a controller behind the others.
    pub fn add_controller(&mut self, controller: Controller<C>)
        ensures
            final(self)@ == old(self)@.push(controller),
    {
        self.controllers.push(controller);
    }

    /// Takes the first controller with the number `id` out of the list and
    /// returns it; the others keep their order.
    pub fn remove_controller(&mut self, id: i32) -> (removed: Option<Controller<C>>)
        ensures
            position_of(old(self)@, id) < old(self)@.len() ==> removed == Some(
                old(self)@[position_of(old(self)@, id)],
            ) && final(self)@ == old(self)@.remove(position_of(old(self)@, id)),
            position_of(old(self)@, id) >= old(self)@.len() ==> removed is None && final(self)@
                == old(self)@,
    {
        let index = self.find(id);
        if index < self.controllers.len() {
            Some(self.controllers.remove(index))
        } else {
            None
        }
    }

    /// What is to be done about an event: a device that was plugged in is
    /// to be opened and added, one that was unplugged is to be removed.
    pub fn handle_event(event: ControllerEvent) -> (action: ControllerAction)
        ensures
            action == match event {
                ControllerEvent::DeviceAdded { which } => ControllerAction::Open { id: which },
                ControllerEvent::DeviceRemoved { which } => ControllerAction::Close { id: which },
                _ => ControllerAction::Nothing,
            },
    {
        match event {
            ControllerEvent::DeviceAdded { which } => ControllerAction::Open { id: which },
            ControllerEvent::DeviceRemoved { which } => ControllerAction::Close { id: which },
            _ => ControllerAction::Nothing,
        }
    }
}

} // verus!
