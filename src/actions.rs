use vstd::prelude::*;

verus! {

/// The primitive actions of the taxi.
#[derive(Clone, Copy, Debug, PartialEq, Eq, Structural)]
pub enum Actions {
    North,
    South,
    East,
    West,
    PickUp,
    DropOff,
}

/// Number of actions; each has an index below it.
pub const NUM_ACTIONS: usize = 6;

/// The index of an action.
pub open spec fn action_index(a: Actions) -> nat {
    match a {
        Actions::North => 0,
        Actions::South => 1,
        Actions::East => 2,
        Actions::West => 3,
        Actions::PickUp => 4,
        Actions::DropOff => 5,
    }
}

impl Actions {
    pub fn to_index(&self) -> (r: usize)
        ensures
            r == action_index(*self),
            r < NUM_ACTIONS,
    {
        match self {
            Actions::North => 0,
            Actions::South => 1,
            Actions::East => 2,
            Actions::West => 3,
            Actions::PickUp => 4,
            Actions::DropOff => 5,
        }
    }

    pub fn from_index(index: usize) -> (r: Option<Actions>)
        ensures
            index < NUM_ACTIONS <==> r is Some,
            r matches Some(a) ==> action_index(a) == index,
    {
        match index {
            0 => Some(Actions::North),
            1 => Some(Actions::South),
            2 => Some(Actions::East),
            3 => Some(Actions::West),
            4 => Some(Actions::PickUp),
            5 => Some(Actions::DropOff),
            _ => None,
        }
    }
}

} // verus!
