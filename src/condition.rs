use vstd::prelude::*;

use crate::actions::Actions;
use crate::state::{blocked, on_destination, on_passenger, passenger_at_destination, State};
use crate::world::{in_bounds, World, WorldView};

verus! {

/// Number of literals in a condition.
pub const NUM_LITERALS: usize = 8;

/// An immutable snapshot of the boolean literals that describe one (world, state) context.
#[derive(Clone, Copy, Debug)]
pub struct Condition {
    pub literals: [bool; NUM_LITERALS],
}

impl View for Condition {
    type V = Seq<bool>;

    open spec fn view(&self) -> Seq<bool> {
        self.literals@
    }
}

/// The literals of a state, in this order: the taxi is blocked to the north, south, east and
/// west; it stands on the waiting passenger; it stands on the destination; the passenger rides
/// in it; the passenger is at the destination.
pub open spec fn condition_spec(w: WorldView, s: State) -> Seq<bool> {
    seq![
        blocked(w, s.taxi, Actions::North),
        blocked(w, s.taxi, Actions::South),
        blocked(w, s.taxi, Actions::East),
        blocked(w, s.taxi, Actions::West),
        on_passenger(w, s),
        on_destination(w, s),
        s.passenger is None,
        passenger_at_destination(w, s),
    ]
}

impl Condition {
    /// The literals of `state` in `world`.
    pub fn new(world: &World, state: &State) -> (r: Condition)
        requires
            in_bounds(world@, state.taxi.x as int, state.taxi.y as int),
        ensures
            r@ == condition_spec(world@, *state),
    {
        let literals = [
            state.is_blocked(world, Actions::North),
            state.is_blocked(world, Actions::South),
            state.is_blocked(world, Actions::East),
            state.is_blocked(world, Actions::West),
            state.on_passenger(world),
            state.on_destination(world),
            state.passenger.is_none(),
            state.passenger_at_destination(world),
        ];
        let r = Condition { literals };
        assert(r@ == condition_spec(world@, *state));
        r
    }

    pub fn from_literals(literals: [bool; NUM_LITERALS]) -> (r: Condition)
        ensures
            r@ == literals@,
    {
        Condition { literals }
    }

    /// The value of literal `i`.
    pub fn literal(&self, i: usize) -> (r: bool)
        requires
            i < NUM_LITERALS,
        ensures
            r == self@[i as int],
    {
        self.literals[i]
    }
}

} // verus!
