use vstd::prelude::*;

use crate::state::{build_spec, State, StateError};
use crate::world::World;

verus! {

/// The attribute of a state that a rule set learns about.
#[derive(Clone, Copy, Debug, PartialEq, Eq, Structural)]
pub enum Attribute {
    TaxiX,
    TaxiY,
    Passenger,
}

/// An observed change of one attribute.
#[derive(Clone, Copy, Debug, PartialEq, Eq, Structural)]
pub enum Effect {
    /// The taxi's column changed by this much.
    ChangeTaxiX(i64),
    /// The taxi's row changed by this much.
    ChangeTaxiY(i64),
    /// The passenger's location became this one (`None`: in the taxi).
    ChangePassenger(Option<char>),
}

/// The change of `attribute` from `old` to `new`, or `None` where it did not change.
pub open spec fn generate_spec(attribute: Attribute, old: State, new: State) -> Option<Effect> {
    match attribute {
        Attribute::TaxiX => if new.taxi.x != old.taxi.x {
            Some(Effect::ChangeTaxiX((new.taxi.x - old.taxi.x) as i64))
        } else {
            None
        },
        Attribute::TaxiY => if new.taxi.y != old.taxi.y {
            Some(Effect::ChangeTaxiY((new.taxi.y - old.taxi.y) as i64))
        } else {
            None
        },
        Attribute::Passenger => if new.passenger != old.passenger {
            Some(Effect::ChangePassenger(new.passenger))
        } else {
            None
        },
    }
}

/// `v` held to the range of `i64`.
pub open spec fn clamp_i64(v: int) -> i64 {
    if v > i64::MAX {
        i64::MAX
    } else if v < i64::MIN {
        i64::MIN
    } else {
        v as i64
    }
}

/// The state that effect `e` makes of `s`, built and checked in world `w`.
pub open spec fn apply_spec(e: Effect, w: crate::world::WorldView, s: State) -> Result<State, StateError> {
    match e {
        Effect::ChangeTaxiX(d) => build_spec(
            w,
            clamp_i64(s.taxi.x + d),
            s.taxi.y as i64,
            s.passenger,
            s.destination,
        ),
        Effect::ChangeTaxiY(d) => build_spec(
            w,
            s.taxi.x as i64,
            clamp_i64(s.taxi.y + d),
            s.passenger,
            s.destination,
        ),
        Effect::ChangePassenger(p) => build_spec(
            w,
            s.taxi.x as i64,
            s.taxi.y as i64,
            p,
            s.destination,
        ),
    }
}

fn add_clamped(a: i32, d: i64) -> (r: i64)
    ensures
        r == clamp_i64(a + d),
{
    let v = a as i128 + d as i128;
    if v > i64::MAX as i128 {
        i64::MAX
    } else if v < i64::MIN as i128 {
        i64::MIN
    } else {
        v as i64
    }
}

impl Effect {
    /// Classifies the transition from `old_state` to `new_state` for `attribute`.
    pub fn generate_effects(attribute: Attribute, old_state: &State, new_state: &State) -> (r:
        Option<Effect>)
        ensures
            r == generate_spec(attribute, *old_state, *new_state),
    {
        match attribute {
            Attribute::TaxiX => if new_state.taxi.x != old_state.taxi.x {
                Some(Effect::ChangeTaxiX(new_state.taxi.x as i64 - old_state.taxi.x as i64))
            } else {
                None
            },
            Attribute::TaxiY => if new_state.taxi.y != old_state.taxi.y {
                Some(Effect::ChangeTaxiY(new_state.taxi.y as i64 - old_state.taxi.y as i64))
            } else {
                None
            },
            Attribute::Passenger => if new_state.passenger != old_state.passenger {
                Some(Effect::ChangePassenger(new_state.passenger))
            } else {
                None
            },
        }
    }

    /// The state that this effect makes of `state`, or why it is not a state of `world`.
    pub fn apply(&self, world: &World, state: &State) -> (r: Result<State, StateError>)
        ensures
            r == apply_spec(*self, world@, *state),
    {
        match *self {
            Effect::ChangeTaxiX(d) => State::build_at(
                world,
                add_clamped(state.taxi.x, d),
                state.taxi.y as i64,
                state.passenger,
                state.destination,
            ),
            Effect::ChangeTaxiY(d) => State::build_at(
                world,
                state.taxi.x as i64,
                add_clamped(state.taxi.y, d),
                state.passenger,
                state.destination,
            ),
            Effect::ChangePassenger(p) => State::build_at(
                world,
                state.taxi.x as i64,
                state.taxi.y as i64,
                p,
                state.destination,
            ),
        }
    }
}

} // verus!
