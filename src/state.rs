use vstd::prelude::*;

use crate::actions::Actions;
use crate::position::Position;
use crate::text::push_char;
use crate::world::{
    fixed_position, height_of, in_bounds, is_fixed_id, lemma_mod_step, wall_east, wall_north,
    wall_south, wall_west, width_of, World, WorldView,
};

verus! {

/// Why a state could not be built in a world.
#[derive(Clone, Copy, Debug, PartialEq, Eq, Structural)]
pub enum StateError {
    /// The taxi would stand outside the grid.
    InvalidTaxi(i64, i64),
    /// The passenger waits at a fixed position that the grid does not name.
    InvalidPassenger(char),
    /// The destination is not a fixed position of the grid.
    InvalidDestination(char),
}

/// Where the taxi is, where the passenger waits (`None` while riding in the taxi), and where
/// the passenger wants to go.
#[derive(Clone, Copy, Debug, PartialEq, Eq, Structural)]
pub struct State {
    pub taxi: Position,
    pub passenger: Option<char>,
    pub destination: char,
}

/// The state that `State::build` makes of these values, or the first reason it refuses them.
pub open spec fn build_spec(
    w: WorldView,
    x: i64,
    y: i64,
    passenger: Option<char>,
    destination: char,
) -> Result<State, StateError> {
    if !in_bounds(w, x as int, y as int) {
        Err(StateError::InvalidTaxi(x, y))
    } else if passenger is Some && fixed_position(w, passenger->0) is None {
        Err(StateError::InvalidPassenger(passenger->0))
    } else if fixed_position(w, destination) is None {
        Err(StateError::InvalidDestination(destination))
    } else {
        Ok(State { taxi: Position { x: x as i32, y: y as i32 }, passenger, destination })
    }
}

/// The taxi cannot leave `p` in the direction of `a`: a wall or the edge of the grid is there.
/// Only the four moves have a direction.
pub open spec fn blocked(w: WorldView, p: Position, a: Actions) -> bool {
    let x = p.x as int;
    let y = p.y as int;
    match a {
        Actions::North => y == 0 || wall_north(w, x, y),
        Actions::South => y + 1 >= height_of(w) || wall_south(w, x, y),
        Actions::East => x + 1 >= width_of(w) || wall_east(w, x, y),
        Actions::West => x == 0 || wall_west(w, x, y),
        _ => true,
    }
}

/// Where the taxi ends up after action `a` from `p`.
pub open spec fn moved(w: WorldView, p: Position, a: Actions) -> Position {
    if blocked(w, p, a) {
        p
    } else {
        match a {
            Actions::North => Position { x: p.x, y: (p.y - 1) as i32 },
            Actions::South => Position { x: p.x, y: (p.y + 1) as i32 },
            Actions::East => Position { x: (p.x + 1) as i32, y: p.y },
            Actions::West => Position { x: (p.x - 1) as i32, y: p.y },
            _ => p,
        }
    }
}

/// The taxi stands where the passenger waits.
pub open spec fn on_passenger(w: WorldView, s: State) -> bool {
    s.passenger is Some && fixed_position(w, s.passenger->0) == Some(s.taxi)
}

/// The taxi stands on the destination.
pub open spec fn on_destination(w: WorldView, s: State) -> bool {
    fixed_position(w, s.destination) == Some(s.taxi)
}

/// The passenger is at the destination: riding in a taxi that stands there, or waiting there.
pub open spec fn passenger_at_destination(w: WorldView, s: State) -> bool {
    match s.passenger {
        None => on_destination(w, s),
        Some(c) => c == s.destination,
    }
}

/// The reward and the next state of one action.
pub open spec fn step_spec(w: WorldView, s: State, a: Actions) -> (i64, State) {
    match a {
        Actions::PickUp => if on_passenger(w, s) {
            (0, State { passenger: None, ..s })
        } else {
            ((-(w.costs.miss_pickup as int)) as i64, s)
        },
        Actions::DropOff => if s.passenger is None && on_destination(w, s) {
            (0, State { passenger: Some(s.destination), ..s })
        } else {
            ((-(w.costs.miss_dropoff as int)) as i64, s)
        },
        _ => ((-(w.costs.movement as int)) as i64, State { taxi: moved(w, s.taxi, a), ..s }),
    }
}

/// What the text form of a state shows at index `k` of the grid's text. A cell shows `p` where
/// the passenger waits, else `d` on the destination, else the taxi (`T` with the passenger in it,
/// `t` without); other fixed positions show as `.`. Walls and empty cells show as in the grid.
pub open spec fn display_char(w: WorldView, s: State, k: int) -> char {
    let l = w.line_len as int;
    let line = k / (l + 1);
    let col = k % (l + 1);
    let t = w.text[k];
    if line % 2 == 1 && col % 2 == 1 && col < l {
        let p = Position { x: (col / 2) as i32, y: (line / 2) as i32 };
        if s.passenger is Some && fixed_position(w, s.passenger->0) == Some(p) {
            'p'
        } else if fixed_position(w, s.destination) == Some(p) {
            'd'
        } else if s.taxi == p {
            if s.passenger is None {
                'T'
            } else {
                't'
            }
        } else if is_fixed_id(t) {
            '.'
        } else {
            t
        }
    } else {
        t
    }
}

pub open spec fn display_spec(w: WorldView, s: State) -> Seq<char> {
    Seq::new(w.text.len(), |k: int| display_char(w, s, k))
}

fn same_position(a: Option<Position>, p: Position) -> (r: bool)
    ensures
        r == (a == Some(p)),
{
    match a {
        Some(q) => q == p,
        None => false,
    }
}

impl State {
    /// The grid's text with this state drawn in it.
    pub fn display(&self, world: &World) -> (r: String)
        ensures
            r@ == display_spec(world@, *self),
    {
        let n = world.text_len();
        let l = world.line_len();
        let passenger_pos = match self.passenger {
            Some(c) => world.get_fixed_position(c),
            None => None,
        };
        let destination_pos = world.get_fixed_position(self.destination);
        let ghost spec = display_spec(world@, *self);
        let mut out = String::new();
        let mut k: usize = 0;
        let mut line: usize = 0;
        let mut col: usize = 0;
        while k < n
            invariant
                k <= n,
                n == world@.text.len(),
                l == world@.line_len,
                spec == display_spec(world@, *self),
                passenger_pos == (if self.passenger is Some {
                    fixed_position(world@, self.passenger->0)
                } else {
                    None
                }),
                destination_pos == fixed_position(world@, self.destination),
                line as int == k as int / (l as int + 1),
                col as int == k as int % (l as int + 1),
                line <= k,
                out@ == spec.take(k as int),
            decreases n - k,
        {
            let t = world.text_char(k);
            let ch = if line % 2 == 1 && col % 2 == 1 && col < l {
                let p = Position { x: (col / 2) as i32, y: (line / 2) as i32 };
                if same_position(passenger_pos, p) {
                    'p'
                } else if same_position(destination_pos, p) {
                    'd'
                } else if self.taxi == p {
                    if self.passenger.is_none() {
                        'T'
                    } else {
                        't'
                    }
                } else if 'A' <= t && t <= 'Z' {
                    '.'
                } else {
                    t
                }
            } else {
                t
            };
            assert(ch == display_char(world@, *self, k as int));
            push_char(&mut out, ch);
            proof {
                lemma_mod_step(k as int, l as int + 1);
                assert(spec.take(k as int + 1) == spec.take(k as int).push(ch));
            }
            k = k + 1;
            if col == l {
                col = 0;
                line = line + 1;
            } else {
                col = col + 1;
            }
        }
        assert(spec.take(n as int) == spec);
        out
    }

    /// A state of `world`, checked against it.
    pub fn build(
        world: &World,
        taxi: (i32, i32),
        passenger: Option<char>,
        destination: char,
    ) -> (r: Result<State, StateError>)
        ensures
            r == build_spec(world@, taxi.0 as i64, taxi.1 as i64, passenger, destination),
    {
        State::build_at(world, taxi.0 as i64, taxi.1 as i64, passenger, destination)
    }

    /// A state of `world` with the taxi at (x, y), checked against it.
    pub fn build_at(
        world: &World,
        x: i64,
        y: i64,
        passenger: Option<char>,
        destination: char,
    ) -> (r: Result<State, StateError>)
        ensures
            r == build_spec(world@, x, y, passenger, destination),
    {
        let width = world.width();
        let height = world.height();
        if x < 0 || x >= width as i64 || y < 0 || y >= height as i64 {
            return Err(StateError::InvalidTaxi(x, y));
        }
        match passenger {
            Some(c) => {
                if world.get_fixed_position(c).is_none() {
                    return Err(StateError::InvalidPassenger(c));
                }
            },
            None => {},
        }
        if world.get_fixed_position(destination).is_none() {
            return Err(StateError::InvalidDestination(destination));
        }
        Ok(State { taxi: Position { x: x as i32, y: y as i32 }, passenger, destination })
    }

    pub fn get_taxi(&self) -> (r: Position)
        ensures
            r == self.taxi,
    {
        self.taxi
    }

    pub fn get_passenger(&self) -> (r: Option<char>)
        ensures
            r == self.passenger,
    {
        self.passenger
    }

    pub fn get_destination(&self) -> (r: char)
        ensures
            r == self.destination,
    {
        self.destination
    }

    /// The taxi cannot move from here in the direction of `action`.
    pub fn is_blocked(&self, world: &World, action: Actions) -> (r: bool)
        requires
            in_bounds(world@, self.taxi.x as int, self.taxi.y as int),
        ensures
            r == blocked(world@, self.taxi, action),
    {
        let wall = world.get_wall(&self.taxi);
        let x = self.taxi.x;
        let y = self.taxi.y;
        match action {
            Actions::North => y == 0 || wall.north,
            Actions::South => y as i64 + 1 >= world.height() as i64 || wall.south,
            Actions::East => x as i64 + 1 >= world.width() as i64 || wall.east,
            Actions::West => x == 0 || wall.west,
            _ => true,
        }
    }

    pub fn on_passenger(&self, world: &World) -> (r: bool)
        ensures
            r == on_passenger(world@, *self),
    {
        match self.passenger {
            Some(c) => match world.get_fixed_position(c) {
                Some(p) => p == self.taxi,
                None => false,
            },
            None => false,
        }
    }

    pub fn on_destination(&self, world: &World) -> (r: bool)
        ensures
            r == on_destination(world@, *self),
    {
        match world.get_fixed_position(self.destination) {
            Some(p) => p == self.taxi,
            None => false,
        }
    }

    /// The passenger has been delivered: it waits at its destination.
    pub fn at_destination(&self) -> (r: bool)
        ensures
            r == (self.passenger == Some(self.destination)),
    {
        match self.passenger {
            Some(c) => c == self.destination,
            None => false,
        }
    }

    pub fn passenger_at_destination(&self, world: &World) -> (r: bool)
        ensures
            r == passenger_at_destination(world@, *self),
    {
        match self.passenger {
            None => self.on_destination(world),
            Some(c) => c == self.destination,
        }
    }

    /// Takes `action` in `world`: returns its reward and the state it leads to.
    pub fn apply_action(&self, world: &World, action: Actions) -> (r: (i64, State))
        requires
            in_bounds(world@, self.taxi.x as int, self.taxi.y as int),
        ensures
            r == step_spec(world@, *self, action),
    {
        let costs = world.costs();
        match action {
            Actions::PickUp => {
                if self.on_passenger(world) {
                    (0, State { passenger: None, ..*self })
                } else {
                    (-(costs.miss_pickup as i64), *self)
                }
            },
            Actions::DropOff => {
                if self.passenger.is_none() && self.on_destination(world) {
                    (0, State { passenger: Some(self.destination), ..*self })
                } else {
                    (-(costs.miss_dropoff as i64), *self)
                }
            },
            _ => {
                let mut taxi = self.taxi;
                if !self.is_blocked(world, action) {
                    match action {
                        Actions::North => {
                            taxi.y = taxi.y - 1;
                        },
                        Actions::South => {
                            taxi.y = (taxi.y as i64 + 1) as i32;
                        },
                        Actions::East => {
                            taxi.x = (taxi.x as i64 + 1) as i32;
                        },
                        _ => {
                            taxi.x = taxi.x - 1;
                        },
                    }
                }
                (-(costs.movement as i64), State { taxi, ..*self })
            },
        }
    }
}

} // verus!
