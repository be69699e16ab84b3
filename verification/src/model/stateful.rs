//! The mutable part of the simulation: the vehicles and the intersection
//! signal states, replaced as a whole once per tick.

use crate::model::board::Board;
use vstd::prelude::*;

pub mod car;
pub mod intersection;

pub use car::{Car, Location};
pub use intersection::{Intersection, SwitchState};

verus! {

/// The mutable city: one signal state per stateful intersection; road
/// slots carry no mutable state.
#[derive(Clone, Debug)]
pub struct City {
    pub board: Board<Option<Intersection>, ()>,
}

/// The mutable model: the city and the vehicle list.  A `None` slot is an
/// index where no vehicle currently lives; indices are stable identifiers.
#[derive(Clone, Debug)]
pub struct Model {
    pub city: City,
    pub cars: Vec<Option<Car>>,
}

} // verus!
