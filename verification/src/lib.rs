//! A discrete-time traffic simulation for a fixed group of cooperating
//! workers: a grid of intersections and roads, a population of vehicles
//! split across the workers every tick, and the collective exchange that
//! reassembles a consistent global state after each step.

pub mod communication;
pub mod controller;
pub mod matrix;
pub mod model;
pub mod util;

pub use communication::Division;
pub use model::Model;
