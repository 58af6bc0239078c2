//! A turn-based air-traffic-control simulation: aircraft move through a fixed
//! sequence of states, weather opens and closes runways, and a command
//! interpreter validates the player's clearances and keeps the score.

pub mod text;
mod random;
pub mod airport;
pub mod flight_plan;
pub mod plane;
pub mod game;
