//! The simulation core of a top-down arcade game in which cars cross the
//! play area along curved paths while a player avoids them.
//!
//! Every quantity is an integer: positions are whole world units, time is
//! counted in microseconds and angles in thousandths of a degree, so each
//! step of the simulation is exact and reproducible.

pub mod curve;
pub mod geometry;
pub mod lifetime;
pub mod numeric;
pub mod player;
pub mod spawn;
pub mod sprite;
pub mod state;
pub mod trajectory;
pub mod world;
