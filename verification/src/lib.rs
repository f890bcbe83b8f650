//! Authoritative simulation core of a multiplayer snake game played on a
//! shared rectangular grid.

pub mod connection;
pub mod framing;
pub mod game;
pub mod grid;
pub mod input;
pub mod invariants;
pub mod laws;
pub mod model;
pub mod net;
pub mod random;
pub mod render;
pub mod scene;
pub mod snake;
pub mod validate;

pub use crate::game::Game;
pub use crate::grid::{Cell, CellManager};
pub use crate::net::{Signal, SnakeEvent, SnakeEventType};
pub use crate::snake::{Direction, Snake};
