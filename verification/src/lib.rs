//! The verified core of the automancy game: hexagonal grid mathematics,
//! tile coordinates, inventories, the tile entity and game state machines,
//! and the input key-state machine.

pub mod math;
pub mod game;
pub mod util;
pub mod input;
pub mod gui;
pub mod options;
pub mod map;
pub mod render;
