pub mod coord;
pub mod inventory;
pub mod entity;
pub mod raw;
