pub mod item;
pub mod registry;
pub mod state;
pub mod tile;
pub mod tiles;
pub mod render_cache;
