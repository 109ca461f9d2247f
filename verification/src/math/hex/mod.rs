pub mod traits;
pub mod cube;
pub mod doubled;
pub mod offset;
