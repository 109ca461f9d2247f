pub mod id;
pub mod text;
