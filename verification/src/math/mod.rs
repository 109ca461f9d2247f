pub mod hex;
