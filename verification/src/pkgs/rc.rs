pub mod index;
pub mod utils;
