pub mod config;
pub mod constants;
pub mod monorepo;
pub mod update;
