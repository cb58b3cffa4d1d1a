pub mod config;
pub mod detection;
