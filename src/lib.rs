pub mod commands;
pub mod config;
pub mod disk;
pub mod paths;
pub mod plugin;
