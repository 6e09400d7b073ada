pub mod config;
pub mod detector;
pub mod hints;
pub mod platform;
pub mod switcher;
pub mod tools;
pub mod version;
