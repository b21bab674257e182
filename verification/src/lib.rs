pub mod calendar;
pub mod text;
pub mod usage;
pub mod error;
pub mod api;
pub mod config;
pub mod cli;
