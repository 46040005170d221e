//! Fan control for the Mac Pro 2019 (`MacPro7,1`): the rules of the daemon, verified.

pub mod text;
pub mod paths;
pub mod ini_file;
pub mod decimal;
pub mod error;
pub mod config;
pub mod config_file;
pub mod sensors;
pub mod slots;
pub mod setup;
pub mod fan_controller;
pub mod non_empty;
pub mod reload;
pub mod temp_loop;
pub mod startup;
