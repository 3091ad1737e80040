//! Core of `pf`, an SSH port-forward manager.
//!
//! Everything that decides something is here; touching files, processes and the
//! terminal is left to the program around it.

pub mod cli;
pub mod commands;
pub mod config;
pub mod display;
pub mod error;
pub mod hosts;
pub mod names;
pub mod order;
pub mod paths;
pub mod process;
pub mod session;
pub mod ssh_hosts;
pub mod state;
pub mod text;
pub mod time;
pub mod tui;
pub mod tunnel;
pub mod watcher;
