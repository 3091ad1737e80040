//! The dashboard: what it shows, and what each key does.

pub mod actions;
pub mod keys;
pub mod state;
pub mod tree;
pub mod ui;
