pub mod text;
pub mod order;
pub mod names;
pub mod vars;
pub mod layout;
pub mod geometry;
pub mod input;
pub mod theme;
pub mod preset;
pub mod app;
pub mod keys;
pub mod runner;
pub mod ui;
pub mod actions;
pub mod mouse;
pub mod ansi;
pub mod fields;
pub mod status;
pub mod cli;
pub mod laws;
pub mod panes;
pub mod tokens;
pub mod guarantees;
