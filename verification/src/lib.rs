//! Layout parsing, Ghostty keybinding parsing and pane-splitting plans.

pub mod cli;
pub mod config;
pub mod keybind;
pub mod layout;
pub mod number;
pub mod split;
pub mod text;
