//! An interactive line filter: candidate lines are narrowed by a fuzzy query
//! and navigated with keys on the controlling terminal.
//!
//! This crate holds the logic of the selector: escape sequence rendering,
//! the key binding table, scoring and ranking of candidates, the scrolling
//! viewport and the handling of each input event. Reading from and writing
//! to the terminal device is left to the caller, which hands input bytes in
//! and drains the rendered output.

pub mod ansi;
pub mod tty;
pub mod config;
pub mod input;
pub mod keys;
pub mod scorer;
pub mod ranking;
pub mod selector;
