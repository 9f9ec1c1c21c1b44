//! Commit-graph layout and lane colouring for a terminal history viewer.
//!
//! The library turns a newest-first list of commits and a set of branch
//! pointers into rows of a multi-lane graph (`graph`), chooses a colour per
//! lane (`colors`), and holds the decisions of the interactive viewer
//! (`app`, `action`). Reading the repository and drawing on the terminal
//! are left to the caller.

pub mod action;
pub mod app;
pub mod branch;
pub mod colors;
pub mod commit;
pub mod config;
pub mod diff;
pub mod graph;
pub mod keybindings;
pub mod operations;
pub mod renderer;
pub mod repository;
