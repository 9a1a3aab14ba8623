//! A declarative session orchestrator for terminal multiplexers.
//!
//! A session is described as a tree of windows and flex-weighted panes.  The
//! core of the crate turns such a tree into the exact wire-format layout
//! string that tmux's `select-layout` consumes (including its 16-bit
//! checksum) together with the ordered command sequence that realizes the
//! tree, and also solves the inverse problem: parsing a live layout string
//! back into a pane tree with normalized flex weights.

pub mod checksum;
pub mod client;
pub mod config;
pub mod engine;
pub mod error;
pub mod node;
pub mod parser;
pub mod path;
pub mod plan;
pub mod reducer;
pub mod steps;
pub mod target;
pub mod text;
