//! Building a command line interactively from a program's own `--help` text.
//!
//! The library holds the logic: reading flag descriptions out of help text,
//! the selection state machine that assigns values to them, and the rendering
//! of the resulting command line.

pub mod app;
pub mod cli;
pub mod help_parser;
pub mod session;
pub mod text;
