//! Batch housekeeping over a directory: picking the git repositories or the
//! TrueType fonts among its immediate children, building the command line of
//! the external program run for each, and deciding what a run prints and
//! when it stops; and the command lines that turn HTML files into Markdown,
//! one after another.

pub mod batch;
pub mod command;
pub mod reorder;
pub mod scan;
