//! The command line: what was asked for, and what to do about it.
pub mod options;
pub mod start;
