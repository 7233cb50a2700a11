//! Command-line interface of the program.

pub mod args;
