//! A small command-line argument parser: flags, value-bearing options and
//! bare `key=value` settings, with every operation specified over a
//! mathematical model of the parser and proved against it.

pub mod clock;
pub mod laws;
pub mod param;
pub mod parser;
pub mod report;
pub mod state;
pub mod text;
