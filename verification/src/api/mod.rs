//! The syntax tree of a Lake program.

pub mod ast;
pub mod clean;
pub mod expr;
pub mod token;
