//! Frontend of the Lake programming language: lexing, parsing, module
//! registration, monomorphisation and the lowering of `ret` machines.

pub mod api;
pub mod cfg_filter;
pub mod error_handle;
pub mod inspect;
pub mod lexer;
pub mod loader;
pub mod loading;
pub mod lowering;
pub mod mono;
pub mod name_map;
pub mod order;
pub mod panic_loc;
pub mod parser;
pub mod populate;
pub mod populating;
pub mod prelude;
pub mod registry;
pub mod repopulate;
pub mod reporting;
pub mod rewrite;
pub mod span;
pub mod text;
