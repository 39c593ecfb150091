//! Monomorphisation of generic declarations.
//!
//! Every call of a generic record or machine, and every constructor of a
//! generic enum, is replaced by the name of a concrete copy; the copies are
//! made once per list of type arguments.  Afterwards no generic template is
//! left in the program.

pub mod callee;
pub mod concrete;
pub mod copies;
pub mod fitting;
pub mod infer;
pub mod keeping;
pub mod leftover;
pub mod program;
pub mod protos;
pub mod state;
pub mod substitute;
pub mod types;
pub mod walk;
