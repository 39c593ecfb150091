//! Lowering: desugars `ret`-typed machines into plain message-passing actors.
//!
//! Two cooperating transformations:
//!
//!   * **Callee side.** Every branch with a `-> ret <type>` annotation gets
//!     an implicit `__caller pid` parameter prepended to its pattern list.
//!     Inside the body, `ret x` becomes the send `__caller(self x)`, and the
//!     body's last expression — the implicit return — is wrapped the same
//!     way unless it already ends in such a send.
//!
//!   * **Caller side.** `let r = M(args)` with a ret-machine `M` becomes
//!     `let __ret_N_pid = M(self args)`, and the remainder of the body moves
//!     into `wait __ret_N_pid { __ret_N_sender pid r <ret_ty> -> { ... } }`.
//!
//! A second pass over the program follows where the first leaves something to
//! do, so that lowering what is lowered changes nothing.

pub mod synth;
pub mod tail;
pub mod tuples;
pub mod body;
pub mod bound;
pub mod calls;
pub mod endings;
pub mod expand;
pub mod lift;
pub mod passes;
pub mod program;
pub mod pure;
pub mod recursion;
pub mod renewal;
pub mod rest;
pub mod ret_free;
pub mod settled;
pub mod settling;
pub mod shapes;
pub mod steady;
pub mod symbols;
pub mod value;
