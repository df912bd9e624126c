//! A source-to-source engine that turns functions returning borrows of their
//! own locals, and the bindings that receive such borrows, into
//! continuation-passing style.
//!
//! The engine works on trees (`syntax`), not on text: a parser hands it a
//! declaration, and a printer takes what comes back. Its parts, leaves first:
//!
//! - `config`: the options of a rewriting and the grammar that spells them;
//! - `passes`: the rewritings and searches that walk a whole tree;
//! - `lifetimes`: the scopes of a signature and the one that a returned
//!   borrow is tied to;
//! - `tails` and `transform`: a declaration's signature and body in
//!   continuation-passing style, and the split of a declaration that calls
//!   itself;
//! - `control_flow`: the exits of statements that move into a closure;
//! - `bindings`: marked bindings as calls with continuations;
//! - `engine`: the engine applied to a function, a trait or an `impl`;
//! - `laws` and `nesting`: what holds of the engine as a whole;
//! - `runtime`: what rewritten code refers to when it runs, and `by_hand`,
//!   the same style written by hand.

pub mod bindings;
pub mod by_hand;
pub mod config;
pub mod control_flow;
pub mod declaration;
pub mod diagnostics;
pub mod engine;
pub mod error;
pub mod laws;
pub mod lifetimes;
pub mod nesting;
pub mod passes;
pub mod runtime;
pub mod syntax;
pub mod tails;
pub mod transform;
