//! What the engine reports when it gives up on a declaration.

use crate::syntax::{Node, Tree};
use vstd::prelude::*;

verus! {

/// The ways in which syntax can have a shape that the engine does not take.
#[derive(Clone, Copy, PartialEq, Eq, Debug, Structural)]
pub enum Shape {
    /// A marked `let` without an initializer.
    MissingInitializer,
    /// The initializer of a marked `let` is no call, nor one behind a single
    /// `?` or `match`.
    NotACall,
    /// The callee of the call is not a path.
    NotAFunctionName,
    /// The call carries attributes.
    AttributesOnCall,
    /// The marker attribute stands on something other than a `let`.
    MisplacedMarker,
    /// A member carries the configuration attribute twice.
    DuplicateConfiguration,
    /// The engine is applied to something that is no function, trait or `impl`.
    NotADeclaration,
}

/// Why a declaration was not rewritten.
#[derive(Clone, Copy, PartialEq, Eq, Debug, Structural)]
pub enum Error {
    /// The configuration attribute is malformed.
    Config,
    /// The returned borrow cannot be tied to exactly one scope of the inputs:
    /// `candidates` says how many there are, `first` and `last` the places
    /// among the parameters of the first and the last one whose type holds a
    /// scope (both 0 where none does).
    ScopeInference { candidates: usize, first: usize, last: usize },
    /// Some syntax has a shape that the engine does not take.
    Shape(Shape),
    /// A labelled `break` or `continue` would have to cross a continuation.
    UnsupportedControlFlow,
    /// A method that calls itself needs its enclosing block to be rewritten too.
    MissingEnclosingTransform,
    /// Marked bindings nest deeper than the engine follows.
    NestingLimit,
}

/// Whether an outcome is the one that a specification gives: the same tree,
/// or the same error.
pub open spec fn agrees(r: Result<Node, Error>, s: Result<Tree, Error>) -> bool {
    match (r, s) {
        (Ok(n), Ok(t)) => n@ == t,
        (Err(a), Err(b)) => a == b,
        _ => false,
    }
}

} // verus!
