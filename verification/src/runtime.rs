//! What rewritten code refers to when it runs: the tagged value by which a
//! continuation reports a non-local exit, and the conversions behind `?`.

use vstd::prelude::*;

verus! {

/// What a function with a type-erased continuation returns, and what such a
/// continuation returns. A type of its own makes it harder than `()` would to
/// write such a function by hand and forget to call the continuation.
#[derive(Clone, Copy, PartialEq, Eq, Debug)]
pub struct ContinuationReturn;

/// What a continuation returns: the value of its body, or the exit that its
/// body asked for.
#[derive(Clone, Copy, PartialEq, Eq, Debug)]
pub enum ControlFlow<Eval, Return, Break, Continue> {
    /// The body ran to its end and has this value.
    Eval(Eval),
    /// The enclosing function must return this value.
    EarlyReturn(Return),
    /// The enclosing loop must `break` with this value.
    Break(Break),
    /// The enclosing loop must `continue`.
    Continue(Continue),
}

/// A type without values: the payload of a tag that is never used.
#[derive(Clone, Copy, PartialEq, Eq, Debug)]
pub enum Unreachable {
    /// Holds a value of a type that has none.
    Never(core::convert::Infallible),
}

/// The error of an `Option` that is `None`.
#[derive(Clone, Copy, PartialEq, Eq, Debug)]
pub struct NoneError;

/// A type that `?` applies to: it is either a success or a failure, and can
/// be made from either.
pub trait Try: Sized {
    type Ok;

    type Error;

    /// The value as a success or a failure.
    spec fn outcome(self) -> Result<Self::Ok, Self::Error>;

    /// Tells a success from a failure.
    fn into_result(self) -> (r: Result<Self::Ok, Self::Error>)
        ensures
            r == self.outcome(),
    ;

    /// The success that holds `ok`.
    fn from_ok(ok: Self::Ok) -> (r: Self)
        ensures
            r.outcome() == Ok::<Self::Ok, Self::Error>(ok),
    ;

    /// The failure that holds `err`.
    fn from_err(err: Self::Error) -> (r: Self)
        ensures
            r.outcome() == Err::<Self::Ok, Self::Error>(err),
    ;
}

impl<T, E> Try for Result<T, E> {
    type Ok = T;

    type Error = E;

    open spec fn outcome(self) -> Result<T, E> {
        self
    }

    fn into_result(self) -> (r: Result<T, E>) {
        self
    }

    fn from_ok(ok: T) -> (r: Result<T, E>) {
        Ok(ok)
    }

    fn from_err(err: E) -> (r: Result<T, E>) {
        Err(err)
    }
}

impl<T> Try for Option<T> {
    type Ok = T;

    type Error = NoneError;

    open spec fn outcome(self) -> Result<T, NoneError> {
        match self {
            Some(v) => Ok(v),
            None => Err(NoneError),
        }
    }

    fn into_result(self) -> (r: Result<T, NoneError>) {
        match self {
            Some(v) => Ok(v),
            None => Err(NoneError),
        }
    }

    fn from_ok(ok: T) -> (r: Option<T>) {
        Some(ok)
    }

    fn from_err(err: NoneError) -> (r: Option<T>) {
        None
    }
}

} // verus!
