//! The words in which each failure is reported.

use crate::error::{Error, Shape};
use crate::transform::{decimal, digits};
use vstd::prelude::*;

verus! {

/// What is reported where the return type borrows and the inputs offer
/// several scopes: the words before the number of scopes.
pub open spec fn ambiguous_before() -> Seq<char> {
    "missing lifetime specifier: this function's return type contains a borrowed value, but the signature does not say which one of the arguments' "@
}

/// The words after the number of scopes.
pub open spec fn ambiguous_after() -> Seq<char> {
    " lifetimes it is borrowed from; specify it using explicitly named lifetime parameters"@
}

/// The report of a shape that the engine does not take.
pub open spec fn shape_text(s: Shape) -> Seq<char> {
    match s {
        Shape::MissingInitializer => "Missing expression"@,
        Shape::NotACall => "expected `function(...)`, `function(...)?`, `<expr>.method(...)` or `<expr>.method(...)?`"@,
        Shape::NotAFunctionName => "Expected a function name"@,
        Shape::AttributesOnCall => "`#[with]` does not support attributes"@,
        Shape::MisplacedMarker => "`#[with]` must be applied to a `let` binding."@,
        Shape::DuplicateConfiguration => "Duplicate `#[with]` attribute"@,
        Shape::NotADeclaration => "`#[with]` can only be applied to an `fn`, a `trait`, or an `impl`."@,
    }
}

/// The report of a failure.
pub open spec fn message_text(e: Error) -> Seq<char> {
    match e {
        Error::Config => "malformed `#[with]` arguments"@,
        Error::ScopeInference { candidates, first, last } => if candidates == 0 {
            "missing lifetime specifier: this function's return type contains a borrowed value, but there is no value for it to be borrowed from"@
        } else {
            ambiguous_before() + digits(candidates as nat) + ambiguous_after()
        },
        Error::Shape(s) => shape_text(s),
        Error::UnsupportedControlFlow => "`#[with]` does not support labelled `break`s or `continue`s"@,
        Error::MissingEnclosingTransform => "Missing `#[with]` on the enscoping `impl` or `trait` block"@,
        Error::NestingLimit => "`#[with]` bindings nest too deep"@,
    }
}

/// The report of a shape that the engine does not take.
fn describe_shape(s: Shape) -> (r: &'static str)
    ensures
        r@ == shape_text(s),
{
    match s {
        Shape::MissingInitializer => "Missing expression",
        Shape::NotACall => "expected `function(...)`, `function(...)?`, `<expr>.method(...)` or `<expr>.method(...)?`",
        Shape::NotAFunctionName => "Expected a function name",
        Shape::AttributesOnCall => "`#[with]` does not support attributes",
        Shape::MisplacedMarker => "`#[with]` must be applied to a `let` binding.",
        Shape::DuplicateConfiguration => "Duplicate `#[with]` attribute",
        Shape::NotADeclaration => "`#[with]` can only be applied to an `fn`, a `trait`, or an `impl`.",
    }
}

/// The report of a failure.
pub fn message(e: Error) -> (r: String)
    ensures
        r@ == message_text(e),
{
    match e {
        Error::Config => String::from_str("malformed `#[with]` arguments"),
        Error::ScopeInference { candidates, first: _, last: _ } => {
            if candidates == 0 {
                String::from_str(
                    "missing lifetime specifier: this function's return type contains a borrowed value, but there is no value for it to be borrowed from",
                )
            } else {
                let count = decimal(candidates);
                String::from_str(
                    "missing lifetime specifier: this function's return type contains a borrowed value, but the signature does not say which one of the arguments' ",
                ).concat(count.as_str()).concat(
                    " lifetimes it is borrowed from; specify it using explicitly named lifetime parameters",
                )
            }
        },
        Error::Shape(s) => String::from_str(describe_shape(s)),
        Error::UnsupportedControlFlow => String::from_str(
            "`#[with]` does not support labelled `break`s or `continue`s",
        ),
        Error::MissingEnclosingTransform => String::from_str(
            "Missing `#[with]` on the enscoping `impl` or `trait` block",
        ),
        Error::NestingLimit => String::from_str("`#[with]` bindings nest too deep"),
    }
}

} // verus!
