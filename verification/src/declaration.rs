//! A function-like declaration: a free function, a method of an `impl`, or a
//! method of a trait with or without a default body.

use crate::syntax::{views, Kind, Node, Tree};
use vstd::prelude::*;

verus! {

/// A declaration as the engine holds it.
#[derive(PartialEq, Eq, Debug)]
pub struct Declaration {
    pub attrs: Vec<Node>,
    pub name: String,
    pub generics: Vec<Node>,
    pub params: Vec<Node>,
    pub output: Option<Node>,
    pub body: Option<Node>,
}

/// The mathematical value of a declaration.
pub struct Decl {
    pub attrs: Seq<Tree>,
    pub name: Seq<char>,
    pub generics: Seq<Tree>,
    pub params: Seq<Tree>,
    pub output: Option<Tree>,
    pub body: Option<Tree>,
}

/// The value of a part that may be missing.
pub open spec fn view_opt(n: Option<Node>) -> Option<Tree> {
    match n {
        Some(n) => Some(n@),
        None => None,
    }
}

impl View for Declaration {
    type V = Decl;

    open spec fn view(&self) -> Decl {
        Decl {
            attrs: views(self.attrs@),
            name: self.name@,
            generics: views(self.generics@),
            params: views(self.params@),
            output: view_opt(self.output),
            body: view_opt(self.body),
        }
    }
}

/// Whether a tree is a parameter with a pattern and a type.
pub open spec fn is_param(p: Tree) -> bool {
    p.kind == Kind::Param && p.parts.len() == 2
}

/// Whether a tree is a receiver: a parameter whose pattern is `self`.
pub open spec fn is_receiver(p: Tree) -> bool {
    is_param(p) && p.parts[0].kind == Kind::Ident && p.parts[0].text == "self"@
}

/// Whether the first parameter is a receiver taken by reference.
pub open spec fn has_borrowed_receiver(params: Seq<Tree>) -> bool {
    params.len() > 0 && is_receiver(params[0]) && params[0].parts[1].kind == Kind::Ref
}

} // verus!
