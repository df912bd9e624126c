//! The value that a body returns: every place where a body ends with a value
//! is made an explicit `return`, so that each returned value has one shape
//! that the continuation can then be put around.

use crate::passes::duplicate;
use crate::syntax::{lemma_parts, node, ret, views, Kind, Node, Tree};
use vstd::prelude::*;

verus! {

/// Whether a statement is an expression without a semicolon behind it.
pub open spec fn is_tail(s: Tree) -> bool {
    s.kind != Kind::Let && s.kind != Kind::Semi && s.kind != Kind::Item
}

/// Whether a block ends with a value.
pub open spec fn has_tail(b: Tree) -> bool {
    b.parts.len() > 0 && is_tail(b.parts.last())
}

/// Whether a tree is a match arm with its two parts.
pub open spec fn is_arm(a: Tree) -> bool {
    a.kind == Kind::Arm && a.parts.len() == 2
}

/// A block whose final value, if it has one, is returned explicitly.
pub open spec fn returned_block(b: Tree) -> Tree
    decreases b, 0nat,
{
    if has_tail(b) {
        node(b.kind, b.text, b.parts.update(b.parts.len() - 1, explicit(b.parts.last())))
    } else {
        b
    }
}

/// An expression in tail position with its value returned explicitly: inside
/// it where it is a block, an `if` or a `match`, and else around it.
pub open spec fn explicit(e: Tree) -> Tree
    decreases e, 2nat,
{
    let s = settled(e);
    if s.1 {
        s.0
    } else {
        ret(s.0)
    }
}

/// An expression in tail position with the values of its branches returned
/// explicitly, and whether that settles it: a block without a final value, and
/// anything that has no branches, still has to be returned as a whole. Loop
/// bodies and closures are not branches.
pub open spec fn settled(e: Tree) -> (Tree, bool)
    decreases e, 1nat,
{
    if e.kind == Kind::Block {
        (returned_block(e), has_tail(e))
    } else if e.kind == Kind::If && e.parts.len() >= 2 {
        (node(e.kind, e.text, settled_branches(e)), true)
    } else if e.kind == Kind::Match && e.parts.len() >= 1 {
        (node(e.kind, e.text, settled_arms(e)), true)
    } else {
        (e, false)
    }
}

/// The parts of an `if` with its branches settled.
pub open spec fn settled_branches(e: Tree) -> Seq<Tree>
    decreases e, 0nat,
{
    Seq::new(
        e.parts.len(),
        |i: int|
            if i == 1 && 1 < e.parts.len() && e.parts[1].kind == Kind::Block {
                returned_block(e.parts[1])
            } else if i == 2 && 2 < e.parts.len() {
                settled(e.parts[2]).0
            } else {
                e.parts[i]
            },
    )
}

/// The parts of a `match` with the body of each arm returned explicitly.
pub open spec fn settled_arms(e: Tree) -> Seq<Tree>
    decreases e, 0nat,
{
    Seq::new(
        e.parts.len(),
        |i: int|
            if 1 <= i < e.parts.len() && is_arm(e.parts[i]) {
                node(
                    Kind::Arm,
                    e.parts[i].text,
                    seq![e.parts[i].parts[0], explicit(e.parts[i].parts[1])],
                )
            } else {
                e.parts[i]
            },
    )
}

/// Whether a statement is an expression without a semicolon behind it.
fn tail(s: &Node) -> (b: bool)
    ensures
        b == is_tail(s@),
{
    proof {
        lemma_parts(*s);
    }
    s.kind != Kind::Let && s.kind != Kind::Semi && s.kind != Kind::Item
}

/// Whether a block ends with a value.
fn ends_with_value(b: &Node) -> (r: bool)
    ensures
        r == has_tail(b@),
{
    proof {
        lemma_parts(*b);
    }
    b.parts.len() > 0 && tail(&b.parts[b.parts.len() - 1])
}

/// Makes the final value of a block, if it has one, an explicit `return`.
pub fn return_block(b: &Node) -> (r: Node)
    ensures
        r@ == returned_block(b@),
    decreases b, 0nat,
{
    proof {
        lemma_parts(*b);
    }
    if ends_with_value(b) {
        let last = b.parts.len() - 1;
        let mut parts: Vec<Node> = Vec::new();
        let mut i: usize = 0;
        while i < last
            invariant
                i <= last,
                last + 1 == b.parts.len(),
                parts@.len() == i,
                forall|j: int| 0 <= j < i ==> (#[trigger] parts@[j])@ == b.parts@[j]@,
            decreases last - i,
        {
            parts.push(duplicate(&b.parts[i]));
            i += 1;
        }
        parts.push(make_explicit(&b.parts[last]));
        assert(views(parts@) =~= b@.parts.update(b@.parts.len() - 1, explicit(b@.parts.last())));
        Node::new(b.kind, b.text.as_str(), parts)
    } else {
        duplicate(b)
    }
}

/// Returns the value of an expression in tail position explicitly.
pub fn make_explicit(e: &Node) -> (r: Node)
    ensures
        r@ == explicit(e@),
    decreases e, 2nat,
{
    let (inner, done) = settle(e);
    if done {
        inner
    } else {
        Node::ret(inner)
    }
}

/// Returns the values of the branches of an expression in tail position
/// explicitly, and says whether that settles it.
pub fn settle(e: &Node) -> (r: (Node, bool))
    ensures
        r.0@ == settled(e@).0,
        r.1 == settled(e@).1,
    decreases e, 1nat,
{
    proof {
        lemma_parts(*e);
    }
    if e.kind == Kind::Block {
        (return_block(e), ends_with_value(e))
    } else if e.kind == Kind::If && e.parts.len() >= 2 {
        let mut parts: Vec<Node> = Vec::new();
        let mut i: usize = 0;
        while i < e.parts.len()
            invariant
                i <= e.parts.len(),
                e@.parts.len() == e.parts.len(),
                forall|j: int| 0 <= j < e.parts.len() ==> e@.parts[j] == (#[trigger] e.parts[j])@,
                parts@.len() == i,
                forall|j: int| 0 <= j < i ==> (#[trigger] parts@[j])@ == settled_branches(e@)[j],
            decreases e.parts.len() - i,
        {
            let p = &e.parts[i];
            proof {
                lemma_parts(*p);
            }
            if i == 1 && p.kind == Kind::Block {
                parts.push(return_block(p));
            } else if i == 2 {
                parts.push(settle(p).0);
            } else {
                parts.push(duplicate(p));
            }
            i += 1;
        }
        assert(views(parts@) =~= settled_branches(e@));
        (Node::new(e.kind, e.text.as_str(), parts), true)
    } else if e.kind == Kind::Match && e.parts.len() >= 1 {
        let mut parts: Vec<Node> = Vec::new();
        let mut i: usize = 0;
        while i < e.parts.len()
            invariant
                i <= e.parts.len(),
                e@.parts.len() == e.parts.len(),
                forall|j: int| 0 <= j < e.parts.len() ==> e@.parts[j] == (#[trigger] e.parts[j])@,
                parts@.len() == i,
                forall|j: int| 0 <= j < i ==> (#[trigger] parts@[j])@ == settled_arms(e@)[j],
            decreases e.parts.len() - i,
        {
            let a = &e.parts[i];
            proof {
                lemma_parts(*a);
            }
            if i >= 1 && a.kind == Kind::Arm && a.parts.len() == 2 {
                let inner: Vec<Node> = vec![duplicate(&a.parts[0]), make_explicit(&a.parts[1])];
                assert(views(inner@) =~= seq![inner@[0]@, inner@[1]@]);
                parts.push(Node::new(Kind::Arm, a.text.as_str(), inner));
            } else {
                parts.push(duplicate(a));
            }
            i += 1;
        }
        assert(views(parts@) =~= settled_arms(e@));
        (Node::new(e.kind, e.text.as_str(), parts), true)
    } else {
        (duplicate(e), false)
    }
}

} // verus!
