//! The engine as its users meet it: applied to a function, or to a trait or
//! an `impl`, whose methods it rewrites one by one, each with the options of
//! its own attribute where it has one and with those of the block where not.

use crate::bindings::{is_marker_attr, marks};
use crate::config::{member_options, parse_member_options, parsed, Attrs, Settings};
use crate::declaration::{view_opt, Decl, Declaration};
use crate::error::{agrees, Error, Shape};
use crate::passes::{duplicate, duplicate_all};
use crate::syntax::{lemma_parts, node, views, Kind, Node, Tree};
use crate::transform::{fn_node, handle_fn_like, rewritten_decl, to_node, Enclosing};
use vstd::prelude::*;

verus! {

/// Whether a tree is a declaration with its five parts.
pub open spec fn is_fn(t: Tree) -> bool {
    t.kind == Kind::Fn && t.parts.len() == 5
}

/// A part of a declaration that may be missing.
pub open spec fn present(t: Tree) -> Option<Tree> {
    if t.kind == Kind::Absent {
        None
    } else {
        Some(t)
    }
}

/// The declaration that a tree holds.
pub open spec fn decl_of(t: Tree) -> Decl {
    Decl {
        attrs: t.parts[0].parts,
        name: t.text,
        generics: t.parts[1].parts,
        params: t.parts[2].parts,
        output: present(t.parts[3]),
        body: present(t.parts[4]),
    }
}

/// The attributes without the marker attributes.
pub open spec fn stripped(attrs: Seq<Tree>) -> Seq<Tree>
    decreases attrs.len(),
{
    if attrs.len() == 0 {
        Seq::empty()
    } else if is_marker_attr(attrs.last()) {
        stripped(attrs.drop_last())
    } else {
        stripped(attrs.drop_last()).push(attrs.last())
    }
}

/// How many of the attributes are marker attributes.
pub open spec fn marker_count(attrs: Seq<Tree>) -> nat
    decreases attrs.len(),
{
    if attrs.len() == 0 {
        0
    } else {
        marker_count(attrs.drop_last()) + if is_marker_attr(attrs.last()) {
            1nat
        } else {
            0nat
        }
    }
}

/// The last marker attribute, if there is one.
pub open spec fn last_marker(attrs: Seq<Tree>) -> Option<Tree>
    decreases attrs.len(),
{
    if attrs.len() == 0 {
        None
    } else if is_marker_attr(attrs.last()) {
        Some(attrs.last())
    } else {
        last_marker(attrs.drop_last())
    }
}

/// The options that a member is rewritten with: those that its own marker
/// attribute spells in its argument, and else those of its block. Two marker
/// attributes on one member are refused.
pub open spec fn member_config(attrs: Seq<Tree>, outer: Settings) -> Result<Settings, Error> {
    if marker_count(attrs) >= 2 {
        Err(Error::Shape(Shape::DuplicateConfiguration))
    } else {
        match last_marker(attrs) {
            Some(a) => member_options(a),
            None => Ok(outer),
        }
    }
}

/// A member of a block as the engine leaves it: a method is rewritten,
/// without its marker attribute; anything else stays.
#[verifier::opaque]
pub open spec fn rewritten_member(t: Tree, outer: Settings, scope: Enclosing) -> Result<
    Tree,
    Error,
> {
    if !is_fn(t) {
        Ok(t)
    } else {
        let d = decl_of(t);
        match member_config(d.attrs, outer) {
            Err(e) => Err(e),
            Ok(cfg) => match rewritten_decl(Decl { attrs: stripped(d.attrs), ..d }, cfg, scope) {
                Err(e) => Err(e),
                Ok(r) => Ok(fn_node(r)),
            },
        }
    }
}

/// The first `n` members of a block as the engine leaves them, or the first
/// failure among them.
pub open spec fn rewritten_members(ts: Seq<Tree>, outer: Settings, scope: Enclosing, n: nat)
    -> Result<Seq<Tree>, Error>
    decreases n,
{
    if n == 0 || n > ts.len() {
        Ok(Seq::empty())
    } else {
        match rewritten_members(ts, outer, scope, (n - 1) as nat) {
            Err(e) => Err(e),
            Ok(done) => match rewritten_member(ts[n - 1], outer, scope) {
                Err(e) => Err(e),
                Ok(m) => Ok(done.push(m)),
            },
        }
    }
}

/// A block with its methods rewritten.
pub open spec fn rewritten_block(t: Tree, outer: Settings, scope: Enclosing) -> Result<
    Tree,
    Error,
> {
    match rewritten_members(t.parts, outer, scope, t.parts.len()) {
        Err(e) => Err(e),
        Ok(members) => Ok(node(t.kind, t.text, members)),
    }
}

/// What the engine makes of its input under the options that the tokens
/// spell: a function is rewritten on its own, a trait or an `impl` member by
/// member, and anything else is refused.
pub open spec fn applied(tokens: Seq<Tree>, input: Tree) -> Result<Tree, Error> {
    match parsed(tokens) {
        Err(e) => Err(e),
        Ok(cfg) => if is_fn(input) {
            match rewritten_decl(decl_of(input), cfg, Enclosing::Free) {
                Err(e) => Err(e),
                Ok(r) => Ok(fn_node(r)),
            }
        } else if input.kind == Kind::Impl {
            rewritten_block(input, cfg, Enclosing::Impl)
        } else if input.kind == Kind::Trait {
            rewritten_block(input, cfg, Enclosing::Trait)
        } else {
            Err(Error::Shape(Shape::NotADeclaration))
        },
    }
}

/// A copy of a part of a declaration that may be missing.
fn copy_present(t: &Node) -> (r: Option<Node>)
    ensures
        view_opt(r) == present(t@),
{
    proof {
        lemma_parts(*t);
    }
    if t.kind == Kind::Absent {
        None
    } else {
        Some(duplicate(t))
    }
}

/// The attributes without the marker attributes, how many of those there
/// are, and where the last one is.
fn strip(attrs: &Vec<Node>) -> (r: (Vec<Node>, usize, Option<usize>))
    ensures
        views(r.0@) == stripped(views(attrs@)),
        r.1 == marker_count(views(attrs@)),
        match r.2 {
            Some(i) => i < attrs.len() && last_marker(views(attrs@)) == Some(attrs@[i as int]@),
            None => last_marker(views(attrs@)) is None,
        },
{
    let ghost all = views(attrs@);
    let mut kept: Vec<Node> = Vec::new();
    let mut count: usize = 0;
    let mut last: Option<usize> = None;
    let mut i: usize = 0;
    assert(views(kept@) =~= stripped(all.take(0)));
    while i < attrs.len()
        invariant
            i <= attrs.len(),
            all == views(attrs@),
            views(kept@) == stripped(all.take(i as int)),
            count == marker_count(all.take(i as int)),
            count <= i,
            match last {
                Some(k) => k < i && last_marker(all.take(i as int)) == Some(attrs@[k as int]@),
                None => last_marker(all.take(i as int)) is None,
            },
        decreases attrs.len() - i,
    {
        let a = &attrs[i];
        proof {
            assert(all.take(i + 1).drop_last() =~= all.take(i as int));
            assert(all.take(i + 1).last() == a@);
        }
        if marks(a) {
            count += 1;
            last = Some(i);
        } else {
            let ghost before = views(kept@);
            kept.push(duplicate(a));
            assert(views(kept@) =~= before.push(a@));
        }
        i += 1;
    }
    assert(all.take(attrs.len() as int) =~= all);
    (kept, count, last)
}

/// Rewrites one member of a block.
pub fn rewrite_member(t: &Node, outer: &Attrs, scope: Enclosing) -> (r: Result<Node, Error>)
    ensures
        agrees(r, rewritten_member(t@, outer@, scope)),
{
    reveal(rewritten_member);
    proof {
        lemma_parts(*t);
    }
    if !(t.kind == Kind::Fn && t.parts.len() == 5) {
        return Ok(duplicate(t));
    }
    proof {
        lemma_parts(t.parts[0]);
        lemma_parts(t.parts[1]);
        lemma_parts(t.parts[2]);
    }
    let (kept, count, last) = strip(&t.parts[0].parts);
    if count >= 2 {
        return Err(Error::Shape(Shape::DuplicateConfiguration));
    }
    let own: Attrs;
    let cfg: &Attrs = match last {
        Some(i) => {
            let a = &t.parts[0].parts[i];
            proof {
                lemma_parts(*a);
            }
            match parse_member_options(a) {
                Err(e) => {
                    return Err(e);
                },
                Ok(c) => {
                    own = c;
                    &own
                },
            }
        },
        None => outer,
    };
    let d = Declaration {
        attrs: kept,
        name: t.text.clone(),
        generics: duplicate_all(&t.parts[1].parts),
        params: duplicate_all(&t.parts[2].parts),
        output: copy_present(&t.parts[3]),
        body: copy_present(&t.parts[4]),
    };
    match handle_fn_like(cfg, &d, scope) {
        Err(e) => Err(e),
        Ok(r) => Ok(to_node(r)),
    }
}

/// Once a member fails, the members up to any later one fail in the same way.
pub proof fn lemma_members_fail(ts: Seq<Tree>, outer: Settings, scope: Enclosing, n: nat, m: nat)
    requires
        n <= m <= ts.len(),
        rewritten_members(ts, outer, scope, n) is Err,
    ensures
        rewritten_members(ts, outer, scope, m) == rewritten_members(ts, outer, scope, n),
    decreases m,
{
    if m > n {
        lemma_members_fail(ts, outer, scope, n, (m - 1) as nat);
    }
}

/// Rewrites the methods of a block.
fn rewrite_block(t: &Node, outer: &Attrs, scope: Enclosing) -> (r: Result<Node, Error>)
    ensures
        agrees(r, rewritten_block(t@, outer@, scope)),
{
    let mut out: Vec<Node> = Vec::new();
    let mut i: usize = 0;
    proof {
        lemma_parts(*t);
        assert(views(out@) =~= Seq::<Tree>::empty());
    }
    while i < t.parts.len()
        invariant
            i <= t.parts.len(),
            t@.parts == views(t.parts@),
            rewritten_members(t@.parts, outer@, scope, i as nat) == Ok::<Seq<Tree>, Error>(
                views(out@),
            ),
        decreases t.parts.len() - i,
    {
        let ghost done = views(out@);
        assert(t@.parts[i as int] == t.parts@[i as int]@);
        match rewrite_member(&t.parts[i], outer, scope) {
            Err(e) => {
                proof {
                    lemma_members_fail(
                        t@.parts,
                        outer@,
                        scope,
                        (i + 1) as nat,
                        t.parts.len() as nat,
                    );
                }
                return Err(e);
            },
            Ok(m) => {
                out.push(m);
                assert(views(out@) =~= done.push(m@));
            },
        }
        i += 1;
    }
    Ok(Node::new(t.kind, t.text.as_str(), out))
}

/// Rewrites the methods of an `impl`, each with the options of its own
/// marker attribute where it has one and with `outer` where not.
pub fn with_impl(outer: &Attrs, item: &Node) -> (r: Result<Node, Error>)
    ensures
        agrees(r, rewritten_block(item@, outer@, Enclosing::Impl)),
{
    rewrite_block(item, outer, Enclosing::Impl)
}

/// Rewrites the methods of a trait, each with the options of its own marker
/// attribute where it has one and with `outer` where not.
pub fn with_trait(outer: &Attrs, item: &Node) -> (r: Result<Node, Error>)
    ensures
        agrees(r, rewritten_block(item@, outer@, Enclosing::Trait)),
{
    rewrite_block(item, outer, Enclosing::Trait)
}

/// Applies the engine to a function, a trait or an `impl`, under the options
/// that the tokens of the attribute's argument spell.
pub fn with(tokens: &Vec<Node>, input: &Node) -> (r: Result<Node, Error>)
    ensures
        agrees(r, applied(views(tokens@), input@)),
{
    let cfg = match Attrs::parse(tokens) {
        Err(e) => {
            return Err(e);
        },
        Ok(c) => c,
    };
    proof {
        lemma_parts(*input);
    }
    if input.kind == Kind::Fn && input.parts.len() == 5 {
        proof {
            lemma_parts(input.parts[0]);
            lemma_parts(input.parts[1]);
            lemma_parts(input.parts[2]);
        }
        let d = Declaration {
            attrs: duplicate_all(&input.parts[0].parts),
            name: input.text.clone(),
            generics: duplicate_all(&input.parts[1].parts),
            params: duplicate_all(&input.parts[2].parts),
            output: copy_present(&input.parts[3]),
            body: copy_present(&input.parts[4]),
        };
        match handle_fn_like(&cfg, &d, Enclosing::Free) {
            Err(e) => Err(e),
            Ok(r) => Ok(to_node(r)),
        }
    } else if input.kind == Kind::Impl {
        with_impl(&cfg, input)
    } else if input.kind == Kind::Trait {
        with_trait(&cfg, input)
    } else {
        Err(Error::Shape(Shape::NotADeclaration))
    }
}

} // verus!
