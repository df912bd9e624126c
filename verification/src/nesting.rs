//! Marked bindings that follow one another in a block: each nests inside the
//! continuation of the one before it.

use crate::bindings::{
    bears_marker, call_site, continuation, extended, first_marked, has_marker_attr, is_let,
    is_marked, is_marker_attr, mode_after, rebound, rebound_parts, retargeted, shape_fault,
    site_for, split_at,
};
use crate::config::binding_mode_of;
use crate::control_flow::{
    any_continue, any_early, any_labelled, encoded, eval_constructor, is_continue, is_early,
    is_labelled, last_break, leaves_loop, unreachable_handler, Encoded,
};
use crate::error::Error;
use crate::laws::{law_unmarked_is_left_alone, unmarked};
use crate::passes::{
    inner, rewritten, rewritten_all, rewritten_parts, seen, seen_list, seen_parts, Pass, Seen,
};
use crate::syntax::{block, call1, list, node, Kind, Tree};
use vstd::prelude::*;

verus! {

/// Whether a pass that encodes exits finds none in a tree: no `return` and no
/// `?` outside closures and items, and no `break` or `continue` outside the
/// tree's own iteration constructs.
pub open spec fn exit_free(t: Tree, pass: Pass) -> bool
    decreases t,
{
    &&& pass == Pass::Keep || pass == Pass::Encode || pass == Pass::EncodeNested
    &&& pass != Pass::Keep ==> t.kind != Kind::Return && t.kind != Kind::Try
    &&& pass == Pass::Encode ==> t.kind != Kind::Break && t.kind != Kind::Continue
    &&& forall|i: int|
        0 <= i < t.parts.len() ==> exit_free(#[trigger] t.parts[i], inner(pass, t.kind))
}

/// Encoding the exits of a tree that has none returns the tree.
pub proof fn lemma_exit_free_unchanged(t: Tree, pass: Pass, name: Seq<char>)
    requires
        exit_free(t, pass),
    ensures
        rewritten(t, pass, name) == t,
    decreases t,
{
    assert forall|i: int| 0 <= i < t.parts.len() implies rewritten(
        #[trigger] t.parts[i],
        inner(pass, t.kind),
        name,
    ) == t.parts[i] by {
        lemma_exit_free_unchanged(t.parts[i], inner(pass, t.kind), name);
    }
    assert(rewritten_parts(t, pass, name) =~= t.parts);
}

/// Whether a hit is no exit that the encoding would act on.
pub open spec fn is_quiet(h: Seen) -> bool {
    !is_early(h) && !leaves_loop(h)
}

/// Whether none of the hits is an exit.
pub open spec fn all_quiet(hits: Seq<Seen>) -> bool {
    forall|i: int| 0 <= i < hits.len() ==> is_quiet(#[trigger] hits[i])
}

/// Hits without exits, followed by more of them, are hits without exits.
pub proof fn lemma_quiet_concat(a: Seq<Seen>, b: Seq<Seen>)
    requires
        all_quiet(a),
        all_quiet(b),
    ensures
        all_quiet(a + b),
{
    assert forall|i: int| 0 <= i < (a + b).len() implies is_quiet(#[trigger] (a + b)[i]) by {
        if i < a.len() {
            assert((a + b)[i] == a[i]);
        } else {
            assert((a + b)[i] == b[i - a.len()]);
        }
    }
}

/// A pass meets no exit in the first `n` parts of a tree that has none.
pub proof fn lemma_quiet_parts(t: Tree, pass: Pass, n: nat)
    requires
        exit_free(t, pass),
        n <= t.parts.len(),
    ensures
        all_quiet(seen_parts(t, pass, n)),
    decreases t, n,
{
    if n > 0 {
        lemma_quiet_parts(t, pass, (n - 1) as nat);
        lemma_quiet(t.parts[n - 1], inner(pass, t.kind));
        lemma_quiet_concat(
            seen_parts(t, pass, (n - 1) as nat),
            seen(t.parts[n - 1], inner(pass, t.kind)),
        );
    }
}

/// A pass meets no exit in a tree that has none.
pub proof fn lemma_quiet(t: Tree, pass: Pass)
    requires
        exit_free(t, pass),
    ensures
        all_quiet(seen(t, pass)),
    decreases t, t.parts.len() + 1,
{
    lemma_quiet_parts(t, pass, t.parts.len());
    let own = seq![Seen { pass, kind: t.kind, text: t.text, arity: t.parts.len() }];
    assert(all_quiet(own));
    lemma_quiet_concat(own, seen_parts(t, pass, t.parts.len()));
}

/// The encoding meets no exit in the first `n` of statements that have none.
pub proof fn lemma_quiet_list(ts: Seq<Tree>, n: nat)
    requires
        forall|i: int| 0 <= i < ts.len() ==> exit_free(#[trigger] ts[i], Pass::Encode),
        n <= ts.len(),
    ensures
        all_quiet(seen_list(ts, Pass::Encode, n)),
    decreases n,
{
    if n > 0 {
        lemma_quiet_list(ts, (n - 1) as nat);
        lemma_quiet(ts[n - 1], Pass::Encode);
        lemma_quiet_concat(
            seen_list(ts, Pass::Encode, (n - 1) as nat),
            seen(ts[n - 1], Pass::Encode),
        );
    }
}

/// Among hits of which none is an exit, there is no last `break`.
pub proof fn lemma_no_break(hits: Seq<Seen>)
    requires
        all_quiet(hits),
    ensures
        last_break(hits) is None,
    decreases hits.len(),
{
    if hits.len() > 0 {
        assert(is_quiet(hits[hits.len() - 1]));
        lemma_no_break(hits.drop_last());
    }
}

/// The handlers of a continuation that never asks for an exit.
pub open spec fn quiet_handlers(body: Tree) -> Encoded {
    Encoded {
        closure_body: body,
        wrap_ret: unreachable_handler(),
        wrap_break: unreachable_handler(),
        wrap_continue: unreachable_handler(),
    }
}

/// The body of a continuation that runs the statements as they are.
pub open spec fn quiet_body(stmts: Seq<Tree>) -> Tree {
    call1(eval_constructor(false, false, false), block(stmts))
}

/// Statements without exits are moved into a continuation as they are, and
/// every tag but that of their value is unreachable.
pub proof fn lemma_encoded_quiet(stmts: Seq<Tree>)
    requires
        forall|i: int| 0 <= i < stmts.len() ==> exit_free(#[trigger] stmts[i], Pass::Encode),
    ensures
        encoded(stmts) == Ok::<Encoded, Error>(quiet_handlers(quiet_body(stmts))),
{
    let hits = seen_list(stmts, Pass::Encode, stmts.len());
    lemma_quiet_list(stmts, stmts.len());
    lemma_no_break(hits);
    assert(!any_labelled(hits)) by {
        if any_labelled(hits) {
            let i = choose|i: int| 0 <= i < hits.len() && is_labelled(#[trigger] hits[i]);
            assert(is_quiet(hits[i]));
        }
    }
    assert(!any_early(hits)) by {
        if any_early(hits) {
            let i = choose|i: int| 0 <= i < hits.len() && is_early(#[trigger] hits[i]);
            assert(is_quiet(hits[i]));
        }
    }
    assert(!any_continue(hits)) by {
        if any_continue(hits) {
            let i = choose|i: int|
                0 <= i < hits.len() && is_continue(#[trigger] hits[i]);
            assert(is_quiet(hits[i]));
        }
    }
    assert forall|i: int| 0 <= i < stmts.len() implies rewritten(
        #[trigger] stmts[i],
        Pass::Encode,
        Seq::empty(),
    ) == stmts[i] by {
        lemma_exit_free_unchanged(stmts[i], Pass::Encode, Seq::empty());
    }
    assert(rewritten_all(stmts, Pass::Encode, Seq::empty()) =~= stmts);
}

/// Where the rewriting of bindings changes one part of a tree and leaves the
/// others, it changes the tree in that part alone.
pub proof fn lemma_one_part_changes(
    t: Tree,
    marker: Seq<char>,
    erased: bool,
    fuel: nat,
    at: int,
    new: Tree,
)
    requires
        t.kind != Kind::Item && t.kind != Kind::Sibling && t.kind != Kind::Attr && t.kind
            != Kind::Block,
        0 <= at < t.parts.len(),
        rebound(t.parts[at], marker, erased, fuel) == Ok::<Tree, Error>(new),
        forall|i: int| 0 <= i < t.parts.len() && i != at ==> unmarked(#[trigger] t.parts[i], marker),
    ensures
        rebound(t, marker, erased, fuel) == Ok::<Tree, Error>(
            node(t.kind, t.text, t.parts.update(at, new)),
        ),
{
    lemma_parts_with_one_change(t, marker, erased, fuel, at, new, t.parts.len());
    assert(t.parts.update(at, new).take(t.parts.len() as int) =~= t.parts.update(at, new));
}

/// The same of the first `n` parts.
pub proof fn lemma_parts_with_one_change(
    t: Tree,
    marker: Seq<char>,
    erased: bool,
    fuel: nat,
    at: int,
    new: Tree,
    n: nat,
)
    requires
        0 <= at < t.parts.len(),
        n <= t.parts.len(),
        rebound(t.parts[at], marker, erased, fuel) == Ok::<Tree, Error>(new),
        forall|i: int| 0 <= i < t.parts.len() && i != at ==> unmarked(#[trigger] t.parts[i], marker),
    ensures
        rebound_parts(t, marker, erased, fuel, n) == Ok::<Seq<Tree>, Error>(
            t.parts.update(at, new).take(n as int),
        ),
    decreases n,
{
    let changed = t.parts.update(at, new);
    if n == 0 {
        assert(changed.take(0) =~= Seq::<Tree>::empty());
    } else {
        lemma_parts_with_one_change(t, marker, erased, fuel, at, new, (n - 1) as nat);
        if n - 1 != at {
            law_unmarked_is_left_alone(t.parts[n - 1], marker, erased, fuel);
        }
        assert(changed.take(n - 1).push(changed[n - 1]) =~= changed.take(n as int));
    }
}

/// The marker attribute without an argument.
pub open spec fn bare_marker() -> Tree {
    node(Kind::Attr, "with"@, Seq::empty())
}

/// What the continuation of a link binds its argument to: the link's
/// pattern without the marker.
pub open spec fn binding_of(l: Tree, marker: Seq<char>) -> Tree {
    rewritten(l.parts[1], Pass::Erase, marker)
}

/// Whether a statement is a link of a chain: a `let` marked by the bare
/// attribute or by the marker scope in its pattern, whose initializer is a
/// call of a shape that the engine takes, and in which neither the encoding
/// of exits nor the rewriting of bindings finds anything more to do.
pub open spec fn is_link(l: Tree, marker: Seq<char>) -> bool {
    &&& is_let(l)
    &&& l.parts[0] == list(seq![bare_marker()]) || (l.parts[0] == list(Seq::empty())
        && bears_marker(l.parts[1], marker))
    &&& shape_fault(l.parts[2]) is None
    &&& exit_free(l.parts[1], Pass::Encode)
    &&& exit_free(l.parts[2], Pass::Encode)
    &&& unmarked(binding_of(l, marker), marker)
    &&& unmarked(l.parts[2], marker)
}

/// What a chain of links followed by `tail` becomes: the call site of the
/// first link, whose continuation holds the call site of the second, and so
/// on; the continuation of the last link holds the tail.
pub open spec fn nested(links: Seq<Tree>, tail: Seq<Tree>, marker: Seq<char>, erased: bool) -> Tree
    decreases links.len(), 1nat,
{
    if links.len() == 0 {
        block(tail)
    } else {
        link_site(links[0], nested_body(links, tail, marker, erased), marker, erased)
    }
}

/// The call site of a link whose continuation runs the given statements as
/// they are.
pub open spec fn link_site(l: Tree, inside: Seq<Tree>, marker: Seq<char>, erased: bool) -> Tree {
    call_site(
        retargeted(l.parts[2], continuation(binding_of(l, marker), quiet_body(inside), erased)),
        quiet_handlers(quiet_body(inside)),
        erased,
    )
}

/// The statements in the continuation of the first link.
pub open spec fn nested_body(
    links: Seq<Tree>,
    tail: Seq<Tree>,
    marker: Seq<char>,
    erased: bool,
) -> Seq<Tree>
    decreases links.len(), 0nat,
{
    if links.len() <= 1 {
        tail
    } else {
        seq![nested(links.drop_first(), tail, marker, erased)]
    }
}

/// The block that the continuation of a call site runs. Where the
/// continuation is handed over type-erased, the call and the closure each
/// stand inside the syntax that does so.
pub open spec fn body_of(site: Tree, erased: bool) -> Tree {
    let call = if erased {
        site.parts[0].parts[0]
    } else {
        site.parts[0]
    };
    let handed = call.parts.last();
    let closure = if erased {
        handed.parts[0]
    } else {
        handed
    };
    closure.parts[1].parts[2]
}

/// The block that runs `depth` continuations deep, where each continuation
/// above holds one call site.
pub open spec fn body_at(site: Tree, depth: nat, erased: bool) -> Tree
    decreases depth,
{
    if depth <= 1 {
        body_of(site, erased)
    } else {
        body_at(body_of(site, erased).parts[0], (depth - 1) as nat, erased)
    }
}

/// A tree without parts that is no attribute is unmarked.
pub proof fn lemma_leaf_unmarked(t: Tree, marker: Seq<char>)
    requires
        t.parts.len() == 0,
        t.kind != Kind::Attr,
    ensures
        unmarked(t, marker),
{
}

/// A tree that is no block, item or attribute is unmarked where its parts are.
pub proof fn lemma_node_unmarked(t: Tree, marker: Seq<char>)
    requires
        t.kind != Kind::Attr && t.kind != Kind::Block,
        forall|i: int| 0 <= i < t.parts.len() ==> unmarked(#[trigger] t.parts[i], marker),
    ensures
        unmarked(t, marker),
{
}

/// The parts of an unmarked tree that is no item or attribute are unmarked.
pub proof fn lemma_parts_unmarked(t: Tree, marker: Seq<char>)
    requires
        unmarked(t, marker),
        t.kind != Kind::Item && t.kind != Kind::Sibling && t.kind != Kind::Attr,
    ensures
        forall|i: int| 0 <= i < t.parts.len() ==> unmarked(#[trigger] t.parts[i], marker),
{
}

/// Type arguments stay unmarked when two are left to inference.
pub proof fn lemma_extended_unmarked(type_args: Tree, marker: Seq<char>)
    requires
        unmarked(type_args, marker),
    ensures
        unmarked(extended(type_args), marker),
{
    if type_args.kind == Kind::List {
        lemma_parts_unmarked(type_args, marker);
        let e = extended(type_args);
        assert forall|i: int| 0 <= i < e.parts.len() implies unmarked(
            #[trigger] e.parts[i],
            marker,
        ) by {
            if i >= type_args.parts.len() {
                lemma_leaf_unmarked(e.parts[i], marker);
            } else {
                assert(e.parts[i] == type_args.parts[i]);
            }
        }
        lemma_node_unmarked(e, marker);
    }
}

/// The call that a well-shaped, unmarked call is turned into has the
/// continuation as its last part, and is unmarked in all the others.
pub proof fn lemma_retargeted(c: Tree, k: Tree, marker: Seq<char>)
    requires
        shape_fault(c) is None,
        unmarked(c, marker),
    ensures
        ({
            let r = retargeted(c, k);
            &&& r.kind == Kind::Call || r.kind == Kind::MethodCall
            &&& r.parts.len() == c.parts.len() + 1
            &&& r.parts.last() == k
            &&& forall|i: int| 0 <= i < r.parts.len() - 1 ==> unmarked(#[trigger] r.parts[i], marker)
            &&& forall|other: Tree|
                retargeted(c, other) == node(
                    r.kind,
                    r.text,
                    r.parts.update(r.parts.len() - 1, other),
                )
        }),
{
    let r = retargeted(c, k);
    lemma_parts_unmarked(c, marker);
    if c.kind == Kind::MethodCall {
        lemma_extended_unmarked(c.parts[1], marker);
        assert forall|i: int| 0 <= i < r.parts.len() - 1 implies unmarked(
            #[trigger] r.parts[i],
            marker,
        ) by {
            if i != 1 {
                assert(r.parts[i] == c.parts[i]);
            }
        }
        assert forall|other: Tree|
            retargeted(c, other) == node(
                r.kind,
                r.text,
                r.parts.update(r.parts.len() - 1, other),
            ) by {
            assert(retargeted(c, other).parts =~= r.parts.update(r.parts.len() - 1, other));
        }
    } else {
        let callee = c.parts[1];
        lemma_parts_unmarked(callee, marker);
        lemma_extended_unmarked(callee.parts[1], marker);
        let target = r.parts[1];
        assert forall|i: int| 0 <= i < target.parts.len() implies unmarked(
            #[trigger] target.parts[i],
            marker,
        ) by {
            if i != 1 {
                assert(target.parts[i] == callee.parts[i]);
            }
        }
        lemma_node_unmarked(target, marker);
        assert forall|i: int| 0 <= i < r.parts.len() - 1 implies unmarked(
            #[trigger] r.parts[i],
            marker,
        ) by {
            if i != 1 {
                assert(r.parts[i] == c.parts[i]);
            }
        }
        assert forall|other: Tree|
            retargeted(c, other) == node(
                r.kind,
                r.text,
                r.parts.update(r.parts.len() - 1, other),
            ) by {
            assert(retargeted(c, other).parts =~= r.parts.update(r.parts.len() - 1, other));
        }
    }
}

/// A link holds no exit.
pub proof fn lemma_link_exit_free(l: Tree, marker: Seq<char>)
    requires
        is_link(l, marker),
    ensures
        exit_free(l, Pass::Encode),
{
    let attrs = l.parts[0];
    if attrs.parts.len() == 1 {
        assert(exit_free(attrs.parts[0], Pass::Encode));
    }
    assert(exit_free(attrs, Pass::Encode));
    assert forall|i: int| 0 <= i < l.parts.len() implies exit_free(
        #[trigger] l.parts[i],
        inner(Pass::Encode, l.kind),
    ) by {
        assert(i == 0 || i == 1 || i == 2);
    }
}

/// The rewriting of bindings turns the call site of a link into the same
/// call site around what it makes of the continuation's block.
pub proof fn lemma_site_rewritten(
    l: Tree,
    rest: Seq<Tree>,
    inside: Seq<Tree>,
    marker: Seq<char>,
    erased: bool,
    fuel: nat,
)
    requires
        is_link(l, marker),
        rebound(block(rest), marker, erased, fuel) == Ok::<Tree, Error>(block(inside)),
    ensures
        rebound(link_site(l, rest, marker, erased), marker, erased, fuel) == Ok::<Tree, Error>(
            link_site(l, inside, marker, erased),
        ),
{
    let c = l.parts[2];
    let pattern = binding_of(l, marker);
    let body = quiet_body(rest);
    let body2 = quiet_body(inside);
    // The body: a call of the constructor on the block.
    let ctor = eval_constructor(false, false, false);
    assert forall|i: int| 0 <= i < ctor.parts.len() implies unmarked(
        #[trigger] ctor.parts[i],
        marker,
    ) by {
        lemma_leaf_unmarked(ctor.parts[i], marker);
    }
    lemma_node_unmarked(ctor, marker);
    lemma_leaf_unmarked(body.parts[0], marker);
    assert(body.parts.len() == 3);
    assert(body.parts[1] == ctor);
    assert(body.parts[2] == block(rest));
    lemma_one_part_changes(body, marker, erased, fuel, 2, block(inside));
    assert(body.parts.update(2, block(inside)) =~= body2.parts);
    assert(rebound(body, marker, erased, fuel) == Ok::<Tree, Error>(body2));
    // The closure around it.
    let closure = continuation(pattern, body, false);
    let closure2 = continuation(pattern, body2, false);
    lemma_one_part_changes(closure, marker, erased, fuel, 1, body2);
    assert(closure.parts.update(1, body2) =~= closure2.parts);
    assert(rebound(closure, marker, erased, fuel) == Ok::<Tree, Error>(closure2));
    // The closure as it is handed over.
    let handed = continuation(pattern, body, erased);
    let handed2 = continuation(pattern, body2, erased);
    if erased {
        lemma_one_part_changes(handed, marker, erased, fuel, 0, closure2);
        assert(handed.parts.update(0, closure2) =~= handed2.parts);
    }
    assert(rebound(handed, marker, erased, fuel) == Ok::<Tree, Error>(handed2));
    // The call that is handed the closure.
    let r = retargeted(c, handed);
    lemma_retargeted(c, handed, marker);
    lemma_one_part_changes(r, marker, erased, fuel, r.parts.len() - 1, handed2);
    let r2 = retargeted(c, handed2);
    assert(rebound(r, marker, erased, fuel) == Ok::<Tree, Error>(r2));
    // The match on what the call returns.
    let site = link_site(l, rest, marker, erased);
    let site2 = link_site(l, inside, marker, erased);
    assert(site.parts.len() == 5);
    assert forall|i: int| 0 <= i < site.parts.len() && i != 0 implies unmarked(
        #[trigger] site.parts[i],
        marker,
    ) by {
        let a = site.parts[i];
        assert(a.parts.len() == 2);
        lemma_leaf_unmarked(a.parts[0], marker);
        lemma_leaf_unmarked(a.parts[1], marker);
        lemma_node_unmarked(a, marker);
    }
    let subject = site.parts[0];
    let subject2 = site2.parts[0];
    if erased {
        lemma_one_part_changes(subject, marker, erased, fuel, 0, r2);
        assert(subject.parts.update(0, r2) =~= subject2.parts);
    }
    assert(rebound(subject, marker, erased, fuel) == Ok::<Tree, Error>(subject2));
    lemma_one_part_changes(site, marker, erased, fuel, 0, subject2);
    assert(site.parts.update(0, subject2) =~= site2.parts);
}

/// The block that the continuation of a link's call site runs is the one it
/// was built around.
pub proof fn lemma_body_of_site(l: Tree, inside: Seq<Tree>, marker: Seq<char>, erased: bool)
    requires
        is_link(l, marker),
    ensures
        body_of(link_site(l, inside, marker, erased), erased) == block(inside),
{
    lemma_retargeted(
        l.parts[2],
        continuation(binding_of(l, marker), quiet_body(inside), erased),
        marker,
    );
}

/// Marked bindings that follow one another in a block nest one inside the
/// other: of a block that holds `n` links and then a tail, the rewriting
/// makes one call site, in which the continuations nest exactly `n` deep, and
/// the innermost of them runs the tail's statements as they were, in their
/// order. The tail holds no exit and no marked binding of its own, and the
/// nesting is allowed to go `n` deep.
pub proof fn law_sequential_bindings_nest(
    links: Seq<Tree>,
    tail: Seq<Tree>,
    marker: Seq<char>,
    erased: bool,
    fuel: nat,
)
    requires
        links.len() >= 1,
        forall|i: int| 0 <= i < links.len() ==> is_link(#[trigger] links[i], marker),
        forall|j: int| 0 <= j < tail.len() ==> exit_free(#[trigger] tail[j], Pass::Encode),
        unmarked(block(tail), marker),
        fuel >= links.len(),
    ensures
        rebound(block(links + tail), marker, erased, fuel) == Ok::<Tree, Error>(
            block(seq![nested(links, tail, marker, erased)]),
        ),
        body_at(nested(links, tail, marker, erased), links.len(), erased) == block(tail),
    decreases links.len(),
{
    let stmts = links + tail;
    let t = block(stmts);
    let l = links[0];
    assert(stmts[0] == l);
    let attrs = l.parts[0].parts;
    assert(mode_after(attrs, 0, erased) == Ok::<bool, Error>(erased));
    if attrs.len() == 1 {
        assert(attrs[0] == bare_marker());
        assert(is_marker_attr(attrs[0]));
        assert(has_marker_attr(attrs));
        assert(binding_mode_of(attrs[0]) == Ok::<Option<bool>, Error>(None));
        assert(mode_after(attrs, 1, erased) == Ok::<bool, Error>(erased));
    }
    assert(is_marked(stmts[0], marker));
    assert(first_marked(stmts, marker, 0) == Some(0nat));
    let rest = stmts.subrange(1, stmts.len() as int);
    let s = split_at(stmts, 0, marker);
    assert(s.rest == rest && s.call == l.parts[2] && s.binding == binding_of(l, marker));
    assert forall|i: int| 0 <= i < rest.len() implies exit_free(
        #[trigger] rest[i],
        Pass::Encode,
    ) by {
        if i + 1 < links.len() {
            assert(rest[i] == links[i + 1]);
            lemma_link_exit_free(links[i + 1], marker);
        } else {
            assert(rest[i] == tail[i + 1 - links.len()]);
        }
    }
    lemma_encoded_quiet(rest);
    let site = link_site(l, rest, marker, erased);
    assert(site_for(stmts, 0, marker, erased) == Ok::<Tree, Error>(site));
    let inside = nested_body(links, tail, marker, erased);
    let below = (fuel - 1) as nat;
    if links.len() == 1 {
        assert(rest =~= tail);
        law_unmarked_is_left_alone(block(tail), marker, erased, below);
    } else {
        let others = links.drop_first();
        assert(rest =~= others + tail);
        assert forall|i: int| 0 <= i < others.len() implies is_link(
            #[trigger] others[i],
            marker,
        ) by {
            assert(others[i] == links[i + 1]);
        }
        law_sequential_bindings_nest(others, tail, marker, erased, below);
    }
    lemma_site_rewritten(l, rest, inside, marker, erased, below);
    assert(rebound(site, marker, erased, below) == Ok::<Tree, Error>(
        nested(links, tail, marker, erased),
    ));
    assert(rebound_parts(t, marker, erased, fuel, 0) == Ok::<Seq<Tree>, Error>(Seq::empty()));
    assert(Seq::<Tree>::empty().push(nested(links, tail, marker, erased)) =~= seq![
        nested(links, tail, marker, erased),
    ]);
    lemma_body_of_site(l, inside, marker, erased);
}

/// Where the first `n` parts of a tree are rewritten, there are `n` of them
/// afterwards, each the rewriting of the part in its place.
pub proof fn lemma_parts_one_by_one(t: Tree, marker: Seq<char>, erased: bool, fuel: nat, n: nat)
    requires
        n <= t.parts.len(),
        rebound_parts(t, marker, erased, fuel, n) is Ok,
    ensures
        rebound_parts(t, marker, erased, fuel, n)->Ok_0.len() == n,
        forall|j: int|
            0 <= j < n ==> rebound(#[trigger] t.parts[j], marker, erased, fuel) == Ok::<
                Tree,
                Error,
            >(rebound_parts(t, marker, erased, fuel, n)->Ok_0[j]),
    decreases n,
{
    if n > 0 {
        lemma_parts_one_by_one(t, marker, erased, fuel, (n - 1) as nat);
    }
}

/// A marked binding takes the rest of its block with it: where a block whose
/// first marked binding is its statement `i` is rewritten, the block that
/// comes out has `i + 1` statements. The first `i` are the rewritings of
/// those before the binding, each in its place; the last is the rewriting of
/// the call site, whose continuation was given the binding and every
/// statement after it.
pub proof fn law_binding_takes_the_rest(
    stmts: Seq<Tree>,
    marker: Seq<char>,
    erased: bool,
    fuel: nat,
    i: nat,
)
    requires
        first_marked(stmts, marker, 0) == Some(i),
        rebound(block(stmts), marker, erased, fuel) is Ok,
    ensures
        fuel > 0,
        i < stmts.len(),
        site_for(stmts, i as int, marker, erased) is Ok,
        ({
            let out = rebound(block(stmts), marker, erased, fuel)->Ok_0;
            let site = site_for(stmts, i as int, marker, erased)->Ok_0;
            &&& out.kind == Kind::Block
            &&& out.parts.len() == i + 1
            &&& forall|j: int|
                0 <= j < i ==> rebound(#[trigger] stmts[j], marker, erased, fuel) == Ok::<
                    Tree,
                    Error,
                >(out.parts[j])
            &&& rebound(site, marker, erased, (fuel - 1) as nat) == Ok::<Tree, Error>(
                out.parts[i as int],
            )
        }),
{
    lemma_first_marked_in_range(stmts, marker, 0);
    let t = block(stmts);
    lemma_parts_one_by_one(t, marker, erased, fuel, i);
    let before = rebound_parts(t, marker, erased, fuel, i)->Ok_0;
    let out = rebound(t, marker, erased, fuel)->Ok_0;
    let site = site_for(stmts, i as int, marker, erased)->Ok_0;
    let last = rebound(site, marker, erased, (fuel - 1) as nat)->Ok_0;
    assert(out.parts == before.push(last));
    assert forall|j: int| 0 <= j < i implies rebound(
        #[trigger] stmts[j],
        marker,
        erased,
        fuel,
    ) == Ok::<Tree, Error>(out.parts[j]) by {
        assert(out.parts[j] == before[j]);
    }
}

/// The first marked binding, where there is one, is among the statements.
pub proof fn lemma_first_marked_in_range(stmts: Seq<Tree>, marker: Seq<char>, from: nat)
    requires
        first_marked(stmts, marker, from) is Some,
    ensures
        from <= first_marked(stmts, marker, from)->0 < stmts.len(),
        is_marked(stmts[first_marked(stmts, marker, from)->0 as int], marker),
    decreases stmts.len() - from,
{
    if from < stmts.len() && !is_marked(stmts[from as int], marker) {
        lemma_first_marked_in_range(stmts, marker, from + 1);
    }
}

/// The call site of a link is unmarked where the statements that its
/// continuation runs are.
pub proof fn lemma_site_unmarked(l: Tree, inside: Seq<Tree>, marker: Seq<char>, erased: bool)
    requires
        is_link(l, marker),
        unmarked(block(inside), marker),
    ensures
        unmarked(link_site(l, inside, marker, erased), marker),
{
    let body = quiet_body(inside);
    let ctor = eval_constructor(false, false, false);
    assert forall|i: int| 0 <= i < ctor.parts.len() implies unmarked(
        #[trigger] ctor.parts[i],
        marker,
    ) by {
        lemma_leaf_unmarked(ctor.parts[i], marker);
    }
    lemma_node_unmarked(ctor, marker);
    lemma_leaf_unmarked(body.parts[0], marker);
    assert(body.parts.len() == 3);
    assert(body.parts[1] == ctor);
    assert(body.parts[2] == block(inside));
    lemma_node_unmarked(body, marker);
    let closure = continuation(binding_of(l, marker), body, false);
    assert(closure.parts.len() == 2);
    lemma_node_unmarked(closure, marker);
    let handed = continuation(binding_of(l, marker), body, erased);
    if erased {
        assert(handed.parts.len() == 1 && handed.parts[0] == closure);
        lemma_node_unmarked(handed, marker);
    }
    let r = retargeted(l.parts[2], handed);
    lemma_retargeted(l.parts[2], handed, marker);
    assert forall|i: int| 0 <= i < r.parts.len() implies unmarked(
        #[trigger] r.parts[i],
        marker,
    ) by {
        if i == r.parts.len() - 1 {
            assert(r.parts[i] == handed);
        }
    }
    lemma_node_unmarked(r, marker);
    let site = link_site(l, inside, marker, erased);
    let subject = site.parts[0];
    if erased {
        assert(subject.parts.len() == 1 && subject.parts[0] == r);
        lemma_node_unmarked(subject, marker);
    }
    assert(site.parts.len() == 5);
    assert forall|i: int| 0 <= i < site.parts.len() implies unmarked(
        #[trigger] site.parts[i],
        marker,
    ) by {
        if i != 0 {
            let a = site.parts[i];
            assert(a.parts.len() == 2);
            lemma_leaf_unmarked(a.parts[0], marker);
            lemma_leaf_unmarked(a.parts[1], marker);
            lemma_node_unmarked(a, marker);
        }
    }
    lemma_node_unmarked(site, marker);
}

/// What a chain becomes is unmarked.
pub proof fn lemma_nested_unmarked(
    links: Seq<Tree>,
    tail: Seq<Tree>,
    marker: Seq<char>,
    erased: bool,
)
    requires
        links.len() >= 1,
        forall|i: int| 0 <= i < links.len() ==> is_link(#[trigger] links[i], marker),
        unmarked(block(tail), marker),
    ensures
        unmarked(nested(links, tail, marker, erased), marker),
        unmarked(block(seq![nested(links, tail, marker, erased)]), marker),
    decreases links.len(),
{
    let inside = nested_body(links, tail, marker, erased);
    if links.len() > 1 {
        let others = links.drop_first();
        assert forall|i: int| 0 <= i < others.len() implies is_link(
            #[trigger] others[i],
            marker,
        ) by {
            assert(others[i] == links[i + 1]);
        }
        lemma_nested_unmarked(others, tail, marker, erased);
    }
    lemma_site_unmarked(links[0], inside, marker, erased);
    let out = block(seq![nested(links, tail, marker, erased)]);
    assert(out.parts.len() == 1);
    assert(!is_marked(out.parts[0], marker));
}

/// What the rewriting made of a chain, it leaves alone when it runs again.
pub proof fn law_chain_is_rewritten_once(
    links: Seq<Tree>,
    tail: Seq<Tree>,
    marker: Seq<char>,
    erased: bool,
    fuel: nat,
    again: nat,
)
    requires
        links.len() >= 1,
        forall|i: int| 0 <= i < links.len() ==> is_link(#[trigger] links[i], marker),
        forall|j: int| 0 <= j < tail.len() ==> exit_free(#[trigger] tail[j], Pass::Encode),
        unmarked(block(tail), marker),
        fuel >= links.len(),
    ensures
        rebound(block(links + tail), marker, erased, fuel) is Ok,
        rebound(
            rebound(block(links + tail), marker, erased, fuel)->Ok_0,
            marker,
            erased,
            again,
        ) == rebound(block(links + tail), marker, erased, fuel),
{
    law_sequential_bindings_nest(links, tail, marker, erased, fuel);
    lemma_nested_unmarked(links, tail, marker, erased);
    law_unmarked_is_left_alone(
        block(seq![nested(links, tail, marker, erased)]),
        marker,
        erased,
        again,
    );
}

} // verus!
