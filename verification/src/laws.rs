//! What holds of the engine as a whole.

use crate::bindings::{
    bears_marker, first_marked, is_marked, is_marker_attr, rebound, rebound_parts, NESTING_LIMIT,
};
use crate::passes::{seen, seen_parts, Pass};
use crate::config::Settings;
use crate::declaration::{has_borrowed_receiver, Decl};
use crate::error::Error;
use crate::lifetimes::{ambiguous, candidate_scopes, output_elisions, single_scope, unelided, unelided_output};
use crate::syntax::{Kind, Tree};
use crate::engine::{decl_of, is_fn, member_config, rewritten_member, stripped};
use crate::transform::{applies, fn_node, result_type, rewritten_decl, transformed, Enclosing};
use vstd::prelude::*;

verus! {

/// Whether a tree holds nothing for the rewriting of bindings to do: outside
/// its items there is no marker attribute, and no block has a marked binding
/// among its statements.
pub open spec fn unmarked(t: Tree, marker: Seq<char>) -> bool
    decreases t,
{
    if t.kind == Kind::Item || t.kind == Kind::Sibling {
        true
    } else if t.kind == Kind::Attr {
        !is_marker_attr(t)
    } else {
        &&& t.kind == Kind::Block ==> forall|i: int|
            0 <= i < t.parts.len() ==> !is_marked(#[trigger] t.parts[i], marker)
        &&& forall|i: int| 0 <= i < t.parts.len() ==> unmarked(#[trigger] t.parts[i], marker)
    }
}

/// Among statements of which none is marked, there is no first marked one.
pub proof fn lemma_none_marked(stmts: Seq<Tree>, marker: Seq<char>, from: nat)
    requires
        forall|i: int| 0 <= i < stmts.len() ==> !is_marked(#[trigger] stmts[i], marker),
    ensures
        first_marked(stmts, marker, from) is None,
    decreases stmts.len() - from,
{
    if from < stmts.len() {
        lemma_none_marked(stmts, marker, from + 1);
    }
}

/// The rewriting of bindings leaves the first `n` parts of an unmarked tree
/// as they are.
pub proof fn lemma_unmarked_parts(t: Tree, marker: Seq<char>, erased: bool, fuel: nat, n: nat)
    requires
        n <= t.parts.len(),
        forall|i: int| 0 <= i < t.parts.len() ==> unmarked(#[trigger] t.parts[i], marker),
    ensures
        rebound_parts(t, marker, erased, fuel, n) == Ok::<Seq<Tree>, Error>(t.parts.take(n as int)),
    decreases t, 0nat, n,
{
    if n == 0 {
        assert(t.parts.take(0) =~= Seq::<Tree>::empty());
    } else {
        lemma_unmarked_parts(t, marker, erased, fuel, (n - 1) as nat);
        law_unmarked_is_left_alone(t.parts[n - 1], marker, erased, fuel);
        assert(t.parts.take(n - 1).push(t.parts[n - 1]) =~= t.parts.take(n as int));
    }
}

/// The rewriting of bindings returns an unmarked tree as it is, whatever the
/// mode and however deep it may nest.
pub proof fn law_unmarked_is_left_alone(t: Tree, marker: Seq<char>, erased: bool, fuel: nat)
    requires
        unmarked(t, marker),
    ensures
        rebound(t, marker, erased, fuel) == Ok::<Tree, Error>(t),
    decreases t, 1nat, 0nat,
{
    if t.kind == Kind::Item || t.kind == Kind::Sibling || t.kind == Kind::Attr {
    } else {
        if t.kind == Kind::Block {
            lemma_none_marked(t.parts, marker, 0);
        }
        lemma_unmarked_parts(t, marker, erased, fuel, t.parts.len());
        assert(t.parts.take(t.parts.len() as int) =~= t.parts);
    }
}

/// Whether a declaration holds no occurrence of the marker that the engine
/// would act on: its return type does not name the marker scope, and its body
/// is unmarked.
pub open spec fn holds_no_marker(d: Decl, cfg: Settings) -> bool {
    &&& !applies(d, cfg)
    &&& d.body is Some ==> unmarked(d.body->0, cfg.lifetime)
}

/// A declaration that holds no occurrence of the marker is returned as it
/// is.
pub proof fn law_without_marker_unchanged(d: Decl, cfg: Settings, scope: Enclosing)
    requires
        holds_no_marker(d, cfg),
    ensures
        rewritten_decl(d, cfg, scope) == Ok::<Decl, Error>(d),
{
    reveal(transformed);
    reveal(rewritten_decl);
    if d.body is Some {
        law_unmarked_is_left_alone(
            d.body->0,
            cfg.lifetime,
            cfg.dyn_safe && cfg.recursive,
            NESTING_LIMIT as nat,
        );
    }
}

/// A method of a rewritten block that holds no occurrence of the marker is
/// returned as it is, but for its marker attribute, which is taken off.
pub proof fn law_member_without_marker(t: Tree, outer: Settings, scope: Enclosing)
    requires
        is_fn(t),
        member_config(decl_of(t).attrs, outer) is Ok,
        holds_no_marker(
            Decl { attrs: stripped(decl_of(t).attrs), ..decl_of(t) },
            member_config(decl_of(t).attrs, outer)->Ok_0,
        ),
    ensures
        rewritten_member(t, outer, scope) == Ok::<Tree, Error>(
            fn_node(Decl { attrs: stripped(decl_of(t).attrs), ..decl_of(t) }),
        ),
{
    reveal(rewritten_member);
    law_without_marker_unchanged(
        Decl { attrs: stripped(decl_of(t).attrs), ..decl_of(t) },
        member_config(decl_of(t).attrs, outer)->Ok_0,
        scope,
    );
}

/// Running the engine again on what it returned for a declaration that holds
/// no occurrence of the marker changes nothing.
pub proof fn law_rerun_changes_nothing(d: Decl, cfg: Settings, scope: Enclosing)
    requires
        holds_no_marker(d, cfg),
    ensures
        rewritten_decl(d, cfg, scope) is Ok,
        rewritten_decl(rewritten_decl(d, cfg, scope)->Ok_0, cfg, scope) == rewritten_decl(
            d,
            cfg,
            scope,
        ),
{
    law_without_marker_unchanged(d, cfg, scope);
}

/// Where the return type names the marker, the signature that comes out
/// does not: its return type is the continuation's result.
pub proof fn law_marker_leaves_signature(d: Decl, cfg: Settings, scope: Enclosing)
    requires
        applies(d, cfg),
        transformed(d, cfg, scope) is Ok,
    ensures
        transformed(d, cfg, scope)->Ok_0.output == Some(result_type(cfg)),
        !applies(transformed(d, cfg, scope)->Ok_0, cfg),
{
    reveal(transformed);
    let out = result_type(cfg);
    assert(out.parts.len() == 0);
    let hits = seen(out, Pass::Erase);
    assert(seen_parts(out, Pass::Erase, 0) =~= Seq::empty());
    assert(hits.len() == 1);
    assert(hits[0].kind == out.kind);
    assert(!bears_marker(out, cfg.lifetime));
}

/// Without a receiver taken by reference, a return type that leaves a scope
/// to elision is tied to a scope only where the inputs offer exactly one:
/// with none or several the signature is refused, and the error says how
/// many there are.
pub proof fn law_scope_needs_one_candidate(d: Decl)
    requires
        !has_borrowed_receiver(d.params),
        output_elisions(d.output) > 0,
    ensures
        candidate_scopes(d.params) != 1 ==> unelided(d) == Err::<Decl, Error>(
            ambiguous(d.params),
        ),
        candidate_scopes(d.params) == 1 ==> unelided(d) is Ok && unelided(d)->Ok_0.output
            == unelided_output(d.output, single_scope(d.params)),
{
}

/// A declaration whose return type names the marker and leaves a scope to
/// elision, without a receiver taken by reference, is refused by the engine
/// where its inputs offer no scope or several.
pub proof fn law_ambiguous_scope_is_refused(d: Decl, cfg: Settings, scope: Enclosing)
    requires
        applies(d, cfg),
        !has_borrowed_receiver(d.params),
        output_elisions(d.output) > 0,
        candidate_scopes(d.params) != 1,
    ensures
        rewritten_decl(d, cfg, scope) == Err::<Decl, Error>(ambiguous(d.params)),
        rewritten_decl(d, cfg, scope)->Err_0 is ScopeInference,
{
    reveal(transformed);
    reveal(rewritten_decl);
}

} // verus!
