//! Borrow scopes in a signature: which of them the source leaves to elision,
//! which single scope of the inputs the returned borrow is tied to, and the
//! rewriting that writes every elided scope out.

use crate::declaration::{
    has_borrowed_receiver, is_param, is_receiver, view_opt, Decl, Declaration,
};
use crate::error::Error;
use crate::passes::{
    duplicate, duplicate_all, duplicate_opt, is_elided, rewrite, rewritten, scan, seen, seen_all,
    Hit, Pass, Seen,
};
use crate::syntax::{leaf, lemma_parts, node, text_is, views, Kind, Node, Tree};
use vstd::prelude::*;

verus! {

/// The name given to the scopes that the source leaves to elision.
pub open spec fn elided_name() -> Seq<char> {
    "__elided"@
}

/// Whether a hit is a scope that elision reaches.
pub open spec fn is_scope_hit(h: Seen) -> bool {
    h.pass == Pass::Unelide && (h.kind == Kind::Ref || h.kind == Kind::Scope)
}

/// Whether a hit is a scope that the source leaves to elision.
pub open spec fn is_elided_hit(h: Seen) -> bool {
    h.pass == Pass::Unelide && is_elided(h.kind, h.text)
}

/// How many scopes there are among the hits.
pub open spec fn scope_count(hits: Seq<Seen>) -> nat
    decreases hits.len(),
{
    if hits.len() == 0 {
        0
    } else {
        scope_count(hits.drop_last()) + if is_scope_hit(hits.last()) {
            1nat
        } else {
            0nat
        }
    }
}

/// How many elided scopes there are among the hits.
pub open spec fn elided_count(hits: Seq<Seen>) -> nat
    decreases hits.len(),
{
    if hits.len() == 0 {
        0
    } else {
        elided_count(hits.drop_last()) + if is_elided_hit(hits.last()) {
            1nat
        } else {
            0nat
        }
    }
}

/// The distinct names of the named scopes among the hits, each where it first
/// occurs.
pub open spec fn named_scopes(hits: Seq<Seen>) -> Seq<Seq<char>>
    decreases hits.len(),
{
    if hits.len() == 0 {
        Seq::empty()
    } else {
        let before = named_scopes(hits.drop_last());
        let h = hits.last();
        if is_scope_hit(h) && !is_elided_hit(h) && !before.contains(h.text) {
            before.push(h.text)
        } else {
            before
        }
    }
}

/// The scopes that elision reaches in the type of a parameter.
pub open spec fn type_hits(p: Tree) -> Seq<Seen> {
    if is_param(p) {
        seen(p.parts[1], Pass::Unelide)
    } else {
        Seq::empty()
    }
}

/// The scopes that elision reaches in the types of the first `n` parameters.
pub open spec fn param_hits(params: Seq<Tree>, n: nat) -> Seq<Seen>
    decreases n,
{
    if n == 0 || n > params.len() {
        Seq::empty()
    } else {
        param_hits(params, (n - 1) as nat) + type_hits(params[n - 1])
    }
}

/// A parameter with every elided scope of its type written out.
pub open spec fn unelided_param(p: Tree) -> Tree {
    if is_param(p) {
        node(
            Kind::Param,
            p.text,
            seq![p.parts[0], rewritten(p.parts[1], Pass::Unelide, elided_name())],
        )
    } else {
        p
    }
}

/// A return type with every elided scope tied to `name`.
pub open spec fn unelided_output(output: Option<Tree>, name: Seq<char>) -> Option<Tree> {
    match output {
        Some(o) => Some(rewritten(o, Pass::Unelide, name)),
        None => None,
    }
}

/// How many scopes the return type leaves to elision.
pub open spec fn output_elisions(output: Option<Tree>) -> nat {
    match output {
        Some(o) => elided_count(seen(o, Pass::Unelide)),
        None => 0,
    }
}

/// Whether the type of a parameter holds a scope that elision reaches.
pub open spec fn holds_scope(p: Tree) -> bool {
    scope_count(type_hits(p)) > 0
}

/// The place of the first parameter at or after `from` whose type holds a
/// scope; 0 where there is none.
pub open spec fn first_scope(params: Seq<Tree>, from: nat) -> nat
    decreases params.len() - from,
{
    if from >= params.len() {
        0
    } else if holds_scope(params[from as int]) {
        from
    } else {
        first_scope(params, from + 1)
    }
}

/// The place of the last of the first `n` parameters whose type holds a
/// scope; 0 where there is none.
pub open spec fn last_scope(params: Seq<Tree>, n: nat) -> nat
    decreases n,
{
    if n == 0 || n > params.len() {
        0
    } else if holds_scope(params[n - 1]) {
        (n - 1) as nat
    } else {
        last_scope(params, (n - 1) as nat)
    }
}

/// The failure to tie the returned borrow to one scope of the parameters.
pub open spec fn ambiguous(params: Seq<Tree>) -> Error {
    Error::ScopeInference {
        candidates: candidate_scopes(params) as usize,
        first: first_scope(params, 0) as usize,
        last: last_scope(params, params.len()) as usize,
    }
}

/// How many scopes of the inputs a returned borrow could be tied to: each
/// elided one counts, and each distinct name once.
pub open spec fn candidate_scopes(params: Seq<Tree>) -> nat {
    let hits = param_hits(params, params.len());
    elided_count(hits) + named_scopes(hits).len()
}

/// The scope that the returned borrow is tied to where the inputs offer
/// exactly one.
pub open spec fn single_scope(params: Seq<Tree>) -> Seq<char> {
    let named = named_scopes(param_hits(params, params.len()));
    if named.len() == 1 {
        named[0]
    } else {
        elided_name()
    }
}

/// The declaration with the elided scopes of its signature written out, or the
/// reason why the return type's cannot be.
///
/// A receiver taken by reference decides alone: the return type's elided
/// scopes are the receiver's. Otherwise the types of all parameters are
/// searched, and the return type's elided scopes need exactly one candidate.
pub open spec fn unelided(d: Decl) -> Result<Decl, Error> {
    if has_borrowed_receiver(d.params) {
        let r = d.params[0];
        let borrow = r.parts[1];
        if is_elided(Kind::Ref, borrow.text) {
            Ok(
                Decl {
                    generics: d.generics.push(leaf(Kind::Scope, elided_name())),
                    params: d.params.update(
                        0,
                        node(
                            Kind::Param,
                            r.text,
                            seq![r.parts[0], node(Kind::Ref, elided_name(), borrow.parts)],
                        ),
                    ),
                    output: unelided_output(d.output, elided_name()),
                    ..d
                },
            )
        } else {
            Ok(Decl { output: unelided_output(d.output, borrow.text), ..d })
        }
    } else {
        let hits = param_hits(d.params, d.params.len());
        let candidates = candidate_scopes(d.params);
        if output_elisions(d.output) > 0 && candidates != 1 {
            Err(ambiguous(d.params))
        } else {
            Ok(
                Decl {
                    generics: if scope_count(hits) > 0 {
                        d.generics.push(leaf(Kind::Scope, elided_name()))
                    } else {
                        d.generics
                    },
                    params: d.params.map_values(|p: Tree| unelided_param(p)),
                    output: if candidates == 1 {
                        unelided_output(d.output, single_scope(d.params))
                    } else {
                        d.output
                    },
                    ..d
                },
            )
        }
    }
}

/// The views of a list of names.
pub open spec fn names(v: Seq<String>) -> Seq<Seq<char>> {
    v.map_values(|s: String| s@)
}

/// Whether a node is a scope that the source leaves to elision.
pub fn elided(kind: Kind, text: &String) -> (b: bool)
    ensures
        b == is_elided(kind, text@),
{
    proof {
        reveal_strlit("");
        if text@.len() == 0 {
            assert(text@ =~= ""@);
        }
    }
    (kind == Kind::Ref && (text_is(text, "") || text_is(text, "_"))) || (kind == Kind::Scope
        && text_is(text, "_"))
}

/// Whether a name is among the given ones.
fn holds(known: &Vec<String>, name: &String) -> (b: bool)
    ensures
        b == names(known@).contains(name@),
{
    let mut i: usize = 0;
    while i < known.len()
        invariant
            i <= known.len(),
            forall|j: int| 0 <= j < i ==> names(known@)[j] != name@,
        decreases known.len() - i,
    {
        if known[i] == *name {
            assert(names(known@)[i as int] == name@);
            return true;
        }
        i += 1;
    }
    false
}

/// What a search of the parameters' types found.
pub struct Tally {
    /// How many scopes there are.
    pub scopes: usize,
    /// How many of them are elided.
    pub elided: usize,
    /// The distinct names of the others.
    pub named: Vec<String>,
}

/// Counts the scopes among the hits.
pub fn tally(hits: &Vec<Hit>) -> (r: Tally)
    ensures
        r.scopes == scope_count(seen_all(hits@)),
        r.elided == elided_count(seen_all(hits@)),
        names(r.named@) == named_scopes(seen_all(hits@)),
        r.elided + r.named.len() <= hits.len(),
{
    let ghost all = seen_all(hits@);
    let mut scopes: usize = 0;
    let mut some: usize = 0;
    let mut named: Vec<String> = Vec::new();
    let mut i: usize = 0;
    assert(names(named@) =~= named_scopes(all.take(0)));
    while i < hits.len()
        invariant
            i <= hits.len(),
            all == seen_all(hits@),
            scopes == scope_count(all.take(i as int)),
            some == elided_count(all.take(i as int)),
            names(named@) == named_scopes(all.take(i as int)),
            scopes <= i,
            some + named.len() <= i,
        decreases hits.len() - i,
    {
        let h = &hits[i];
        proof {
            assert(all.take(i + 1).drop_last() =~= all.take(i as int));
            assert(all.take(i + 1).last() == h@);
        }
        if h.pass == Pass::Unelide && (h.kind == Kind::Ref || h.kind == Kind::Scope) {
            scopes += 1;
            if elided(h.kind, &h.text) {
                some += 1;
            } else if !holds(&named, &h.text) {
                let ghost before = names(named@);
                named.push(h.text.clone());
                assert(names(named@) =~= before.push(h.text@));
            }
        }
        i += 1;
    }
    assert(all.take(hits.len() as int) =~= all);
    Tally { scopes, elided: some, named }
}

/// Replaces each scope that `ty` leaves to elision by the scope `name`. Parts
/// with scope rules of their own are not entered.
pub fn replace_each_lifetime_with(ty: &Node, name: &str) -> (r: Node)
    ensures
        r@ == rewritten(ty@, Pass::Unelide, name@),
{
    rewrite(ty, Pass::Unelide, name)
}

/// Whether a tree is a receiver.
pub fn receives(p: &Node) -> (b: bool)
    ensures
        b == is_receiver(p@),
{
    proof {
        lemma_parts(*p);
    }
    if p.kind == Kind::Param && p.parts.len() == 2 {
        proof {
            lemma_parts(p.parts[0]);
        }
        p.parts[0].kind == Kind::Ident && text_is(&p.parts[0].text, "self")
    } else {
        false
    }
}

/// Writes out the elided scopes of a return type that may be missing.
fn unelide_output(output: &Option<Node>, name: &str) -> (r: Option<Node>)
    ensures
        view_opt(r) == unelided_output(
            view_opt(*output),
            name@,
        ),
{
    match output {
        Some(o) => Some(replace_each_lifetime_with(o, name)),
        None => None,
    }
}

/// Collects the scopes that elision reaches in the parameters' types.
fn search_params(params: &Vec<Node>) -> (hits: Vec<Hit>)
    ensures
        seen_all(hits@) == param_hits(views(params@), params.len() as nat),
{
    let mut hits: Vec<Hit> = Vec::new();
    let mut i: usize = 0;
    assert(seen_all(hits@) =~= param_hits(views(params@), 0));
    while i < params.len()
        invariant
            i <= params.len(),
            seen_all(hits@) == param_hits(views(params@), i as nat),
        decreases params.len() - i,
    {
        let p = &params[i];
        proof {
            lemma_parts(*p);
            assert(views(params@)[i as int] == p@);
        }
        if p.kind == Kind::Param && p.parts.len() == 2 {
            scan(&p.parts[1], Pass::Unelide, &mut hits);
        } else {
            assert(seen_all(hits@) + Seq::<Seen>::empty() =~= seen_all(hits@));
        }
        i += 1;
    }
    hits
}

/// Whether the type of a parameter holds a scope that elision reaches.
fn param_holds_scope(p: &Node) -> (b: bool)
    ensures
        b == holds_scope(p@),
{
    proof {
        lemma_parts(*p);
    }
    if p.kind == Kind::Param && p.parts.len() == 2 {
        let mut hits: Vec<Hit> = Vec::new();
        scan(&p.parts[1], Pass::Unelide, &mut hits);
        assert(seen_all(hits@) =~= seen(p@.parts[1], Pass::Unelide)) by {
            assert(seen_all(Seq::<Hit>::empty()) =~= Seq::<Seen>::empty());
        }
        tally(&hits).scopes > 0
    } else {
        false
    }
}

/// The places of the first and the last parameter whose type holds a scope.
fn scope_span(params: &Vec<Node>) -> (r: (usize, usize))
    ensures
        r.0 == first_scope(views(params@), 0),
        r.1 == last_scope(views(params@), params.len() as nat),
{
    let ghost all = views(params@);
    let mut first: usize = 0;
    let mut found = false;
    let mut i: usize = 0;
    while i < params.len() && !found
        invariant
            i <= params.len(),
            all == views(params@),
            found ==> first == first_scope(all, 0),
            !found ==> first == 0 && first_scope(all, 0) == first_scope(all, i as nat),
        decreases params.len() - i + if found { 0int } else { 1int },
    {
        assert(all[i as int] == params@[i as int]@);
        if param_holds_scope(&params[i]) {
            first = i;
            found = true;
        } else {
            i += 1;
        }
    }
    let mut last: usize = 0;
    let mut seen_last = false;
    let mut n: usize = params.len();
    while n > 0 && !seen_last
        invariant
            n <= params.len(),
            all == views(params@),
            seen_last ==> last == last_scope(all, params.len() as nat),
            !seen_last ==> last == 0 && last_scope(all, params.len() as nat) == last_scope(
                all,
                n as nat,
            ),
        decreases n + if seen_last { 0int } else { 1int },
    {
        assert(all[n - 1] == params@[n - 1]@);
        if param_holds_scope(&params[n - 1]) {
            last = n - 1;
            seen_last = true;
        } else {
            n -= 1;
        }
    }
    (first, last)
}

/// Writes out the elided scopes of every parameter's type.
fn unelide_params(params: &Vec<Node>) -> (r: Vec<Node>)
    ensures
        views(r@) == views(params@).map_values(|p: Tree| unelided_param(p)),
{
    let mut out: Vec<Node> = Vec::new();
    let mut i: usize = 0;
    while i < params.len()
        invariant
            i <= params.len(),
            out@.len() == i,
            forall|j: int| 0 <= j < i ==> (#[trigger] out@[j])@ == unelided_param(params@[j]@),
        decreases params.len() - i,
    {
        let p = &params[i];
        proof {
            lemma_parts(*p);
        }
        if p.kind == Kind::Param && p.parts.len() == 2 {
            let parts: Vec<Node> = vec![
                duplicate(&p.parts[0]),
                replace_each_lifetime_with(&p.parts[1], "__elided"),
            ];
            assert(views(parts@) =~= seq![parts@[0]@, parts@[1]@]);
            out.push(Node::new(Kind::Param, p.text.as_str(), parts));
        } else {
            out.push(duplicate(p));
        }
        i += 1;
    }
    assert(views(out@) =~= views(params@).map_values(|p: Tree| unelided_param(p)));
    out
}

/// Writes out the elided scopes of a signature: those of the return type are
/// tied to the receiver's scope where the receiver is taken by reference, and
/// else to the one scope that the parameters' types offer. Fails where the
/// return type leaves a scope to elision and the parameters offer none or
/// several.
pub fn unelide_lifetimes(decl: &Declaration) -> (r: Result<Declaration, Error>)
    ensures
        r is Ok == unelided(decl@) is Ok,
        r is Ok ==> r->Ok_0@ == unelided(decl@)->Ok_0,
        r is Err ==> r->Err_0 == unelided(decl@)->Err_0,
{
    let attrs = duplicate_all(&decl.attrs);
    let name = decl.name.clone();
    let body = duplicate_opt(&decl.body);
    let mut generics = duplicate_all(&decl.generics);
    if decl.params.len() > 0 && receives(&decl.params[0]) && decl.params[0].parts[1].kind
        == Kind::Ref {
        let r = &decl.params[0];
        let borrow = &r.parts[1];
        proof {
            lemma_parts(*r);
            lemma_parts(*borrow);
        }
        if elided(Kind::Ref, &borrow.text) {
            let ghost before = views(generics@);
            generics.push(Node::leaf(Kind::Scope, "__elided"));
            assert(views(generics@) =~= before.push(leaf(Kind::Scope, elided_name())));
            let referent = duplicate_all(&borrow.parts);
            let parts: Vec<Node> = vec![
                duplicate(&r.parts[0]),
                Node::new(Kind::Ref, "__elided", referent),
            ];
            assert(views(parts@) =~= seq![parts@[0]@, parts@[1]@]);
            let receiver = Node::new(Kind::Param, r.text.as_str(), parts);
            let mut params = duplicate_all(&decl.params);
            assert(views(params@).len() == decl.params.len());
            let ghost copied = views(params@);
            params.remove(0);
            params.insert(0, receiver);
            assert(views(params@) =~= copied.update(0, receiver@));
            let output = unelide_output(&decl.output, "__elided");
            Ok(Declaration { attrs, name, generics, params, output, body })
        } else {
            let params = duplicate_all(&decl.params);
            let output = unelide_output(&decl.output, borrow.text.as_str());
            Ok(Declaration { attrs, name, generics, params, output, body })
        }
    } else {
        proof {
            if decl.params.len() > 0 {
                lemma_parts(decl.params[0]);
            }
        }
        let hits = search_params(&decl.params);
        let found = tally(&hits);
        let candidates = found.elided + found.named.len();
        let mut open: usize = 0;
        if let Some(o) = &decl.output {
            let mut out_hits: Vec<Hit> = Vec::new();
            scan(o, Pass::Unelide, &mut out_hits);
            assert(seen_all(out_hits@) =~= seen(o@, Pass::Unelide)) by {
                assert(seen_all(Seq::<Hit>::empty()) =~= Seq::<Seen>::empty());
            }
            open = tally(&out_hits).elided;
        }
        if open > 0 && candidates != 1 {
            let (first, last) = scope_span(&decl.params);
            return Err(Error::ScopeInference { candidates, first, last });
        }
        if found.scopes > 0 {
            let ghost before = views(generics@);
            generics.push(Node::leaf(Kind::Scope, "__elided"));
            assert(views(generics@) =~= before.push(leaf(Kind::Scope, elided_name())));
        }
        let params = unelide_params(&decl.params);
        let output = if candidates == 1 {
            if found.named.len() == 1 {
                assert(names(found.named@)[0] == found.named@[0]@);
                unelide_output(&decl.output, found.named[0].as_str())
            } else {
                unelide_output(&decl.output, "__elided")
            }
        } else {
            duplicate_opt(&decl.output)
        };
        Ok(Declaration { attrs, name, generics, params, output, body })
    }
}

} // verus!
