//! Rewriting a declaration: its signature takes a continuation in place of
//! returning a borrow of its locals, and its body hands every returned value
//! to that continuation.

use crate::bindings::{
    bears_marker, cps, cps_name, handle_let_bindings, names_scope, rebound, NESTING_LIMIT,
};
use crate::config::{Attrs, Settings};
use crate::declaration::{is_param, is_receiver, view_opt, Decl, Declaration};
use crate::error::Error;
use crate::lifetimes::{receives, unelide_lifetimes, unelided};
use crate::passes::{duplicate, duplicate_all, duplicate_opt, rewrite, rewritten, Pass};
use crate::syntax::{
    absent, block, call, ident, lemma_parts, list, node, verbatim, views, Kind, Node, Tree,
};
use crate::tails::{return_block, returned_block};
use vstd::prelude::*;

verus! {

/// Where a declaration stands.
#[derive(Clone, Copy, PartialEq, Eq, Debug, Structural)]
pub enum Enclosing {
    /// On its own: a free function, or a method whose block is not rewritten.
    Free,
    /// In a trait that is rewritten as a whole.
    Trait,
    /// In an `impl` that is rewritten as a whole.
    Impl,
}

/// The text of a digit.
pub open spec fn digit(d: nat) -> Seq<char> {
    if d == 0 {
        "0"@
    } else if d == 1 {
        "1"@
    } else if d == 2 {
        "2"@
    } else if d == 3 {
        "3"@
    } else if d == 4 {
        "4"@
    } else if d == 5 {
        "5"@
    } else if d == 6 {
        "6"@
    } else if d == 7 {
        "7"@
    } else if d == 8 {
        "8"@
    } else {
        "9"@
    }
}

/// A number in decimal.
pub open spec fn digits(n: nat) -> Seq<char>
    decreases n,
{
    if n < 10 {
        digit(n)
    } else {
        digits(n / 10) + digit(n % 10)
    }
}

/// The name of the `n`-th parameter where its pattern gives none.
pub open spec fn arg_name(n: nat) -> Seq<char> {
    "arg_"@ + digits(n)
}

/// Whether a name begins like those that `arg_name` gives.
pub open spec fn is_arg_like(name: Seq<char>) -> bool {
    name.len() >= 4 && name[0] == 'a' && name[1] == 'r' && name[2] == 'g' && name[3] == '_'
}

/// Whether a parameter binds a plain name that can be passed on as it is.
pub open spec fn is_named(p: Tree) -> bool {
    is_param(p) && p.parts[0].kind == Kind::Ident && !is_arg_like(p.parts[0].text)
}

/// The name by which the `n`-th parameter is passed on.
pub open spec fn forwarded_name(p: Tree, n: nat) -> Seq<char> {
    if is_named(p) {
        p.parts[0].text
    } else {
        arg_name(n)
    }
}

/// The `n`-th parameter, bound to the name by which it is passed on.
pub open spec fn forwarded_param(p: Tree, n: nat) -> Tree {
    if is_param(p) && !is_named(p) {
        node(Kind::Param, p.text, seq![ident(arg_name(n)), p.parts[1]])
    } else {
        p
    }
}

/// Whether any parameter is a receiver.
pub open spec fn takes_self(params: Seq<Tree>) -> bool {
    exists|i: int| 0 <= i < params.len() && is_receiver(#[trigger] params[i])
}

/// The name of the continuation parameter.
pub open spec fn continuation_name(cfg: Settings) -> Seq<char> {
    match cfg.continuation {
        Some(n) => n,
        None => "__continuation__"@,
    }
}

/// The type that the rewritten declaration returns: whatever the
/// continuation returns, or a fixed type where the continuation is type-erased.
pub open spec fn result_type(cfg: Settings) -> Tree {
    if cfg.dyn_safe {
        verbatim("::with_locals::runtime::ContinuationReturn"@)
    } else {
        ident("__Continuation_Return__"@)
    }
}

/// The type of the continuation parameter.
pub open spec fn continuation_type(cfg: Settings, yields: Tree) -> Tree {
    if cfg.dyn_safe {
        node(
            Kind::Other,
            "&'_ mut (dyn '_ + ::core::ops::FnMut({}) -> ::with_locals::runtime::ContinuationReturn)"@,
            seq![yields],
        )
    } else {
        ident("__Continuation__"@)
    }
}

/// The generic parameters with those of the continuation behind them: its
/// result, and its type, callable once with what the declaration yields.
pub open spec fn continuation_generics(generics: Seq<Tree>, cfg: Settings, yields: Tree) -> Seq<
    Tree,
> {
    if cfg.dyn_safe {
        generics
    } else {
        generics.push(ident("__Continuation_Return__"@)).push(
            node(
                Kind::Other,
                "__Continuation__: ::core::ops::FnOnce({}) -> __Continuation_Return__"@,
                seq![yields],
            ),
        )
    }
}

/// The attribute that silences the lints which rewritten code trips.
pub open spec fn allow_attr() -> Tree {
    node(
        Kind::Attr,
        "allow"@,
        seq![
            list(
                seq![
                    verbatim(
                        "nonstandard_style, unreachable_code, unused_braces, unused_parens"@,
                    ),
                ],
            ),
        ],
    )
}

/// Whether a declaration is one to rewrite: its return type names the marker.
pub open spec fn applies(d: Decl, cfg: Settings) -> bool {
    d.output is Some && bears_marker(d.output->0, cfg.lifetime)
}

/// The signature in continuation-passing style, where `yields` is the return
/// type without the marker.
pub open spec fn signature(u: Decl, cfg: Settings, yields: Tree) -> Decl {
    Decl {
        attrs: u.attrs.push(allow_attr()),
        name: cps_name(u.name),
        generics: continuation_generics(u.generics, cfg, yields),
        params: u.params.push(
            node(
                Kind::Param,
                Seq::empty(),
                seq![ident(continuation_name(cfg)), continuation_type(cfg, yields)],
            ),
        ),
        output: Some(result_type(cfg)),
        body: None,
    }
}

/// The body with every returned value handed to the continuation. Where the
/// author has named the continuation, calling it is left to the author.
pub open spec fn routed(b: Tree, cfg: Settings) -> Tree {
    if cfg.continuation is None {
        rewritten(returned_block(b), Pass::Exits, "__continuation__"@)
    } else {
        b
    }
}

/// The spelling of the statement that guards the continuation against a
/// second call: it moves into a slot and is taken out to be called.
pub open spec fn guard_text() -> Seq<char> {
    "let mut {} = { let mut {} = ::core::option::Option::Some({}); move |__ret__: {}| { {}.take().expect(\"Fatal `with_locals` error: attempted to call an `FnOnce()` multiple times.\")(__ret__) } };"@
}

/// The spelling of the macro by which an author returns through a named
/// continuation.
pub open spec fn shorthand_text() -> Seq<char> {
    "macro_rules! {} { ($expr:expr) => (return {}($expr)) }"@
}

/// The statements put before the body.
pub open spec fn prologue(cfg: Settings, yields: Tree) -> Seq<Tree> {
    let name = ident(continuation_name(cfg));
    let guard = if cfg.dyn_safe {
        Seq::empty()
    } else {
        seq![node(Kind::Other, guard_text(), seq![name, name, name, yields, name])]
    };
    if cfg.continuation is Some {
        guard.push(node(Kind::Item, shorthand_text(), seq![name, name]))
    } else {
        guard
    }
}

/// A declaration as a tree.
pub open spec fn fn_node(d: Decl) -> Tree {
    node(
        Kind::Fn,
        d.name,
        seq![
            list(d.attrs),
            list(d.generics),
            list(d.params),
            match d.output {
                Some(o) => o,
                None => absent(),
            },
            match d.body {
                Some(b) => b,
                None => absent(),
            },
        ],
    )
}

/// The word for where a declaration stands.
pub open spec fn scope_word(scope: Enclosing) -> Seq<char> {
    match scope {
        Enclosing::Free => "fn"@,
        Enclosing::Trait => "trait"@,
        Enclosing::Impl => "impl"@,
    }
}

/// The spelling of the callback that the twin is given: it hands what it
/// gets to the real continuation and leaves the result in the slot.
pub open spec fn slot_writer_text() -> Seq<char> {
    "&mut |__ret__: {}| -> () { __ret_slot__ = ::core::option::Option::Some({}(__ret__)); }"@
}

/// The type of the twin's callback.
pub open spec fn erased_callback_type(yields: Tree) -> Tree {
    node(
        Kind::Other,
        "&'_ mut (dyn ::core::ops::FnMut({}) -> __Continuation_Return__)"@,
        seq![yields],
    )
}

/// The type-erased twin of a rewritten signature, with the given body: it
/// has the signature's parameters, but for the type of the last one, and its
/// generic parameters, but for the continuation's type.
pub open spec fn twin(sig: Decl, body: Tree, yields: Tree) -> Decl {
    let last = sig.params.last();
    Decl {
        attrs: Seq::empty(),
        name: "__recurse_"@ + sig.name,
        generics: sig.generics.drop_last(),
        params: sig.params.drop_last().push(
            node(Kind::Param, last.text, seq![last.parts[0], erased_callback_type(yields)]),
        ),
        output: sig.output,
        body: Some(body),
    }
}

/// The arguments with which the wrapper calls the twin: its own parameters
/// by name, and the callback that writes the slot in place of the last.
pub open spec fn forwarded_args(params: Seq<Tree>, cfg: Settings, yields: Tree) -> Seq<Tree> {
    Seq::new(
        params.len(),
        |i: int|
            if i + 1 == params.len() {
                node(Kind::Other, slot_writer_text(), seq![yields, ident(continuation_name(cfg))])
            } else {
                ident(forwarded_name(params[i], i as nat))
            },
    )
}

/// The body of the wrapper: it owns the slot, calls the twin, and returns
/// what the slot then holds.
pub open spec fn wrapper_body(
    sig: Decl,
    body: Tree,
    cfg: Settings,
    scope: Enclosing,
    yields: Tree,
) -> Tree {
    let sibling = node(Kind::Sibling, scope_word(scope), seq![fn_node(twin(sig, body, yields))]);
    block(
        seq![
            verbatim("let mut __ret_slot__ = ::core::option::Option::None;"@),
            node(Kind::Item, "type __Continuation_Return__ = ();"@, Seq::empty()),
            node(
                Kind::Other,
                "let () = {};"@,
                seq![call(sibling, forwarded_args(sig.params, cfg, yields))],
            ),
            verbatim(
                "__ret_slot__.expect(\"Fatal `with_locals` error: failed to call the continuation.\")"@,
            ),
        ],
    )
}

/// Whether the declaration is split into a wrapper and a type-erased twin.
pub open spec fn splits(cfg: Settings) -> bool {
    cfg.recursive && !cfg.dyn_safe
}

/// The rewritten signature and body of a declaration that may call itself.
/// Where it is split, the body moves into the twin with its marked bindings
/// rewritten, the parameters get the names by which they are passed on, and
/// the wrapper's body takes the body's place. A method on its own cannot be
/// split.
pub open spec fn unrolled(sig: Decl, body: Tree, cfg: Settings, scope: Enclosing, yields: Tree)
    -> Result<(Decl, Tree), Error> {
    if !splits(cfg) {
        Ok((sig, body))
    } else if scope == Enclosing::Free && takes_self(sig.params) {
        Err(Error::MissingEnclosingTransform)
    } else {
        match rebound(body, cfg.lifetime, false, NESTING_LIMIT as nat) {
            Err(e) => Err(e),
            Ok(inner) => Ok(
                (
                    Decl {
                        params: Seq::new(
                            sig.params.len(),
                            |i: int| forwarded_param(sig.params[i], i as nat),
                        ),
                        ..sig
                    },
                    wrapper_body(sig, inner, cfg, scope, yields),
                ),
            ),
        }
    }
}

/// The declaration in continuation-passing style, or why it cannot be put
/// so. A declaration whose return type does not name the marker is returned
/// as it is. A declaration without a body gets the new signature alone.
#[verifier::opaque]
pub open spec fn transformed(d: Decl, cfg: Settings, scope: Enclosing) -> Result<Decl, Error> {
    if !applies(d, cfg) {
        Ok(d)
    } else {
        match unelided(d) {
            Err(e) => Err(e),
            Ok(u) => {
                let yields = rewritten(u.output->0, Pass::Erase, cfg.lifetime);
                let sig = signature(u, cfg, yields);
                match u.body {
                    None => Ok(sig),
                    Some(b) => match unrolled(sig, routed(b, cfg), cfg, scope, yields) {
                        Err(e) => Err(e),
                        Ok(pair) => Ok(
                            Decl {
                                body: Some(block(prologue(cfg, yields) + seq![pair.1])),
                                ..pair.0
                            },
                        ),
                    },
                }
            },
        }
    }
}

/// Whether an outcome is the one that a specification gives.
pub open spec fn yields_decl(r: Result<Declaration, Error>, s: Result<Decl, Error>) -> bool {
    match (r, s) {
        (Ok(d), Ok(v)) => d@ == v,
        (Err(a), Err(b)) => a == b,
        _ => false,
    }
}

/// The text of a digit.
fn digit_text(d: usize) -> (r: &'static str)
    requires
        d < 10,
    ensures
        r@ == digit(d as nat),
{
    if d == 0 {
        "0"
    } else if d == 1 {
        "1"
    } else if d == 2 {
        "2"
    } else if d == 3 {
        "3"
    } else if d == 4 {
        "4"
    } else if d == 5 {
        "5"
    } else if d == 6 {
        "6"
    } else if d == 7 {
        "7"
    } else if d == 8 {
        "8"
    } else {
        "9"
    }
}

/// A number in decimal.
pub fn decimal(n: usize) -> (r: String)
    ensures
        r@ == digits(n as nat),
    decreases n,
{
    if n < 10 {
        String::from_str(digit_text(n))
    } else {
        decimal(n / 10).concat(digit_text(n % 10))
    }
}

/// The name of the `n`-th parameter where its pattern gives none.
pub fn arg(n: usize) -> (r: String)
    ensures
        r@ == arg_name(n as nat),
{
    let d = decimal(n);
    String::from_str("arg_").concat(d.as_str())
}

/// Whether a name begins like those that `arg` gives.
pub fn arg_like(name: &String) -> (b: bool)
    ensures
        b == is_arg_like(name@),
{
    let s = name.as_str();
    if s.unicode_len() < 4 {
        false
    } else {
        s.get_char(0) == 'a' && s.get_char(1) == 'r' && s.get_char(2) == 'g' && s.get_char(3)
            == '_'
    }
}

/// Whether a parameter binds a plain name that can be passed on as it is.
fn named(p: &Node) -> (b: bool)
    ensures
        b == is_named(p@),
{
    proof {
        lemma_parts(*p);
    }
    if p.kind == Kind::Param && p.parts.len() == 2 {
        proof {
            lemma_parts(p.parts[0]);
        }
        p.parts[0].kind == Kind::Ident && !arg_like(&p.parts[0].text)
    } else {
        false
    }
}

/// Whether any parameter is a receiver.
fn any_receiver(params: &Vec<Node>) -> (b: bool)
    ensures
        b == takes_self(views(params@)),
{
    let mut i: usize = 0;
    while i < params.len()
        invariant
            i <= params.len(),
            forall|j: int| 0 <= j < i ==> !is_receiver(#[trigger] views(params@)[j]),
        decreases params.len() - i,
    {
        if receives(&params[i]) {
            assert(is_receiver(views(params@)[i as int]));
            return true;
        }
        i += 1;
    }
    false
}

/// The name of the continuation parameter.
fn continuation_ident(attrs: &Attrs) -> (r: String)
    ensures
        r@ == continuation_name(attrs@),
{
    match &attrs.continuation {
        Some(n) => n.clone(),
        None => String::from_str("__continuation__"),
    }
}

/// A node with one part.
fn with_one(kind: Kind, text: &str, part: Node) -> (r: Node)
    ensures
        r@ == node(kind, text@, seq![part@]),
{
    let parts: Vec<Node> = vec![part];
    assert(views(parts@) =~= seq![part@]);
    Node::new(kind, text, parts)
}

/// The type of the continuation parameter.
fn make_continuation_type(attrs: &Attrs, yields: &Node) -> (r: Node)
    ensures
        r@ == continuation_type(attrs@, yields@),
{
    if attrs.dyn_safe {
        with_one(
            Kind::Other,
            "&'_ mut (dyn '_ + ::core::ops::FnMut({}) -> ::with_locals::runtime::ContinuationReturn)",
            duplicate(yields),
        )
    } else {
        Node::ident("__Continuation__")
    }
}

/// Builds the signature in continuation-passing style.
fn make_signature(u: Declaration, attrs: &Attrs, yields: &Node) -> (r: Declaration)
    ensures
        r@ == signature(u@, attrs@, yields@),
{
    let Declaration { attrs: a, name, generics, params, output: _, body: _ } = u;
    let mut a = a;
    let mut generics = generics;
    let mut params = params;
    proof {
        reveal_strlit("");
        assert(""@ =~= Seq::<char>::empty());
    }
    let ghost attrs_before = views(a@);
    let lints: Vec<Node> = vec![
        Node::verbatim("nonstandard_style, unreachable_code, unused_braces, unused_parens"),
    ];
    assert(views(lints@) =~= seq![lints@[0]@]);
    let allow = with_one(Kind::Attr, "allow", Node::list(lints));
    a.push(allow);
    assert(views(a@) =~= attrs_before.push(allow_attr()));
    if !attrs.dyn_safe {
        let ghost before = views(generics@);
        let result = Node::ident("__Continuation_Return__");
        let bound = with_one(
            Kind::Other,
            "__Continuation__: ::core::ops::FnOnce({}) -> __Continuation_Return__",
            duplicate(yields),
        );
        generics.push(result);
        generics.push(bound);
        assert(views(generics@) =~= before.push(result@).push(bound@));
    }
    let name_text = continuation_ident(attrs);
    let pair: Vec<Node> = vec![
        Node::ident(name_text.as_str()),
        make_continuation_type(attrs, yields),
    ];
    assert(views(pair@) =~= seq![pair@[0]@, pair@[1]@]);
    let ghost params_before = views(params@);
    let taken = Node::new(Kind::Param, "", pair);
    params.push(taken);
    assert(views(params@) =~= params_before.push(taken@));
    let output = if attrs.dyn_safe {
        Node::verbatim("::with_locals::runtime::ContinuationReturn")
    } else {
        Node::ident("__Continuation_Return__")
    };
    Declaration { attrs: a, name: cps(&name), generics, params, output: Some(output), body: None }
}

/// Hands every value that the body returns to the continuation.
fn route(b: &Node, attrs: &Attrs) -> (r: Node)
    ensures
        r@ == routed(b@, attrs@),
{
    if attrs.continuation.is_none() {
        let explicit = return_block(b);
        rewrite(&explicit, Pass::Exits, "__continuation__")
    } else {
        duplicate(b)
    }
}

/// Builds the statements put before the body.
fn make_prologue(attrs: &Attrs, yields: &Node) -> (r: Vec<Node>)
    ensures
        views(r@) == prologue(attrs@, yields@),
{
    let name_text = continuation_ident(attrs);
    let name = name_text.as_str();
    let mut out: Vec<Node> = Vec::new();
    assert(views(out@) =~= Seq::<Tree>::empty());
    if !attrs.dyn_safe {
        let parts: Vec<Node> = vec![
            Node::ident(name),
            Node::ident(name),
            Node::ident(name),
            duplicate(yields),
            Node::ident(name),
        ];
        assert(views(parts@) =~= seq![parts@[0]@, parts@[1]@, parts@[2]@, parts@[3]@, parts@[4]@]);
        let guard = Node::new(
            Kind::Other,
            "let mut {} = { let mut {} = ::core::option::Option::Some({}); move |__ret__: {}| { {}.take().expect(\"Fatal `with_locals` error: attempted to call an `FnOnce()` multiple times.\")(__ret__) } };",
            parts,
        );
        out.push(guard);
        assert(views(out@) =~= seq![guard@]);
    }
    if attrs.continuation.is_some() {
        let ghost before = views(out@);
        let parts: Vec<Node> = vec![Node::ident(name), Node::ident(name)];
        assert(views(parts@) =~= seq![parts@[0]@, parts@[1]@]);
        let shorthand = Node::new(
            Kind::Item,
            "macro_rules! {} { ($expr:expr) => (return {}($expr)) }",
            parts,
        );
        out.push(shorthand);
        assert(views(out@) =~= before.push(shorthand@));
    }
    out
}

/// A part that may be missing, as a tree.
fn or_absent(n: Option<Node>) -> (r: Node)
    ensures
        r@ == (match view_opt(n) {
            Some(t) => t,
            None => absent(),
        }),
{
    match n {
        Some(t) => t,
        None => Node::absent(),
    }
}

/// A declaration as a tree.
pub fn to_node(d: Declaration) -> (r: Node)
    ensures
        r@ == fn_node(d@),
{
    let ghost v = d@;
    let Declaration { attrs, name, generics, params, output, body } = d;
    assert(v.output == view_opt(output) && v.body == view_opt(body));
    let parts: Vec<Node> = vec![
        Node::list(attrs),
        Node::list(generics),
        Node::list(params),
        or_absent(output),
        or_absent(body),
    ];
    assert(views(parts@) =~= seq![parts@[0]@, parts@[1]@, parts@[2]@, parts@[3]@, parts@[4]@]);
    let r = Node::new(Kind::Fn, name.as_str(), parts);
    assert(r@.parts =~= fn_node(v).parts);
    r
}

/// The word for where a declaration stands.
fn word_for(scope: Enclosing) -> (r: &'static str)
    ensures
        r@ == scope_word(scope),
{
    match scope {
        Enclosing::Free => "fn",
        Enclosing::Trait => "trait",
        Enclosing::Impl => "impl",
    }
}

/// Builds the type-erased twin of a rewritten signature.
fn make_twin(sig: &Declaration, body: Node, yields: &Node) -> (r: Declaration)
    requires
        sig.params.len() > 0,
        sig.generics.len() > 0,
        is_param(sig.params@.last()@),
    ensures
        r@ == twin(sig@, body@, yields@),
{
    let mut generics = duplicate_all(&sig.generics);
    let ghost all_generics = views(generics@);
    generics.pop();
    assert(views(generics@) =~= all_generics.drop_last());
    let mut params = duplicate_all(&sig.params);
    let ghost all_params = views(params@);
    params.pop();
    let ghost kept = views(params@);
    assert(kept =~= all_params.drop_last());
    let last = &sig.params[sig.params.len() - 1];
    proof {
        lemma_parts(*last);
        assert(views(sig.params@).last() == last@);
    }
    let pair: Vec<Node> = vec![
        duplicate(&last.parts[0]),
        with_one(
            Kind::Other,
            "&'_ mut (dyn ::core::ops::FnMut({}) -> __Continuation_Return__)",
            duplicate(yields),
        ),
    ];
    assert(views(pair@) =~= seq![pair@[0]@, pair@[1]@]);
    let callback = Node::new(Kind::Param, last.text.as_str(), pair);
    params.push(callback);
    assert(views(params@) =~= kept.push(callback@));
    let attrs: Vec<Node> = Vec::new();
    assert(views(attrs@) =~= Seq::<Tree>::empty());
    Declaration {
        attrs,
        name: String::from_str("__recurse_").concat(sig.name.as_str()),
        generics,
        params,
        output: duplicate_opt(&sig.output),
        body: Some(body),
    }
}

/// Builds the arguments with which the wrapper calls the twin.
fn forward_args(params: &Vec<Node>, attrs: &Attrs, yields: &Node) -> (r: Vec<Node>)
    ensures
        views(r@) == forwarded_args(views(params@), attrs@, yields@),
{
    let mut out: Vec<Node> = Vec::new();
    let mut i: usize = 0;
    let name = continuation_ident(attrs);
    while i < params.len()
        invariant
            i <= params.len(),
            out@.len() == i,
            name@ == continuation_name(attrs@),
            forall|j: int| 0 <= j < i ==> (#[trigger] out@[j])@ == forwarded_args(
                views(params@),
                attrs@,
                yields@,
            )[j],
        decreases params.len() - i,
    {
        let p = &params[i];
        proof {
            lemma_parts(*p);
            assert(views(params@)[i as int] == p@);
        }
        if i + 1 == params.len() {
            let parts: Vec<Node> = vec![duplicate(yields), Node::ident(name.as_str())];
            assert(views(parts@) =~= seq![parts@[0]@, parts@[1]@]);
            out.push(
                Node::new(
                    Kind::Other,
                    "&mut |__ret__: {}| -> () { __ret_slot__ = ::core::option::Option::Some({}(__ret__)); }",
                    parts,
                ),
            );
        } else if named(p) {
            out.push(Node::ident(p.parts[0].text.as_str()));
        } else {
            let a = arg(i);
            out.push(Node::ident(a.as_str()));
        }
        i += 1;
    }
    assert(views(out@) =~= forwarded_args(views(params@), attrs@, yields@));
    out
}

/// Gives each parameter the name by which it is passed on.
fn forward_params(params: &Vec<Node>) -> (r: Vec<Node>)
    ensures
        views(r@) == Seq::new(
            views(params@).len(),
            |i: int| forwarded_param(views(params@)[i], i as nat),
        ),
{
    let mut out: Vec<Node> = Vec::new();
    let mut i: usize = 0;
    while i < params.len()
        invariant
            i <= params.len(),
            out@.len() == i,
            forall|j: int| 0 <= j < i ==> (#[trigger] out@[j])@ == forwarded_param(
                views(params@)[j],
                j as nat,
            ),
        decreases params.len() - i,
    {
        let p = &params[i];
        proof {
            lemma_parts(*p);
            assert(views(params@)[i as int] == p@);
        }
        if p.kind == Kind::Param && p.parts.len() == 2 && !named(p) {
            let a = arg(i);
            let pair: Vec<Node> = vec![Node::ident(a.as_str()), duplicate(&p.parts[1])];
            assert(views(pair@) =~= seq![pair@[0]@, pair@[1]@]);
            out.push(Node::new(Kind::Param, p.text.as_str(), pair));
        } else {
            out.push(duplicate(p));
        }
        i += 1;
    }
    assert(views(out@) =~= Seq::new(
        views(params@).len(),
        |i: int| forwarded_param(views(params@)[i], i as nat),
    ));
    out
}

/// Builds the body of the wrapper.
fn make_wrapper_body(
    sig: &Declaration,
    body: Node,
    attrs: &Attrs,
    scope: Enclosing,
    yields: &Node,
) -> (r: Node)
    requires
        sig.params.len() > 0,
        sig.generics.len() > 0,
        is_param(sig.params@.last()@),
    ensures
        r@ == wrapper_body(sig@, body@, attrs@, scope, yields@),
{
    let inner = to_node(make_twin(sig, body, yields));
    let sibling = with_one(Kind::Sibling, word_for(scope), inner);
    let args = forward_args(&sig.params, attrs, yields);
    let invoke = with_one(Kind::Other, "let () = {};", Node::call(sibling, args));
    let alias = Node::new(Kind::Item, "type __Continuation_Return__ = ();", Vec::new());
    assert(views(Seq::<Node>::empty()) =~= Seq::<Tree>::empty());
    let stmts: Vec<Node> = vec![
        Node::verbatim("let mut __ret_slot__ = ::core::option::Option::None;"),
        alias,
        invoke,
        Node::verbatim(
            "__ret_slot__.expect(\"Fatal `with_locals` error: failed to call the continuation.\")",
        ),
    ];
    assert(views(stmts@) =~= seq![stmts@[0]@, stmts@[1]@, stmts@[2]@, stmts@[3]@]);
    Node::block(stmts)
}

/// Splits a declaration that calls itself into a wrapper and its
/// type-erased twin; any other declaration is handed back as it came.
fn unroll(sig: Declaration, body: Node, attrs: &Attrs, scope: Enclosing, yields: &Node) -> (r:
    Result<(Declaration, Node), Error>)
    requires
        sig.params.len() > 0,
        is_param(sig.params@.last()@),
        !attrs.dyn_safe ==> sig.generics.len() > 0,
    ensures
        match (r, unrolled(sig@, body@, attrs@, scope, yields@)) {
            (Ok(a), Ok(b)) => a.0@ == b.0 && a.1@ == b.1,
            (Err(a), Err(b)) => a == b,
            _ => false,
        },
{
    if !(attrs.recursive && !attrs.dyn_safe) {
        return Ok((sig, body));
    }
    if scope == Enclosing::Free && any_receiver(&sig.params) {
        return Err(Error::MissingEnclosingTransform);
    }
    let plain = Attrs {
        lifetime: attrs.lifetime.clone(),
        continuation: None,
        dyn_safe: false,
        recursive: attrs.recursive,
    };
    let inner = match handle_let_bindings(&body, &plain) {
        Err(e) => {
            return Err(e);
        },
        Ok(b) => b,
    };
    let outer = make_wrapper_body(&sig, inner, attrs, scope, yields);
    let params = forward_params(&sig.params);
    let Declaration { attrs: a, name, generics, params: _, output, body: b } = sig;
    Ok((Declaration { attrs: a, name, generics, params, output, body: b }, outer))
}

/// Puts a declaration whose return type names the marker into
/// continuation-passing style: the scopes of its signature are written out,
/// it takes a continuation as its last parameter and returns what the
/// continuation returns, its name gets the prefix `with_`, and its body hands
/// every returned value to the continuation. Any other declaration is handed
/// back as it came.
pub fn handle_returning_locals(decl: &Declaration, attrs: &Attrs, scope: Enclosing) -> (r: Result<
    Declaration,
    Error,
>)
    ensures
        yields_decl(r, transformed(decl@, attrs@, scope)),
{
    reveal(transformed);
    let marker = attrs.lifetime.as_str();
    let applies = match &decl.output {
        Some(o) => names_scope(o, marker),
        None => false,
    };
    if !applies {
        return Ok(
            Declaration {
                attrs: duplicate_all(&decl.attrs),
                name: decl.name.clone(),
                generics: duplicate_all(&decl.generics),
                params: duplicate_all(&decl.params),
                output: duplicate_opt(&decl.output),
                body: duplicate_opt(&decl.body),
            },
        );
    }
    let u = match unelide_lifetimes(decl) {
        Err(e) => {
            return Err(e);
        },
        Ok(u) => u,
    };
    let yields = match &u.output {
        Some(o) => rewrite(o, Pass::Erase, marker),
        None => Node::absent(),
    };
    let body = duplicate_opt(&u.body);
    let sig = make_signature(u, attrs, &yields);
    match body {
        None => Ok(sig),
        Some(b) => {
            let routed = route(&b, attrs);
            proof {
                let params = sig.params@;
                assert(views(params).last() == params.last()@);
            }
            match unroll(sig, routed, attrs, scope, &yields) {
                Err(e) => Err(e),
                Ok(pair) => {
                    let (sig, inner) = pair;
                    let mut stmts = make_prologue(attrs, &yields);
                    let ghost before = views(stmts@);
                    stmts.push(inner);
                    assert(views(stmts@) =~= before + seq![inner@]);
                    let Declaration { attrs: a, name, generics, params, output, body: _ } = sig;
                    Ok(
                        Declaration {
                            attrs: a,
                            name,
                            generics,
                            params,
                            output,
                            body: Some(Node::block(stmts)),
                        },
                    )
                },
            }
        },
    }
}

/// Rewrites one declaration: first its signature and what its body returns,
/// then the marked bindings of its body.
pub fn handle_fn_like(attrs: &Attrs, decl: &Declaration, scope: Enclosing) -> (r: Result<
    Declaration,
    Error,
>)
    ensures
        yields_decl(r, rewritten_decl(decl@, attrs@, scope)),
{
    reveal(rewritten_decl);
    let d = match handle_returning_locals(decl, attrs, scope) {
        Err(e) => {
            return Err(e);
        },
        Ok(d) => d,
    };
    let Declaration { attrs: a, name, generics, params, output, body } = d;
    let body = match body {
        None => None,
        Some(b) => match handle_let_bindings(&b, attrs) {
            Err(e) => {
                return Err(e);
            },
            Ok(b) => Some(b),
        },
    };
    Ok(Declaration { attrs: a, name, generics, params, output, body })
}

/// The declaration as the engine leaves it: in continuation-passing style
/// where its return type names the marker, and with the marked bindings of
/// its body turned into calls with continuations.
#[verifier::opaque]
pub open spec fn rewritten_decl(d: Decl, cfg: Settings, scope: Enclosing) -> Result<Decl, Error> {
    match transformed(d, cfg, scope) {
        Err(e) => Err(e),
        Ok(t) => match t.body {
            None => Ok(t),
            Some(b) => match rebound(
                b,
                cfg.lifetime,
                cfg.dyn_safe && cfg.recursive,
                NESTING_LIMIT as nat,
            ) {
                Err(e) => Err(e),
                Ok(b) => Ok(Decl { body: Some(b), ..t }),
            },
        },
    }
}

} // verus!
