//! Marked bindings: a `let` that receives a borrow of the callee's locals
//! cannot outlive the call, so the binding and everything after it in its
//! block move into a closure that the call is given as its continuation.

use crate::config::{binding_mode_of, parse_binding_mode_of, Attrs};
use crate::control_flow::{encoded, wrap_statements_inside_closure_body, Encoded, Wrapped};
use crate::error::{agrees, Error, Shape};
use crate::passes::{
    duplicate, duplicate_all, is_scope_named, rewrite, rewritten, scan, seen, seen_all, Hit, Pass,
    Seen,
};
use crate::syntax::{
    arm, ident, lemma_parts, list, node, text_is, verbatim, views, Kind, Node, Tree,
};
use vstd::prelude::*;

verus! {

/// How deep continuations may nest inside one another: as deep as the machine
/// can count.
pub const NESTING_LIMIT: usize = usize::MAX;

/// Whether a tree is the attribute that marks a binding.
pub open spec fn is_marker_attr(a: Tree) -> bool {
    a.kind == Kind::Attr && a.text == "with"@
}

/// Whether a hit is a scope with the marker's name.
pub open spec fn names_marker(h: Seen, marker: Seq<char>) -> bool {
    is_scope_named(h.kind, h.text, marker)
}

/// Whether the marker occurs as a scope anywhere in a tree.
pub open spec fn bears_marker(t: Tree, marker: Seq<char>) -> bool {
    exists|i: int|
        0 <= i < seen(t, Pass::Erase).len() && names_marker(
            #[trigger] seen(t, Pass::Erase)[i],
            marker,
        )
}

/// Whether any of the attributes is the marker.
pub open spec fn has_marker_attr(attrs: Seq<Tree>) -> bool {
    exists|i: int| 0 <= i < attrs.len() && is_marker_attr(#[trigger] attrs[i])
}

/// Whether a statement is a `let` with its three parts.
pub open spec fn is_let(s: Tree) -> bool {
    s.kind == Kind::Let && s.parts.len() == 3
}

/// Whether a statement is a marked binding: a `let` that carries the marker
/// attribute, or whose pattern names the marker scope.
pub open spec fn is_marked(s: Tree, marker: Seq<char>) -> bool {
    is_let(s) && (has_marker_attr(s.parts[0].parts) || bears_marker(s.parts[1], marker))
}

/// The place of the first marked binding at or after `from`.
pub open spec fn first_marked(stmts: Seq<Tree>, marker: Seq<char>, from: nat) -> Option<nat>
    decreases stmts.len() - from,
{
    if from >= stmts.len() {
        None
    } else if is_marked(stmts[from as int], marker) {
        Some(from)
    } else {
        first_marked(stmts, marker, from + 1)
    }
}

/// Whether the call takes its continuation type-erased, as the first `n`
/// attributes of the binding leave it: each marker attribute that says so
/// overrides what came before.
pub open spec fn mode_after(attrs: Seq<Tree>, n: nat, default: bool) -> Result<bool, Error>
    decreases n,
{
    if n == 0 || n > attrs.len() {
        Ok(default)
    } else {
        match mode_after(attrs, (n - 1) as nat, default) {
            Err(e) => Err(e),
            Ok(mode) => {
                let a = attrs[n - 1];
                if is_marker_attr(a) {
                    match binding_mode_of(a) {
                        Err(e) => Err(e),
                        Ok(Some(b)) => Ok(b),
                        Ok(None) => Ok(mode),
                    }
                } else {
                    Ok(mode)
                }
            },
        }
    }
}

/// The name that stands for the value of a call behind a `?` or a `match`.
pub open spec fn anon() -> Tree {
    ident("__with_locals_anon__"@)
}

/// Whether an initializer is a `?` or a `match` with a subject.
pub open spec fn is_peelable(init: Tree) -> bool {
    (init.kind == Kind::Match || init.kind == Kind::Try) && init.parts.len() >= 1
}

/// A block split at a marked binding.
pub struct Split {
    /// What the continuation binds its argument to.
    pub binding: Tree,
    /// The call that the continuation is handed to.
    pub call: Tree,
    /// The statements that become the continuation's body.
    pub rest: Seq<Tree>,
}

/// Splits the statements at the marked binding at `i`. Where the initializer
/// is a `?` or a `match` on a call, the call's value gets a name, and the
/// initializer with that name in the call's place is bound first thing in the
/// continuation.
pub open spec fn split_at(stmts: Seq<Tree>, i: int, marker: Seq<char>) -> Split {
    let binding = stmts[i];
    let pattern = rewritten(binding.parts[1], Pass::Erase, marker);
    let init = binding.parts[2];
    let rest = stmts.subrange(i + 1, stmts.len() as int);
    if is_peelable(init) {
        Split {
            binding: anon(),
            call: init.parts[0],
            rest: seq![
                node(
                    Kind::Let,
                    Seq::empty(),
                    seq![
                        list(Seq::empty()),
                        pattern,
                        node(init.kind, init.text, init.parts.update(0, anon())),
                    ],
                ),
            ] + rest,
        }
    } else {
        Split { binding: pattern, call: init, rest }
    }
}

/// Whether a tree is a method call with its fixed parts.
pub open spec fn is_method_call(c: Tree) -> bool {
    c.kind == Kind::MethodCall && c.parts.len() >= 3
}

/// Whether a tree is a call with its fixed parts.
pub open spec fn is_plain_call(c: Tree) -> bool {
    c.kind == Kind::Call && c.parts.len() >= 2
}

/// Whether a tree is a path with its two parts.
pub open spec fn is_path(p: Tree) -> bool {
    p.kind == Kind::Path && p.parts.len() == 2
}

/// What is wrong with the shape of a call, if anything.
pub open spec fn shape_fault(c: Tree) -> Option<Shape> {
    if is_method_call(c) {
        if c.parts[0].parts.len() > 0 {
            Some(Shape::AttributesOnCall)
        } else {
            None
        }
    } else if is_plain_call(c) {
        if !is_path(c.parts[1]) {
            Some(Shape::NotAFunctionName)
        } else if c.parts[0].parts.len() > 0 {
            Some(Shape::AttributesOnCall)
        } else {
            None
        }
    } else {
        Some(Shape::NotACall)
    }
}

/// The name of the continuation-passing variant of a function.
pub open spec fn cps_name(name: Seq<char>) -> Seq<char> {
    "with_"@ + name
}

/// Explicit type arguments with two more left to inference, for the result
/// and the continuation; nothing where none are written.
pub open spec fn extended(type_args: Tree) -> Tree {
    if type_args.kind == Kind::List {
        node(
            Kind::List,
            type_args.text,
            type_args.parts.push(verbatim("_"@)).push(verbatim("_"@)),
        )
    } else {
        type_args
    }
}

/// The call to the continuation-passing variant of the callee, with the
/// continuation as its last argument.
pub open spec fn retargeted(c: Tree, continuation: Tree) -> Tree {
    if c.kind == Kind::MethodCall {
        node(
            Kind::MethodCall,
            cps_name(c.text),
            c.parts.update(1, extended(c.parts[1])).push(continuation),
        )
    } else {
        let callee = c.parts[1];
        node(
            Kind::Call,
            c.text,
            c.parts.update(
                1,
                node(
                    Kind::Path,
                    cps_name(callee.text),
                    callee.parts.update(1, extended(callee.parts[1])),
                ),
            ).push(continuation),
        )
    }
}

/// The spelling of a continuation handed over type-erased: the closure runs
/// once and leaves its result in the slot of the call site.
pub open spec fn erased_continuation_text() -> Seq<char> {
    "&mut { let mut closure = ::core::option::Option::Some({}); move |ret| { __with_locals_ret_slot__.replace(closure.take().unwrap()(ret)); ::with_locals::runtime::ContinuationReturn } }"@
}

/// The spelling of a call that takes its continuation type-erased: the call
/// site owns the slot and reads it after the call.
pub open spec fn erased_call_text() -> Seq<char> {
    "{ let mut __with_locals_ret_slot__ = ::core::option::Option::None; { let __with_locals_ret_slot__ = &mut __with_locals_ret_slot__; let _ = {}; } __with_locals_ret_slot__.unwrap() }"@
}

/// The continuation: a closure that binds its argument and runs the body.
pub open spec fn continuation(binding: Tree, body: Tree, erased: bool) -> Tree {
    let closure = node(Kind::Closure, Seq::empty(), seq![binding, body]);
    if erased {
        node(Kind::Other, erased_continuation_text(), seq![closure])
    } else {
        closure
    }
}

/// The statement that replaces a marked binding and all that follows it: the
/// call, and for each tag that the continuation can return what it stands for.
pub open spec fn call_site(call: Tree, handlers: Encoded, erased: bool) -> Tree {
    let subject = if erased {
        node(Kind::Other, erased_call_text(), seq![call])
    } else {
        call
    };
    node(
        Kind::Match,
        Seq::empty(),
        seq![
            subject,
            arm(verbatim("::with_locals::runtime::ControlFlow::Eval(it)"@), ident("it"@)),
            arm(verbatim("::with_locals::runtime::ControlFlow::EarlyReturn(it)"@), handlers.wrap_ret),
            arm(verbatim("::with_locals::runtime::ControlFlow::Break(it)"@), handlers.wrap_break),
            arm(verbatim("::with_locals::runtime::ControlFlow::Continue(it)"@), handlers.wrap_continue),
        ],
    )
}

/// The call site for the marked binding at `i`, or why there is none.
pub open spec fn site_for(stmts: Seq<Tree>, i: int, marker: Seq<char>, default: bool) -> Result<
    Tree,
    Error,
> {
    let binding = stmts[i];
    let attrs = binding.parts[0].parts;
    match mode_after(attrs, attrs.len(), default) {
        Err(e) => Err(e),
        Ok(erased) => if binding.parts[2].kind == Kind::Absent {
            Err(Error::Shape(Shape::MissingInitializer))
        } else {
            let s = split_at(stmts, i, marker);
            match shape_fault(s.call) {
                Some(fault) => Err(Error::Shape(fault)),
                None => match encoded(s.rest) {
                    Err(e) => Err(e),
                    Ok(handlers) => Ok(
                        call_site(
                            retargeted(
                                s.call,
                                continuation(s.binding, handlers.closure_body, erased),
                            ),
                            handlers,
                            erased,
                        ),
                    ),
                },
            }
        },
    }
}

/// A tree with its marked bindings turned into calls with continuations, or
/// the first reason why one cannot be.
///
/// Items are left alone. A marker attribute that is met anywhere else than on
/// a `let` of a block is misplaced. In a block, the first marked binding and
/// the statements after it become one call site, which is then rewritten in
/// turn, so that a second marked binding nests inside the first one's
/// continuation; `fuel` bounds that nesting.
pub open spec fn rebound(t: Tree, marker: Seq<char>, erased: bool, fuel: nat) -> Result<
    Tree,
    Error,
>
    decreases fuel, t, 1nat, 0nat,
{
    if t.kind == Kind::Item || t.kind == Kind::Sibling {
        Ok(t)
    } else if t.kind == Kind::Attr {
        if is_marker_attr(t) {
            Err(Error::Shape(Shape::MisplacedMarker))
        } else {
            Ok(t)
        }
    } else {
        match (if t.kind == Kind::Block {
            first_marked(t.parts, marker, 0)
        } else {
            None
        }) {
            None => match rebound_parts(t, marker, erased, fuel, t.parts.len()) {
                Err(e) => Err(e),
                Ok(parts) => Ok(node(t.kind, t.text, parts)),
            },
            Some(i) => match site_for(t.parts, i as int, marker, erased) {
                Err(e) => Err(e),
                Ok(site) => if fuel == 0 {
                    Err(Error::NestingLimit)
                } else {
                    match rebound_parts(t, marker, erased, fuel, i) {
                        Err(e) => Err(e),
                        Ok(before) => match rebound(site, marker, erased, (fuel - 1) as nat) {
                            Err(e) => Err(e),
                            Ok(s) => Ok(node(t.kind, t.text, before.push(s))),
                        },
                    }
                },
            },
        }
    }
}

/// The first `n` parts of a tree, each rewritten as `rebound` says.
pub open spec fn rebound_parts(
    t: Tree,
    marker: Seq<char>,
    erased: bool,
    fuel: nat,
    n: nat,
) -> Result<Seq<Tree>, Error>
    decreases fuel, t, 0nat, n,
{
    if n == 0 || n > t.parts.len() {
        Ok(Seq::empty())
    } else {
        match rebound_parts(t, marker, erased, fuel, (n - 1) as nat) {
            Err(e) => Err(e),
            Ok(done) => match rebound(t.parts[n - 1], marker, erased, fuel) {
                Err(e) => Err(e),
                Ok(part) => Ok(done.push(part)),
            },
        }
    }
}

/// Whether a tree is the attribute that marks a binding.
pub fn marks(a: &Node) -> (b: bool)
    ensures
        b == is_marker_attr(a@),
{
    proof {
        lemma_parts(*a);
    }
    a.kind == Kind::Attr && text_is(&a.text, "with")
}

/// Whether any of the attributes is the marker.
pub fn any_marks(attrs: &Vec<Node>) -> (b: bool)
    ensures
        b == has_marker_attr(views(attrs@)),
{
    let mut i: usize = 0;
    while i < attrs.len()
        invariant
            i <= attrs.len(),
            forall|j: int| 0 <= j < i ==> !is_marker_attr(#[trigger] views(attrs@)[j]),
        decreases attrs.len() - i,
    {
        if marks(&attrs[i]) {
            assert(is_marker_attr(views(attrs@)[i as int]));
            return true;
        }
        i += 1;
    }
    false
}

/// Whether the marker occurs as a scope anywhere in a tree.
pub fn names_scope(t: &Node, marker: &str) -> (b: bool)
    ensures
        b == bears_marker(t@, marker@),
{
    let mut hits: Vec<Hit> = Vec::new();
    scan(t, Pass::Erase, &mut hits);
    assert(seen_all(hits@) =~= seen(t@, Pass::Erase)) by {
        assert(seen_all(Seq::<Hit>::empty()) =~= Seq::<Seen>::empty());
    }
    let mut i: usize = 0;
    while i < hits.len()
        invariant
            i <= hits.len(),
            seen_all(hits@) == seen(t@, Pass::Erase),
            forall|j: int| 0 <= j < i ==> !names_marker(#[trigger] seen(t@, Pass::Erase)[j], marker@),
        decreases hits.len() - i,
    {
        let h = &hits[i];
        assert(seen_all(hits@)[i as int] == h@);
        if (h.kind == Kind::Ref || h.kind == Kind::Scope) && text_is(&h.text, marker) {
            assert(names_marker(seen(t@, Pass::Erase)[i as int], marker@));
            return true;
        }
        i += 1;
    }
    false
}

/// Whether a statement is a marked binding.
pub fn marked(s: &Node, marker: &str) -> (b: bool)
    ensures
        b == is_marked(s@, marker@),
{
    proof {
        lemma_parts(*s);
    }
    if s.kind == Kind::Let && s.parts.len() == 3 {
        proof {
            lemma_parts(s.parts[0]);
        }
        any_marks(&s.parts[0].parts) || names_scope(&s.parts[1], marker)
    } else {
        false
    }
}

/// The place of the first marked binding among the statements.
pub fn find_marked(stmts: &Vec<Node>, marker: &str) -> (r: Option<usize>)
    ensures
        match r {
            Some(i) => first_marked(views(stmts@), marker@, 0) == Some(i as nat) && i < stmts.len()
                && is_marked(stmts@[i as int]@, marker@),
            None => first_marked(views(stmts@), marker@, 0) is None,
        },
{
    let ghost all = views(stmts@);
    let mut i: usize = 0;
    while i < stmts.len()
        invariant
            i <= stmts.len(),
            all == views(stmts@),
            first_marked(all, marker@, 0) == first_marked(all, marker@, i as nat),
        decreases stmts.len() - i,
    {
        assert(all[i as int] == stmts@[i as int]@);
        if marked(&stmts[i], marker) {
            return Some(i);
        }
        i += 1;
    }
    None
}

/// Whether the call takes its continuation type-erased, as the attributes of
/// the binding leave it.
pub fn mode(attrs: &Vec<Node>, default: bool) -> (r: Result<bool, Error>)
    ensures
        r == mode_after(views(attrs@), attrs.len() as nat, default),
{
    let ghost all = views(attrs@);
    let mut current = default;
    let mut i: usize = 0;
    while i < attrs.len()
        invariant
            i <= attrs.len(),
            all == views(attrs@),
            mode_after(all, i as nat, default) == Ok::<bool, Error>(current),
        decreases attrs.len() - i,
    {
        let a = &attrs[i];
        proof {
            assert(all[i as int] == a@);
            lemma_parts(*a);
        }
        if marks(a) {
            match parse_binding_mode_of(a) {
                Err(e) => {
                    proof {
                        lemma_mode_fails(all, (i + 1) as nat, attrs.len() as nat, default);
                    }
                    return Err(e);
                },
                Ok(Some(b)) => {
                    current = b;
                },
                Ok(None) => {},
            }
        }
        i += 1;
    }
    Ok(current)
}

/// Once the mode fails after `n` attributes it fails after any more.
pub proof fn lemma_mode_fails(attrs: Seq<Tree>, n: nat, m: nat, default: bool)
    requires
        n <= m <= attrs.len(),
        mode_after(attrs, n, default) is Err,
    ensures
        mode_after(attrs, m, default) == mode_after(attrs, n, default),
    decreases m,
{
    if m > n {
        lemma_mode_fails(attrs, n, (m - 1) as nat, default);
    }
}

/// Explicit type arguments with two more left to inference.
fn extend(type_args: &Node) -> (r: Node)
    ensures
        r@ == extended(type_args@),
{
    proof {
        lemma_parts(*type_args);
    }
    if type_args.kind == Kind::List {
        let mut parts = duplicate_all(&type_args.parts);
        let ghost before = views(parts@);
        parts.push(Node::verbatim("_"));
        parts.push(Node::verbatim("_"));
        assert(views(parts@) =~= before.push(verbatim("_"@)).push(verbatim("_"@)));
        Node::new(Kind::List, type_args.text.as_str(), parts)
    } else {
        duplicate(type_args)
    }
}

/// What is wrong with the shape of a call, if anything.
pub fn fault(c: &Node) -> (r: Option<Shape>)
    ensures
        r == shape_fault(c@),
{
    proof {
        lemma_parts(*c);
    }
    if c.kind == Kind::MethodCall && c.parts.len() >= 3 {
        proof {
            lemma_parts(c.parts[0]);
        }
        if c.parts[0].parts.len() > 0 {
            Some(Shape::AttributesOnCall)
        } else {
            None
        }
    } else if c.kind == Kind::Call && c.parts.len() >= 2 {
        proof {
            lemma_parts(c.parts[0]);
            lemma_parts(c.parts[1]);
        }
        if !(c.parts[1].kind == Kind::Path && c.parts[1].parts.len() == 2) {
            Some(Shape::NotAFunctionName)
        } else if c.parts[0].parts.len() > 0 {
            Some(Shape::AttributesOnCall)
        } else {
            None
        }
    } else {
        Some(Shape::NotACall)
    }
}

/// The name of the continuation-passing variant of a function.
pub fn cps(name: &String) -> (r: String)
    ensures
        r@ == cps_name(name@),
{
    String::from_str("with_").concat(name.as_str())
}

/// The call to the continuation-passing variant of the callee, with the
/// continuation as its last argument.
pub fn retarget(c: &Node, continuation: Node) -> (r: Node)
    requires
        shape_fault(c@) is None,
    ensures
        r@ == retargeted(c@, continuation@),
{
    proof {
        lemma_parts(*c);
    }
    let mut parts = duplicate_all(&c.parts);
    let ghost copied = views(parts@);
    assert(copied.len() == c.parts.len());
    if c.kind == Kind::MethodCall {
        let type_args = extend(&c.parts[1]);
        parts.remove(1);
        parts.insert(1, type_args);
        parts.push(continuation);
        assert(views(parts@) =~= copied.update(1, type_args@).push(continuation@));
        let name = cps(&c.text);
        Node::new(Kind::MethodCall, name.as_str(), parts)
    } else {
        let callee = &c.parts[1];
        proof {
            lemma_parts(*callee);
        }
        let mut callee_parts = duplicate_all(&callee.parts);
        let ghost callee_copied = views(callee_parts@);
        assert(callee_copied.len() == 2);
        let type_args = extend(&callee.parts[1]);
        callee_parts.remove(1);
        callee_parts.insert(1, type_args);
        assert(views(callee_parts@) =~= callee_copied.update(1, type_args@));
        let name = cps(&callee.text);
        let target = Node::new(Kind::Path, name.as_str(), callee_parts);
        parts.remove(1);
        parts.insert(1, target);
        parts.push(continuation);
        assert(views(parts@) =~= copied.update(1, target@).push(continuation@));
        Node::new(Kind::Call, c.text.as_str(), parts)
    }
}

/// What `split` hands back.
pub struct Pieces {
    pub binding: Node,
    pub call: Node,
    pub rest: Vec<Node>,
}

impl View for Pieces {
    type V = Split;

    open spec fn view(&self) -> Split {
        Split { binding: self.binding@, call: self.call@, rest: views(self.rest@) }
    }
}

/// Splits the statements at the marked binding at `i`.
pub fn split(stmts: &Vec<Node>, i: usize, marker: &str) -> (r: Pieces)
    requires
        i < stmts.len(),
        is_let(stmts@[i as int]@),
    ensures
        r@ == split_at(views(stmts@), i as int, marker@),
{
    let binding = &stmts[i];
    proof {
        lemma_parts(*binding);
        assert(views(stmts@)[i as int] == binding@);
        reveal_strlit("");
        assert(""@ =~= Seq::<char>::empty());
        assert(views(Seq::<Node>::empty()) =~= Seq::<Tree>::empty());
    }
    let pattern = rewrite(&binding.parts[1], Pass::Erase, marker);
    let init = &binding.parts[2];
    proof {
        lemma_parts(*init);
    }
    let mut rest: Vec<Node> = Vec::new();
    let peel = (init.kind == Kind::Match || init.kind == Kind::Try) && init.parts.len() >= 1;
    let ghost first: Seq<Tree> = Seq::empty();
    let value: Node;
    let call: Node;
    if peel {
        let mut inner = duplicate_all(&init.parts);
        let ghost copied = views(inner@);
        assert(copied.len() == init.parts.len());
        inner.remove(0);
        inner.insert(0, Node::ident("__with_locals_anon__"));
        assert(views(inner@) =~= copied.update(0, anon()));
        let parts: Vec<Node> = vec![
            Node::list(Vec::new()),
            pattern,
            Node::new(init.kind, init.text.as_str(), inner),
        ];
        assert(views(parts@) =~= seq![parts@[0]@, parts@[1]@, parts@[2]@]);
        let again = Node::new(Kind::Let, "", parts);
        proof {
            first = seq![again@];
        }
        rest.push(again);
        value = Node::ident("__with_locals_anon__");
        call = duplicate(&init.parts[0]);
    } else {
        value = pattern;
        call = duplicate(init);
    }
    assert(views(rest@) =~= first);
    let mut j: usize = i + 1;
    while j < stmts.len()
        invariant
            i < j <= stmts.len(),
            views(rest@) == first + views(stmts@).subrange(i + 1, j as int),
        decreases stmts.len() - j,
    {
        let ghost before = views(rest@);
        let s = duplicate(&stmts[j]);
        rest.push(s);
        j += 1;
        assert(views(rest@) =~= first + views(stmts@).subrange(i + 1, j as int)) by {
            assert(views(rest@) =~= before.push(s@));
            assert(views(stmts@)[j - 1] == s@);
        }
    }
    assert(views(rest@) =~= split_at(views(stmts@), i as int, marker@).rest);
    Pieces { binding: value, call, rest }
}

/// The continuation: a closure that binds its argument and runs the body.
fn make_continuation(binding: Node, body: Node, erased: bool) -> (r: Node)
    ensures
        r@ == continuation(binding@, body@, erased),
{
    proof {
        reveal_strlit("");
        assert(""@ =~= Seq::<char>::empty());
    }
    let parts: Vec<Node> = vec![binding, body];
    assert(views(parts@) =~= seq![parts@[0]@, parts@[1]@]);
    let closure = Node::new(Kind::Closure, "", parts);
    if erased {
        let held: Vec<Node> = vec![closure];
        assert(views(held@) =~= seq![held@[0]@]);
        Node::new(
            Kind::Other,
            "&mut { let mut closure = ::core::option::Option::Some({}); move |ret| { __with_locals_ret_slot__.replace(closure.take().unwrap()(ret)); ::with_locals::runtime::ContinuationReturn } }",
            held,
        )
    } else {
        closure
    }
}

/// The statement that replaces a marked binding and all that follows it.
fn make_call_site(call: Node, handlers: Wrapped, erased: bool) -> (r: Node)
    ensures
        r@ == call_site(call@, handlers@, erased),
{
    proof {
        reveal_strlit("");
        assert(""@ =~= Seq::<char>::empty());
    }
    let subject = if erased {
        let held: Vec<Node> = vec![call];
        assert(views(held@) =~= seq![held@[0]@]);
        Node::new(
            Kind::Other,
            "{ let mut __with_locals_ret_slot__ = ::core::option::Option::None; { let __with_locals_ret_slot__ = &mut __with_locals_ret_slot__; let _ = {}; } __with_locals_ret_slot__.unwrap() }",
            held,
        )
    } else {
        call
    };
    let Wrapped { closure_body: _, wrap_ret, wrap_break, wrap_continue } = handlers;
    let parts: Vec<Node> = vec![
        subject,
        Node::arm(Node::verbatim("::with_locals::runtime::ControlFlow::Eval(it)"), Node::ident("it")),
        Node::arm(Node::verbatim("::with_locals::runtime::ControlFlow::EarlyReturn(it)"), wrap_ret),
        Node::arm(Node::verbatim("::with_locals::runtime::ControlFlow::Break(it)"), wrap_break),
        Node::arm(Node::verbatim("::with_locals::runtime::ControlFlow::Continue(it)"), wrap_continue),
    ];
    assert(views(parts@) =~= seq![parts@[0]@, parts@[1]@, parts@[2]@, parts@[3]@, parts@[4]@]);
    Node::new(Kind::Match, "", parts)
}

/// Builds the call site for the marked binding at `i`.
pub fn build_site(stmts: &Vec<Node>, i: usize, marker: &str, default: bool) -> (r: Result<
    Node,
    Error,
>)
    requires
        i < stmts.len(),
        is_let(stmts@[i as int]@),
    ensures
        agrees(r, site_for(views(stmts@), i as int, marker@, default)),
{
    let binding = &stmts[i];
    proof {
        lemma_parts(*binding);
        assert(views(stmts@)[i as int] == binding@);
        lemma_parts(binding.parts[0]);
        lemma_parts(binding.parts[2]);
    }
    let erased = match mode(&binding.parts[0].parts, default) {
        Err(e) => {
            return Err(e);
        },
        Ok(m) => m,
    };
    if binding.parts[2].kind == Kind::Absent {
        return Err(Error::Shape(Shape::MissingInitializer));
    }
    let pieces = split(stmts, i, marker);
    if let Some(f) = fault(&pieces.call) {
        return Err(Error::Shape(f));
    }
    let Pieces { binding: value, call, rest } = pieces;
    let handlers = match wrap_statements_inside_closure_body(&rest) {
        Err(e) => {
            return Err(e);
        },
        Ok(h) => h,
    };
    let body = duplicate(&handlers.closure_body);
    let target = retarget(&call, make_continuation(value, body, erased));
    Ok(make_call_site(target, handlers, erased))
}

/// Once a part fails, the parts up to any later one fail in the same way.
pub proof fn lemma_parts_fail(t: Tree, marker: Seq<char>, erased: bool, fuel: nat, n: nat, m: nat)
    requires
        n <= m <= t.parts.len(),
        rebound_parts(t, marker, erased, fuel, n) is Err,
    ensures
        rebound_parts(t, marker, erased, fuel, m) == rebound_parts(t, marker, erased, fuel, n),
    decreases m,
{
    if m > n {
        lemma_parts_fail(t, marker, erased, fuel, n, (m - 1) as nat);
    }
}

/// Rewrites the first `n` parts of a tree.
fn rewrite_parts(t: &Node, marker: &str, erased: bool, fuel: usize, n: usize) -> (r: Result<
    Vec<Node>,
    Error,
>)
    requires
        n <= t.parts.len(),
    ensures
        match r {
            Ok(v) => rebound_parts(t@, marker@, erased, fuel as nat, n as nat) == Ok::<
                Seq<Tree>,
                Error,
            >(views(v@)),
            Err(e) => rebound_parts(t@, marker@, erased, fuel as nat, n as nat) == Err::<
                Seq<Tree>,
                Error,
            >(e),
        },
    decreases fuel, t, 0nat,
{
    let mut out: Vec<Node> = Vec::new();
    let mut j: usize = 0;
    proof {
        lemma_parts(*t);
        assert(views(out@) =~= Seq::<Tree>::empty());
    }
    while j < n
        invariant
            j <= n <= t.parts.len(),
            t@.parts.len() == t.parts.len(),
            forall|k: int| 0 <= k < t.parts.len() ==> t@.parts[k] == (#[trigger] t.parts[k])@,
            rebound_parts(t@, marker@, erased, fuel as nat, j as nat) == Ok::<Seq<Tree>, Error>(
                views(out@),
            ),
        decreases n - j,
    {
        let ghost done = views(out@);
        match rewrite_bindings(&t.parts[j], marker, erased, fuel) {
            Err(e) => {
                proof {
                    lemma_parts_fail(t@, marker@, erased, fuel as nat, (j + 1) as nat, n as nat);
                }
                return Err(e);
            },
            Ok(part) => {
                out.push(part);
                assert(views(out@) =~= done.push(part@));
            },
        }
        j += 1;
    }
    Ok(out)
}

/// Turns the marked bindings of a tree into calls with continuations, the
/// continuations nesting at most `fuel` deep.
pub fn rewrite_bindings(t: &Node, marker: &str, erased: bool, fuel: usize) -> (r: Result<
    Node,
    Error,
>)
    ensures
        agrees(r, rebound(t@, marker@, erased, fuel as nat)),
    decreases fuel, t, 1nat,
{
    proof {
        lemma_parts(*t);
    }
    if t.kind == Kind::Item || t.kind == Kind::Sibling {
        return Ok(duplicate(t));
    }
    if t.kind == Kind::Attr {
        if marks(t) {
            return Err(Error::Shape(Shape::MisplacedMarker));
        }
        return Ok(duplicate(t));
    }
    let found = if t.kind == Kind::Block {
        find_marked(&t.parts, marker)
    } else {
        None
    };
    match found {
        None => match rewrite_parts(t, marker, erased, fuel, t.parts.len()) {
            Err(e) => Err(e),
            Ok(parts) => Ok(Node::new(t.kind, t.text.as_str(), parts)),
        },
        Some(i) => {
            let site = match build_site(&t.parts, i, marker, erased) {
                Err(e) => {
                    return Err(e);
                },
                Ok(s) => s,
            };
            if fuel == 0 {
                return Err(Error::NestingLimit);
            }
            let mut before = match rewrite_parts(t, marker, erased, fuel, i) {
                Err(e) => {
                    return Err(e);
                },
                Ok(b) => b,
            };
            let last = match rewrite_bindings(&site, marker, erased, fuel - 1) {
                Err(e) => {
                    return Err(e);
                },
                Ok(s) => s,
            };
            let ghost done = views(before@);
            before.push(last);
            assert(views(before@) =~= done.push(last@));
            Ok(Node::new(t.kind, t.text.as_str(), before))
        },
    }
}

/// Rewrites the marked bindings of a body: each becomes a call to the
/// continuation-passing variant of its callee, and the rest of its block
/// becomes the continuation.
pub fn handle_let_bindings(body: &Node, attrs: &Attrs) -> (r: Result<Node, Error>)
    ensures
        agrees(
            r,
            rebound(
                body@,
                attrs@.lifetime,
                attrs@.dyn_safe && attrs@.recursive,
                NESTING_LIMIT as nat,
            ),
        ),
{
    rewrite_bindings(body, attrs.lifetime.as_str(), attrs.dyn_safe && attrs.recursive, NESTING_LIMIT)
}

} // verus!
