//! The rewriting passes that walk a whole tree: each is a rule for one node,
//! applied bottom-up, together with a rule that says how a pass changes when it
//! enters the parts of a node.

use crate::syntax::{
    arm, block, call1, ident, lemma_parts, node, ret, text_is, verbatim, views, Kind, Node,
    Tree,
};
use vstd::prelude::*;

verus! {

/// A bottom-up rewriting rule.
#[derive(Clone, Copy, PartialEq, Eq, Debug, Structural)]
pub enum Pass {
    /// Leaves everything as it is.
    Keep,
    /// Gives every elided scope the given name.
    Unelide,
    /// Writes every scope of the given name as elided.
    Erase,
    /// Routes every explicit exit through the continuation of the given name.
    Exits,
    /// Turns the non-local exits of a closure body into tagged values.
    Encode,
    /// The same inside an iteration construct of that body, where `break` and
    /// `continue` stay as they are.
    EncodeNested,
}

/// The pass that applies to the parts of a node of the given kind.
pub open spec fn inner(pass: Pass, kind: Kind) -> Pass {
    let own_flow = kind == Kind::Closure || kind == Kind::Item || kind == Kind::Sibling;
    match pass {
        Pass::Keep => Pass::Keep,
        Pass::Unelide => if kind == Kind::Sealed {
            Pass::Keep
        } else {
            Pass::Unelide
        },
        Pass::Erase => Pass::Erase,
        Pass::Exits => if own_flow {
            Pass::Keep
        } else {
            Pass::Exits
        },
        Pass::Encode => if own_flow {
            Pass::Keep
        } else if kind == Kind::Loop {
            Pass::EncodeNested
        } else {
            Pass::Encode
        },
        Pass::EncodeNested => if own_flow {
            Pass::Keep
        } else {
            Pass::EncodeNested
        },
    }
}

/// Whether a node is a scope that the source leaves to elision.
pub open spec fn is_elided(kind: Kind, text: Seq<char>) -> bool {
    ||| kind == Kind::Ref && (text.len() == 0 || text == "_"@)
    ||| kind == Kind::Scope && text == "_"@
}

/// Whether a node is a scope with the given name.
pub open spec fn is_scope_named(kind: Kind, text: Seq<char>, name: Seq<char>) -> bool {
    (kind == Kind::Ref || kind == Kind::Scope) && text == name
}

/// The unit value.
pub open spec fn unit_value() -> Tree {
    verbatim("()"@)
}

/// The first part, or the unit value where there is none.
pub open spec fn value_or_unit(parts: Seq<Tree>) -> Tree {
    if parts.len() == 0 {
        unit_value()
    } else {
        parts[0]
    }
}

/// The constructor of the tag for a value returned early.
pub open spec fn early_return_tag() -> Tree {
    verbatim("::with_locals::runtime::ControlFlow::EarlyReturn"@)
}

/// The constructor of the tag for a `break`.
pub open spec fn break_tag() -> Tree {
    verbatim("::with_locals::runtime::ControlFlow::Break"@)
}

/// The constructor of the tag for a `continue`.
pub open spec fn continue_tag() -> Tree {
    verbatim("::with_locals::runtime::ControlFlow::Continue"@)
}

/// What `subject?` becomes where a failure has to leave through `exit`: the
/// success is unwrapped in place, the failure is converted, handed to `exit`
/// and returned.
pub open spec fn propagation(subject: Tree, exit: Tree) -> Tree {
    let converted = call1(
        verbatim("::with_locals::runtime::Try::from_err"@),
        call1(verbatim("::core::convert::Into::into"@), ident("err"@)),
    );
    let failure = block(
        seq![node(Kind::Semi, Seq::empty(), seq![ret(call1(exit, converted))])],
    );
    let unwrap = node(
        Kind::Match,
        Seq::empty(),
        seq![
            call1(verbatim("::with_locals::runtime::Try::into_result"@), ident("it"@)),
            arm(verbatim("::core::result::Result::Ok(it)"@), ident("it"@)),
            arm(verbatim("::core::result::Result::Err(err)"@), failure),
        ],
    );
    node(Kind::Match, Seq::empty(), seq![subject, arm(verbatim("it"@), unwrap)])
}

/// What a pass makes of one node whose parts it has already rewritten.
pub open spec fn rebuilt(
    pass: Pass,
    name: Seq<char>,
    kind: Kind,
    text: Seq<char>,
    parts: Seq<Tree>,
) -> Tree {
    let same = node(kind, text, parts);
    match pass {
        Pass::Keep => same,
        Pass::Unelide => if is_elided(kind, text) {
            node(kind, name, parts)
        } else {
            same
        },
        Pass::Erase => if is_scope_named(kind, text, name) {
            node(kind, "_"@, parts)
        } else {
            same
        },
        Pass::Exits => if kind == Kind::Return && parts.len() == 1 {
            ret(call1(ident(name), parts[0]))
        } else if kind == Kind::Try && parts.len() == 1 {
            propagation(parts[0], ident(name))
        } else {
            same
        },
        Pass::Encode | Pass::EncodeNested => if kind == Kind::Return {
            ret(call1(early_return_tag(), value_or_unit(parts)))
        } else if kind == Kind::Try && parts.len() == 1 {
            propagation(parts[0], early_return_tag())
        } else if pass == Pass::Encode && kind == Kind::Break && text.len() == 0 {
            ret(call1(break_tag(), value_or_unit(parts)))
        } else if pass == Pass::Encode && kind == Kind::Continue && text.len() == 0 {
            ret(call1(continue_tag(), unit_value()))
        } else {
            same
        },
    }
}

/// What a pass makes of a whole tree.
pub open spec fn rewritten(t: Tree, pass: Pass, name: Seq<char>) -> Tree
    decreases t, 1nat,
{
    rebuilt(pass, name, t.kind, t.text, rewritten_parts(t, pass, name))
}

/// What a pass makes of the parts of a tree.
pub open spec fn rewritten_parts(t: Tree, pass: Pass, name: Seq<char>) -> Seq<Tree>
    decreases t, 0nat,
{
    Seq::new(
        t.parts.len(),
        |i: int|
            if 0 <= i < t.parts.len() {
                rewritten(t.parts[i], inner(pass, t.kind), name)
            } else {
                t
            },
    )
}

/// What a pass makes of each tree of a list.
pub open spec fn rewritten_all(ts: Seq<Tree>, pass: Pass, name: Seq<char>) -> Seq<Tree> {
    ts.map_values(|t: Tree| rewritten(t, pass, name))
}

/// The pass that applies to the parts of a node of the given kind.
pub fn inner_pass(pass: Pass, kind: Kind) -> (r: Pass)
    ensures
        r == inner(pass, kind),
{
    let own_flow = kind == Kind::Closure || kind == Kind::Item || kind == Kind::Sibling;
    match pass {
        Pass::Keep => Pass::Keep,
        Pass::Unelide => if kind == Kind::Sealed {
            Pass::Keep
        } else {
            Pass::Unelide
        },
        Pass::Erase => Pass::Erase,
        Pass::Exits => if own_flow {
            Pass::Keep
        } else {
            Pass::Exits
        },
        Pass::Encode => if own_flow {
            Pass::Keep
        } else if kind == Kind::Loop {
            Pass::EncodeNested
        } else {
            Pass::Encode
        },
        Pass::EncodeNested => if own_flow {
            Pass::Keep
        } else {
            Pass::EncodeNested
        },
    }
}

/// The first of the parts, or the unit value where there is none.
fn take_value_or_unit(parts: Vec<Node>) -> (r: Node)
    ensures
        r@ == value_or_unit(views(parts@)),
{
    let mut parts = parts;
    if parts.len() == 0 {
        Node::verbatim("()")
    } else {
        parts.remove(0)
    }
}

/// Builds what `subject?` becomes where a failure has to leave through `exit`.
pub fn propagate(subject: Node, exit: Node) -> (r: Node)
    ensures
        r@ == propagation(subject@, exit@),
{
    let converted = Node::call1(
        Node::verbatim("::with_locals::runtime::Try::from_err"),
        Node::call1(Node::verbatim("::core::convert::Into::into"), Node::ident("err")),
    );
    let semi_parts: Vec<Node> = vec![Node::ret(Node::call1(exit, converted))];
    assert(views(semi_parts@) =~= seq![semi_parts@[0]@]);
    let semi = Node::new(Kind::Semi, "", semi_parts);
    let stmts: Vec<Node> = vec![semi];
    assert(views(stmts@) =~= seq![stmts@[0]@]);
    let failure = Node::block(stmts);
    let unwrap_parts: Vec<Node> = vec![
        Node::call1(Node::verbatim("::with_locals::runtime::Try::into_result"), Node::ident("it")),
        Node::arm(Node::verbatim("::core::result::Result::Ok(it)"), Node::ident("it")),
        Node::arm(Node::verbatim("::core::result::Result::Err(err)"), failure),
    ];
    assert(views(unwrap_parts@) =~= seq![unwrap_parts@[0]@, unwrap_parts@[1]@, unwrap_parts@[2]@]);
    let unwrap = Node::new(Kind::Match, "", unwrap_parts);
    let parts: Vec<Node> = vec![subject, Node::arm(Node::verbatim("it"), unwrap)];
    assert(views(parts@) =~= seq![parts@[0]@, parts@[1]@]);
    proof {
        reveal_strlit("");
        assert(""@ =~= Seq::<char>::empty());
    }
    Node::new(Kind::Match, "", parts)
}

/// Builds what a pass makes of one node whose parts it has already rewritten.
pub fn rebuild(pass: Pass, name: &str, kind: Kind, text: &String, parts: Vec<Node>) -> (r: Node)
    ensures
        r@ == rebuilt(pass, name@, kind, text@, views(parts@)),
{
    let mut parts = parts;
    match pass {
        Pass::Keep => Node::new(kind, text.as_str(), parts),
        Pass::Unelide => {
            let elided = (kind == Kind::Ref && (text_is(text, "") || text_is(text, "_"))) || (kind
                == Kind::Scope && text_is(text, "_"));
            proof {
                reveal_strlit("");
                assert(text@.len() == 0 <==> text@ == ""@) by {
                    if text@.len() == 0 {
                        assert(text@ =~= ""@);
                    }
                }
            }
            if elided {
                Node::new(kind, name, parts)
            } else {
                Node::new(kind, text.as_str(), parts)
            }
        },
        Pass::Erase => {
            if (kind == Kind::Ref || kind == Kind::Scope) && text_is(text, name) {
                Node::new(kind, "_", parts)
            } else {
                Node::new(kind, text.as_str(), parts)
            }
        },
        Pass::Exits => {
            if kind == Kind::Return && parts.len() == 1 {
                let value = parts.remove(0);
                Node::ret(Node::call1(Node::ident(name), value))
            } else if kind == Kind::Try && parts.len() == 1 {
                let subject = parts.remove(0);
                propagate(subject, Node::ident(name))
            } else {
                Node::new(kind, text.as_str(), parts)
            }
        },
        Pass::Encode | Pass::EncodeNested => {
            proof {
                reveal_strlit("");
                assert(text@.len() == 0 <==> text@ == ""@) by {
                    if text@.len() == 0 {
                        assert(text@ =~= ""@);
                    }
                }
            }
            if kind == Kind::Return {
                let value = take_value_or_unit(parts);
                Node::ret(
                    Node::call1(
                        Node::verbatim("::with_locals::runtime::ControlFlow::EarlyReturn"),
                        value,
                    ),
                )
            } else if kind == Kind::Try && parts.len() == 1 {
                let subject = parts.remove(0);
                propagate(
                    subject,
                    Node::verbatim("::with_locals::runtime::ControlFlow::EarlyReturn"),
                )
            } else if pass == Pass::Encode && kind == Kind::Break && text_is(text, "") {
                let value = take_value_or_unit(parts);
                Node::ret(
                    Node::call1(Node::verbatim("::with_locals::runtime::ControlFlow::Break"), value),
                )
            } else if pass == Pass::Encode && kind == Kind::Continue && text_is(text, "") {
                Node::ret(
                    Node::call1(
                        Node::verbatim("::with_locals::runtime::ControlFlow::Continue"),
                        Node::verbatim("()"),
                    ),
                )
            } else {
                Node::new(kind, text.as_str(), parts)
            }
        },
    }
}

/// Applies a pass to a whole tree.
pub fn rewrite(t: &Node, pass: Pass, name: &str) -> (r: Node)
    ensures
        r@ == rewritten(t@, pass, name@),
    decreases t,
{
    let sub = inner_pass(pass, t.kind);
    let mut parts: Vec<Node> = Vec::new();
    let mut i: usize = 0;
    proof {
        lemma_parts(*t);
    }
    while i < t.parts.len()
        invariant
            i <= t.parts.len(),
            parts@.len() == i,
            forall|j: int| 0 <= j < i ==> (#[trigger] parts@[j])@ == rewritten(t@.parts[j], sub, name@),
            forall|j: int| 0 <= j < t.parts.len() ==> t@.parts[j] == (#[trigger] t.parts[j])@,
        decreases t.parts.len() - i,
    {
        let p = rewrite(&t.parts[i], sub, name);
        parts.push(p);
        i += 1;
    }
    assert(views(parts@) =~= rewritten_parts(t@, pass, name@));
    rebuild(pass, name, t.kind, &t.text, parts)
}

/// Applies a pass to each tree of a list.
pub fn rewrite_all(ts: &Vec<Node>, pass: Pass, name: &str) -> (r: Vec<Node>)
    ensures
        views(r@) == rewritten_all(views(ts@), pass, name@),
{
    let mut out: Vec<Node> = Vec::new();
    let mut i: usize = 0;
    while i < ts.len()
        invariant
            i <= ts.len(),
            out@.len() == i,
            forall|j: int| 0 <= j < i ==> (#[trigger] out@[j])@ == rewritten(ts@[j]@, pass, name@),
        decreases ts.len() - i,
    {
        let p = rewrite(&ts[i], pass, name);
        out.push(p);
        i += 1;
    }
    assert(views(out@) =~= rewritten_all(views(ts@), pass, name@));
    out
}

/// The pass that keeps everything returns the tree it was given.
pub proof fn lemma_keep(t: Tree, name: Seq<char>)
    ensures
        rewritten(t, Pass::Keep, name) == t,
    decreases t,
{
    assert forall|i: int| 0 <= i < t.parts.len() implies rewritten(
        #[trigger] t.parts[i],
        Pass::Keep,
        name,
    ) == t.parts[i] by {
        lemma_keep(t.parts[i], name);
    }
    assert(rewritten_parts(t, Pass::Keep, name) =~= t.parts);
}

/// A copy of a tree.
pub fn duplicate(t: &Node) -> (r: Node)
    ensures
        r@ == t@,
{
    proof {
        lemma_keep(t@, ""@);
    }
    rewrite(t, Pass::Keep, "")
}

/// A copy of a list of trees.
pub fn duplicate_all(ts: &Vec<Node>) -> (r: Vec<Node>)
    ensures
        views(r@) == views(ts@),
{
    let r = rewrite_all(ts, Pass::Keep, "");
    proof {
        assert forall|i: int| 0 <= i < ts.len() implies rewritten(
            #[trigger] views(ts@)[i],
            Pass::Keep,
            ""@,
        ) == views(ts@)[i] by {
            lemma_keep(views(ts@)[i], ""@);
        }
        assert(rewritten_all(views(ts@), Pass::Keep, ""@) =~= views(ts@));
    }
    r
}

/// A copy of a part that may be missing.
pub fn duplicate_opt(t: &Option<Node>) -> (r: Option<Node>)
    ensures
        r is Some == t is Some,
        t is Some ==> r->0@ == t->0@,
{
    match t {
        Some(n) => Some(duplicate(n)),
        None => None,
    }
}

/// One node as a pass meets it, without its parts.
#[derive(PartialEq, Eq, Debug)]
pub struct Hit {
    pub pass: Pass,
    pub kind: Kind,
    pub text: String,
    pub arity: usize,
}

/// The mathematical value of a `Hit`.
pub struct Seen {
    pub pass: Pass,
    pub kind: Kind,
    pub text: Seq<char>,
    pub arity: nat,
}

impl View for Hit {
    type V = Seen;

    open spec fn view(&self) -> Seen {
        Seen { pass: self.pass, kind: self.kind, text: self.text@, arity: self.arity as nat }
    }
}

/// The values of a list of hits, in order.
pub open spec fn seen_all(hits: Seq<Hit>) -> Seq<Seen> {
    hits.map_values(|h: Hit| h@)
}

/// The nodes of a tree in the order in which a pass meets them, each with the
/// pass as it applies there.
pub open spec fn seen(t: Tree, pass: Pass) -> Seq<Seen>
    decreases t, t.parts.len() + 1,
{
    seq![Seen { pass, kind: t.kind, text: t.text, arity: t.parts.len() }] + seen_parts(
        t,
        pass,
        t.parts.len(),
    )
}

/// The nodes that a pass meets in the first `n` parts of a tree.
pub open spec fn seen_parts(t: Tree, pass: Pass, n: nat) -> Seq<Seen>
    decreases t, n,
{
    if n == 0 || n > t.parts.len() {
        Seq::empty()
    } else {
        seen_parts(t, pass, (n - 1) as nat) + seen(t.parts[n - 1], inner(pass, t.kind))
    }
}

/// Appends to `out` the nodes of a tree in the order in which a pass meets them.
pub fn scan(t: &Node, pass: Pass, out: &mut Vec<Hit>)
    ensures
        seen_all(final(out)@) == seen_all(old(out)@) + seen(t@, pass),
    decreases t,
{
    let ghost before = seen_all(out@);
    let hit = Hit { pass, kind: t.kind, text: t.text.clone(), arity: t.parts.len() };
    let ghost own = hit@;
    out.push(hit);
    let sub = inner_pass(pass, t.kind);
    let mut i: usize = 0;
    proof {
        lemma_parts(*t);
        assert(seen_all(out@) =~= before + seq![own] + seen_parts(t@, pass, 0));
    }
    while i < t.parts.len()
        invariant
            i <= t.parts.len(),
            t@.parts.len() == t.parts.len(),
            sub == inner(pass, t@.kind),
            seen_all(out@) == before + seq![own] + seen_parts(t@, pass, i as nat),
            forall|j: int| 0 <= j < t.parts.len() ==> t@.parts[j] == (#[trigger] t.parts[j])@,
        decreases t.parts.len() - i,
    {
        let ghost so_far = seen_all(out@);
        scan(&t.parts[i], sub, out);
        i += 1;
        proof {
            assert(seen_parts(t@, pass, i as nat) == seen_parts(t@, pass, (i - 1) as nat) + seen(
                t@.parts[i - 1],
                sub,
            ));
            assert(seen_all(out@) =~= before + seq![own] + seen_parts(t@, pass, i as nat));
        }
    }
    assert(seen_all(out@) =~= before + seen(t@, pass));
}

/// The nodes that a pass meets in the first `n` trees of a list.
pub open spec fn seen_list(ts: Seq<Tree>, pass: Pass, n: nat) -> Seq<Seen>
    decreases n,
{
    if n == 0 || n > ts.len() {
        Seq::empty()
    } else {
        seen_list(ts, pass, (n - 1) as nat) + seen(ts[n - 1], pass)
    }
}

/// Collects the nodes that a pass meets in the trees of a list.
pub fn scan_all(ts: &Vec<Node>, pass: Pass) -> (hits: Vec<Hit>)
    ensures
        seen_all(hits@) == seen_list(views(ts@), pass, ts.len() as nat),
{
    let mut hits: Vec<Hit> = Vec::new();
    let mut i: usize = 0;
    assert(seen_all(hits@) =~= seen_list(views(ts@), pass, 0));
    while i < ts.len()
        invariant
            i <= ts.len(),
            seen_all(hits@) == seen_list(views(ts@), pass, i as nat),
        decreases ts.len() - i,
    {
        assert(views(ts@)[i as int] == ts@[i as int]@);
        scan(&ts[i], pass, &mut hits);
        i += 1;
    }
    hits
}

} // verus!
