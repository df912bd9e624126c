//! Moving statements into a closure without losing their non-local exits: each
//! `return`, `break`, `continue` and `?` that would leave the closure becomes
//! a tagged value that the closure returns, and the place that calls the
//! closure turns the tag back into the exit.

use crate::error::Error;
use crate::passes::{
    rewrite_all, rewritten_all, scan_all, seen_all, seen_list, Hit, Pass, Seen,
};
use crate::syntax::{
    block, call1, ident, list, node, ret, text_is, verbatim, views, Kind, Node, Tree,
};
use vstd::prelude::*;

verus! {

/// Whether a hit is a `break` or `continue` that would leave the closure.
pub open spec fn leaves_loop(h: Seen) -> bool {
    h.pass == Pass::Encode && (h.kind == Kind::Break || h.kind == Kind::Continue)
}

/// Whether a hit is such an exit with a label.
pub open spec fn is_labelled(h: Seen) -> bool {
    leaves_loop(h) && h.text.len() > 0
}

/// Whether a hit makes the closure return a value of the enclosing function
/// early: a `return`, or a `?`.
pub open spec fn is_early(h: Seen) -> bool {
    (h.pass == Pass::Encode || h.pass == Pass::EncodeNested) && (h.kind == Kind::Return || (h.kind
        == Kind::Try && h.arity == 1))
}

/// Whether a hit is a `break` that would leave the closure.
pub open spec fn is_break(h: Seen) -> bool {
    h.pass == Pass::Encode && h.kind == Kind::Break
}

/// Whether a hit is a `continue` that would leave the closure.
pub open spec fn is_continue(h: Seen) -> bool {
    h.pass == Pass::Encode && h.kind == Kind::Continue
}

/// Whether any of the hits is a labelled exit.
pub open spec fn any_labelled(hits: Seq<Seen>) -> bool {
    exists|i: int| 0 <= i < hits.len() && is_labelled(#[trigger] hits[i])
}

/// Whether any of the hits returns early.
pub open spec fn any_early(hits: Seq<Seen>) -> bool {
    exists|i: int| 0 <= i < hits.len() && is_early(#[trigger] hits[i])
}

/// Whether any of the hits is a `continue`.
pub open spec fn any_continue(hits: Seq<Seen>) -> bool {
    exists|i: int| 0 <= i < hits.len() && is_continue(#[trigger] hits[i])
}

/// Whether the last `break` among the hits carries a value; `None` where
/// there is no `break`.
pub open spec fn last_break(hits: Seq<Seen>) -> Option<bool>
    decreases hits.len(),
{
    if hits.len() == 0 {
        None
    } else if is_break(hits.last()) {
        Some(hits.last().arity > 0)
    } else {
        last_break(hits.drop_last())
    }
}

/// The handler of a tag that the closure never returns.
pub open spec fn unreachable_handler() -> Tree {
    verbatim("{ let unreachable = it; match unreachable { ::with_locals::runtime::Unreachable::Never(never) => match never {} } }"@)
}

/// A block that takes the unit value out of `it` and then leaves by `exit`.
pub open spec fn discard_then(exit: Tree) -> Tree {
    block(seq![node(Kind::Let, Seq::empty(), seq![list(Seq::empty()), verbatim("()"@), ident("it"@)]), exit])
}

/// The type written for a tag's payload: inferred where the tag is used, and
/// the empty type where it is not.
pub open spec fn payload_type(used: bool) -> Tree {
    if used {
        verbatim("_"@)
    } else {
        verbatim("::with_locals::runtime::Unreachable"@)
    }
}

/// The constructor of the value of a body that ran to its end, with the
/// payload types of the three other tags written out.
pub open spec fn eval_constructor(early: bool, breaks: bool, continues: bool) -> Tree {
    node(
        Kind::Other,
        "::with_locals::runtime::ControlFlow::<_, {}, {}, {}>::Eval"@,
        seq![payload_type(early), payload_type(breaks), payload_type(continues)],
    )
}

/// The mathematical value of `Wrapped`.
pub struct Encoded {
    pub closure_body: Tree,
    pub wrap_ret: Tree,
    pub wrap_break: Tree,
    pub wrap_continue: Tree,
}

/// What the statements of a closure body become, with the handler for each
/// tag at the place that calls the closure.
pub open spec fn encoded(stmts: Seq<Tree>) -> Result<Encoded, Error> {
    let hits = seen_list(stmts, Pass::Encode, stmts.len());
    if any_labelled(hits) {
        Err(Error::UnsupportedControlFlow)
    } else {
        let early = any_early(hits);
        let breaks = last_break(hits);
        let continues = any_continue(hits);
        Ok(
            Encoded {
                closure_body: call1(
                    eval_constructor(early, breaks is Some, continues),
                    block(rewritten_all(stmts, Pass::Encode, Seq::empty())),
                ),
                wrap_ret: if early {
                    ret(ident("it"@))
                } else {
                    unreachable_handler()
                },
                wrap_break: match breaks {
                    None => unreachable_handler(),
                    Some(true) => node(Kind::Break, Seq::empty(), seq![ident("it"@)]),
                    Some(false) => discard_then(
                        node(Kind::Semi, Seq::empty(), seq![node(Kind::Break, Seq::empty(), Seq::empty())]),
                    ),
                },
                wrap_continue: if continues {
                    discard_then(node(Kind::Continue, Seq::empty(), Seq::empty()))
                } else {
                    unreachable_handler()
                },
            },
        )
    }
}

/// The statements of a closure body with their exits encoded, and the handler
/// for each tag.
#[derive(PartialEq, Eq, Debug)]
pub struct Wrapped {
    /// The closure's body: the encoded statements, tagged as evaluated.
    pub closure_body: Node,
    /// What to do with a value returned early.
    pub wrap_ret: Node,
    /// What to do with a `break`.
    pub wrap_break: Node,
    /// What to do with a `continue`.
    pub wrap_continue: Node,
}

impl View for Wrapped {
    type V = Encoded;

    open spec fn view(&self) -> Encoded {
        Encoded {
            closure_body: self.closure_body@,
            wrap_ret: self.wrap_ret@,
            wrap_break: self.wrap_break@,
            wrap_continue: self.wrap_continue@,
        }
    }
}

/// What the exits among the hits ask of the place that calls the closure.
pub struct Exits {
    pub labelled: bool,
    pub early: bool,
    pub breaks: Option<bool>,
    pub continues: bool,
}

/// Looks through the hits for exits that would leave the closure.
pub fn find_exits(hits: &Vec<Hit>) -> (r: Exits)
    ensures
        r.labelled == any_labelled(seen_all(hits@)),
        r.early == any_early(seen_all(hits@)),
        r.breaks == last_break(seen_all(hits@)),
        r.continues == any_continue(seen_all(hits@)),
{
    let ghost all = seen_all(hits@);
    let mut labelled = false;
    let mut early = false;
    let mut breaks: Option<bool> = None;
    let mut continues = false;
    let mut i: usize = 0;
    while i < hits.len()
        invariant
            i <= hits.len(),
            all == seen_all(hits@),
            labelled == any_labelled(all.take(i as int)),
            early == any_early(all.take(i as int)),
            breaks == last_break(all.take(i as int)),
            continues == any_continue(all.take(i as int)),
        decreases hits.len() - i,
    {
        let h = &hits[i];
        proof {
            let now = all.take(i + 1);
            let was = all.take(i as int);
            assert(now.drop_last() =~= was);
            assert(now.last() == h@);
            assert(forall|j: int| 0 <= j < i ==> now[j] == was[j]);
            assert(now[i as int] == h@);
            reveal_strlit("");
            if h.text@.len() == 0 {
                assert(h.text@ =~= ""@);
            }
        }
        let encode = h.pass == Pass::Encode;
        let nested = h.pass == Pass::EncodeNested;
        let empty = text_is(&h.text, "");
        if encode && (h.kind == Kind::Break || h.kind == Kind::Continue) && !empty {
            labelled = true;
        }
        if (encode || nested) && (h.kind == Kind::Return || (h.kind == Kind::Try && h.arity == 1)) {
            early = true;
        }
        if encode && h.kind == Kind::Break {
            breaks = Some(h.arity > 0);
        }
        if encode && h.kind == Kind::Continue {
            continues = true;
        }
        i += 1;
    }
    assert(all.take(hits.len() as int) =~= all);
    Exits { labelled, early, breaks, continues }
}

/// The handler of a tag that the closure never returns.
fn never() -> (r: Node)
    ensures
        r@ == unreachable_handler(),
{
    Node::verbatim("{ let unreachable = it; match unreachable { ::with_locals::runtime::Unreachable::Never(never) => match never {} } }")
}

/// A block that takes the unit value out of `it` and then leaves by `exit`.
fn discard(exit: Node) -> (r: Node)
    ensures
        r@ == discard_then(exit@),
{
    let parts: Vec<Node> = vec![Node::list(Vec::new()), Node::verbatim("()"), Node::ident("it")];
    assert(views(Seq::<Node>::empty()) =~= Seq::<Tree>::empty());
    assert(views(parts@) =~= seq![parts@[0]@, parts@[1]@, parts@[2]@]);
    proof {
        reveal_strlit("");
        assert(""@ =~= Seq::<char>::empty());
    }
    let stmts: Vec<Node> = vec![Node::new(Kind::Let, "", parts), exit];
    assert(views(stmts@) =~= seq![stmts@[0]@, stmts@[1]@]);
    Node::block(stmts)
}

/// The type written for a tag's payload.
fn payload(used: bool) -> (r: Node)
    ensures
        r@ == payload_type(used),
{
    if used {
        Node::verbatim("_")
    } else {
        Node::verbatim("::with_locals::runtime::Unreachable")
    }
}

/// Wraps the statements that follow a marked binding so that they can run
/// inside a closure: every exit that would leave the closure returns a tag
/// instead, and the value of the statements is tagged as evaluated. Fails on
/// a labelled `break` or `continue` outside the iteration constructs of the
/// statements.
pub fn wrap_statements_inside_closure_body(stmts: &Vec<Node>) -> (r: Result<Wrapped, Error>)
    ensures
        r is Ok == encoded(views(stmts@)) is Ok,
        r is Ok ==> r->Ok_0@ == encoded(views(stmts@))->Ok_0,
        r is Err ==> r->Err_0 == encoded(views(stmts@))->Err_0,
{
    let hits = scan_all(stmts, Pass::Encode);
    let exits = find_exits(&hits);
    if exits.labelled {
        return Err(Error::UnsupportedControlFlow);
    }
    proof {
        reveal_strlit("");
        assert(""@ =~= Seq::<char>::empty());
        assert(views(Seq::<Node>::empty()) =~= Seq::<Tree>::empty());
    }
    let types: Vec<Node> = vec![
        payload(exits.early),
        payload(exits.breaks.is_some()),
        payload(exits.continues),
    ];
    assert(views(types@) =~= seq![types@[0]@, types@[1]@, types@[2]@]);
    let constructor = Node::new(
        Kind::Other,
        "::with_locals::runtime::ControlFlow::<_, {}, {}, {}>::Eval",
        types,
    );
    let body = Node::block(rewrite_all(stmts, Pass::Encode, ""));
    let wrap_ret = if exits.early {
        Node::ret(Node::ident("it"))
    } else {
        never()
    };
    let wrap_break = match exits.breaks {
        None => never(),
        Some(true) => {
            let value: Vec<Node> = vec![Node::ident("it")];
            assert(views(value@) =~= seq![value@[0]@]);
            Node::new(Kind::Break, "", value)
        },
        Some(false) => {
            let inner: Vec<Node> = vec![Node::new(Kind::Break, "", Vec::new())];
            assert(views(inner@) =~= seq![inner@[0]@]);
            discard(Node::new(Kind::Semi, "", inner))
        },
    };
    let wrap_continue = if exits.continues {
        discard(Node::new(Kind::Continue, "", Vec::new()))
    } else {
        never()
    };
    Ok(Wrapped { closure_body: Node::call1(constructor, body), wrap_ret, wrap_break, wrap_continue })
}

} // verus!
