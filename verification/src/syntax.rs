//! The syntax tree that the engine rewrites: every node has a kind, a text and
//! an ordered list of parts.

use vstd::prelude::*;

verus! {

/// What a node stands for. The comments give the meaning of `text` and `parts`.
#[derive(Clone, Copy, PartialEq, Eq, Debug, Structural)]
pub enum Kind {
    /// A function-like declaration. `text` is its name; `parts` are
    /// `[attributes, generics, parameters, return type, body]`, the first three
    /// of kind `List`, the last two `Absent` where the declaration has none.
    Fn,
    /// An `impl` block: `text` is its header; `parts` are its members.
    Impl,
    /// A trait: `text` is its header; `parts` are its members.
    Trait,
    /// A plain list of nodes.
    List,
    /// The place of an optional part that is not there.
    Absent,
    /// An attribute. `text` is its path; `parts` are `[]` where it has no
    /// argument, and `[tokens]`, a `List`, where it has one in parentheses.
    Attr,
    /// A single token: `text` is its spelling.
    Token,
    /// A parameter: `parts` are `[pattern, type]`. A receiver is a parameter
    /// whose pattern is the identifier `self`.
    Param,
    /// An identifier: `text` is its name.
    Ident,
    /// A reference type: `text` is its scope (empty where none is written,
    /// `_` where it is written as elided); `parts` are `[referent]`.
    Ref,
    /// A scope name standing alone (a generic argument or a bound).
    Scope,
    /// A part of a type with scope rules of its own (a function pointer, the
    /// parenthesised arguments of a callable bound): elision never enters it.
    Sealed,
    /// A block: `parts` are its statements.
    Block,
    /// A `let`: `parts` are `[attributes, pattern, initializer]`.
    Let,
    /// An expression statement that ends in a semicolon: `parts` are `[expression]`.
    Semi,
    /// An item declared inside a body: no pass enters it. `text` is its
    /// spelling, with a hole for each part.
    Item,
    /// The type-erased twin of a declaration that calls itself, emitted where
    /// that declaration stands and called at once. `text` says where it is
    /// emitted (`fn`, `trait` or `impl`); `parts` are `[declaration]`. No pass
    /// enters it.
    Sibling,
    /// `return`: `parts` are `[]` or `[value]`.
    Return,
    /// `break`: `text` is the label (empty where none); `parts` are `[]` or `[value]`.
    Break,
    /// `continue`: `text` is the label (empty where none).
    Continue,
    /// `expr?`: `parts` are `[expr]`.
    Try,
    /// An iteration construct (`loop`, `while`, `for`).
    Loop,
    /// A closure or an `async` block: its control flow is its own.
    Closure,
    /// `if`: `parts` are `[condition, then-block]` or `[condition, then-block, else]`.
    If,
    /// `match`: `parts` are `[scrutinee, arm, ..]`.
    Match,
    /// A match arm: `parts` are `[pattern and guard, body]`.
    Arm,
    /// A call: `parts` are `[attributes, callee, argument, ..]`.
    Call,
    /// A method call: `text` is the method; `parts` are
    /// `[attributes, type arguments, receiver, argument, ..]`.
    MethodCall,
    /// A path: `text` is its last segment's name; `parts` are
    /// `[leading segments, type arguments]`.
    Path,
    /// Any other syntax: `text` is its spelling, with a hole (`{}`) for each part.
    Other,
}

/// A node of the syntax tree as the engine holds it.
#[derive(PartialEq, Eq, Debug)]
pub struct Node {
    pub kind: Kind,
    pub text: String,
    pub parts: Vec<Node>,
}

/// The mathematical value of a node: what contracts speak of.
pub struct Tree {
    pub kind: Kind,
    pub text: Seq<char>,
    pub parts: Seq<Tree>,
}

impl View for Node {
    type V = Tree;

    open spec fn view(&self) -> Tree
        decreases self,
    {
        Tree {
            kind: self.kind,
            text: self.text@,
            parts: Seq::new(
                self.parts.len() as nat,
                |i: int|
                    if 0 <= i < self.parts.len() {
                        self.parts[i].view()
                    } else {
                        Tree { kind: Kind::Absent, text: Seq::empty(), parts: Seq::empty() }
                    },
            ),
        }
    }
}

/// The values of a list of nodes, in order.
pub open spec fn views(nodes: Seq<Node>) -> Seq<Tree> {
    nodes.map_values(|n: Node| n@)
}

/// A tree from its three components.
pub open spec fn node(kind: Kind, text: Seq<char>, parts: Seq<Tree>) -> Tree {
    Tree { kind, text, parts }
}

/// A tree without parts.
pub open spec fn leaf(kind: Kind, text: Seq<char>) -> Tree {
    Tree { kind, text, parts: Seq::empty() }
}

/// The place of a part that is not there.
pub open spec fn absent() -> Tree {
    leaf(Kind::Absent, Seq::empty())
}

/// A list node.
pub open spec fn list(parts: Seq<Tree>) -> Tree {
    node(Kind::List, Seq::empty(), parts)
}

/// An identifier.
pub open spec fn ident(name: Seq<char>) -> Tree {
    leaf(Kind::Ident, name)
}

/// Syntax that no pass looks into, given by its spelling.
pub open spec fn verbatim(text: Seq<char>) -> Tree {
    leaf(Kind::Other, text)
}

/// A call without attributes.
pub open spec fn call(callee: Tree, args: Seq<Tree>) -> Tree {
    node(Kind::Call, Seq::empty(), seq![list(Seq::empty()), callee] + args)
}

/// A call with one argument.
pub open spec fn call1(callee: Tree, arg: Tree) -> Tree {
    call(callee, seq![arg])
}

/// A block.
pub open spec fn block(stmts: Seq<Tree>) -> Tree {
    node(Kind::Block, Seq::empty(), stmts)
}

/// `return value`.
pub open spec fn ret(value: Tree) -> Tree {
    node(Kind::Return, Seq::empty(), seq![value])
}

/// A match arm.
pub open spec fn arm(pattern: Tree, body: Tree) -> Tree {
    node(Kind::Arm, Seq::empty(), seq![pattern, body])
}

/// The parts of a node are the values of its parts.
pub proof fn lemma_parts(n: Node)
    ensures
        n@.parts == views(n.parts@),
        n@.parts.len() == n.parts.len(),
        n@.kind == n.kind,
        n@.text == n.text@,
        forall|i: int| 0 <= i < n.parts.len() ==> n@.parts[i] == (#[trigger] n.parts[i])@,
{
    assert(n@.parts =~= views(n.parts@));
}

/// Whether a text is exactly the given one.
pub fn text_is(text: &String, other: &str) -> (same: bool)
    ensures
        same == (text@ == other@),
{
    let o = String::from_str(other);
    *text == o
}

impl Node {
    /// A node from its three components.
    pub fn new(kind: Kind, text: &str, parts: Vec<Node>) -> (r: Node)
        ensures
            r@ == node(kind, text@, views(parts@)),
            r.kind == kind,
            r.text@ == text@,
            r.parts == parts,
    {
        let r = Node { kind, text: String::from_str(text), parts };
        proof {
            lemma_parts(r);
        }
        r
    }

    /// A node without parts.
    pub fn leaf(kind: Kind, text: &str) -> (r: Node)
        ensures
            r@ == leaf(kind, text@),
    {
        let r = Node::new(kind, text, Vec::new());
        assert(views(Seq::<Node>::empty()) =~= Seq::<Tree>::empty());
        r
    }

    /// The place of a part that is not there.
    pub fn absent() -> (r: Node)
        ensures
            r@ == absent(),
    {
        let r = Node::leaf(Kind::Absent, "");
        proof {
            reveal_strlit("");
            assert(""@ =~= Seq::<char>::empty());
        }
        r
    }

    /// A list node.
    pub fn list(parts: Vec<Node>) -> (r: Node)
        ensures
            r@ == list(views(parts@)),
    {
        let r = Node::new(Kind::List, "", parts);
        proof {
            reveal_strlit("");
            assert(""@ =~= Seq::<char>::empty());
        }
        r
    }

    /// An identifier.
    pub fn ident(name: &str) -> (r: Node)
        ensures
            r@ == ident(name@),
    {
        Node::leaf(Kind::Ident, name)
    }

    /// Syntax that no pass looks into, given by its spelling.
    pub fn verbatim(text: &str) -> (r: Node)
        ensures
            r@ == verbatim(text@),
    {
        Node::leaf(Kind::Other, text)
    }

    /// A call without attributes.
    pub fn call(callee: Node, args: Vec<Node>) -> (r: Node)
        ensures
            r@ == call(callee@, views(args@)),
    {
        let mut args = args;
        let mut parts: Vec<Node> = vec![Node::list(Vec::new()), callee];
        let ghost before = views(parts@);
        assert(views(Seq::<Node>::empty()) =~= Seq::<Tree>::empty());
        assert(before =~= seq![list(Seq::empty()), callee@]);
        let ghost given = views(args@);
        parts.append(&mut args);
        assert(views(parts@) =~= before + given);
        let r = Node::new(Kind::Call, "", parts);
        proof {
            reveal_strlit("");
            assert(""@ =~= Seq::<char>::empty());
        }
        r
    }

    /// A call with one argument.
    pub fn call1(callee: Node, arg: Node) -> (r: Node)
        ensures
            r@ == call1(callee@, arg@),
    {
        let args: Vec<Node> = vec![arg];
        assert(views(args@) =~= seq![arg@]);
        Node::call(callee, args)
    }

    /// A block.
    pub fn block(stmts: Vec<Node>) -> (r: Node)
        ensures
            r@ == block(views(stmts@)),
    {
        let r = Node::new(Kind::Block, "", stmts);
        proof {
            reveal_strlit("");
            assert(""@ =~= Seq::<char>::empty());
        }
        r
    }

    /// `return value`.
    pub fn ret(value: Node) -> (r: Node)
        ensures
            r@ == ret(value@),
    {
        let parts: Vec<Node> = vec![value];
        assert(views(parts@) =~= seq![value@]);
        let r = Node::new(Kind::Return, "", parts);
        proof {
            reveal_strlit("");
            assert(""@ =~= Seq::<char>::empty());
        }
        r
    }

    /// A match arm.
    pub fn arm(pattern: Node, body: Node) -> (r: Node)
        ensures
            r@ == arm(pattern@, body@),
    {
        let parts: Vec<Node> = vec![pattern, body];
        assert(views(parts@) =~= seq![pattern@, body@]);
        let r = Node::new(Kind::Arm, "", parts);
        proof {
            reveal_strlit("");
            assert(""@ =~= Seq::<char>::empty());
        }
        r
    }
}

} // verus!
