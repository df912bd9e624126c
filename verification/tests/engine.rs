use with_locals::bindings::{handle_let_bindings, rewrite_bindings};
use with_locals::by_hand::{sum, Bar, Foo, Struct};
use with_locals::config::{parse_binding_mode, Attrs};
use with_locals::control_flow::wrap_statements_inside_closure_body;
use with_locals::declaration::Declaration;
use with_locals::diagnostics::message;
use with_locals::engine::{with, with_impl, with_trait};
use with_locals::error::{Error, Shape};
use with_locals::lifetimes::{replace_each_lifetime_with, unelide_lifetimes};
use with_locals::passes::{duplicate, rewrite, Pass};
use with_locals::runtime::{ContinuationReturn, ControlFlow, NoneError, Try};
use with_locals::syntax::{Kind, Node};
use with_locals::tails::return_block;
use with_locals::transform::{arg, decimal, handle_fn_like, handle_returning_locals, Enclosing};

fn n(kind: Kind, text: &str, parts: Vec<Node>) -> Node {
    Node { kind, text: text.to_string(), parts }
}

fn id(name: &str) -> Node {
    n(Kind::Ident, name, vec![])
}

fn verb(text: &str) -> Node {
    n(Kind::Other, text, vec![])
}

fn list(parts: Vec<Node>) -> Node {
    n(Kind::List, "", parts)
}

fn absent() -> Node {
    n(Kind::Absent, "", vec![])
}

fn path(name: &str) -> Node {
    n(Kind::Path, name, vec![verb(""), absent()])
}

fn call(callee: Node, args: Vec<Node>) -> Node {
    let mut parts = vec![list(vec![]), callee];
    parts.extend(args);
    n(Kind::Call, "", parts)
}

fn method_call(receiver: Node, method: &str, args: Vec<Node>) -> Node {
    let mut parts = vec![list(vec![]), absent(), receiver];
    parts.extend(args);
    n(Kind::MethodCall, method, parts)
}

fn marked_let(pattern: Node, init: Node) -> Node {
    n(Kind::Let, "", vec![list(vec![n(Kind::Attr, "with", vec![])]), pattern, init])
}

fn semi(e: Node) -> Node {
    n(Kind::Semi, "", vec![e])
}

fn block(stmts: Vec<Node>) -> Node {
    n(Kind::Block, "", stmts)
}

fn param(pattern: Node, ty: Node) -> Node {
    n(Kind::Param, "", vec![pattern, ty])
}

fn reference(scope: &str, referent: Node) -> Node {
    n(Kind::Ref, scope, vec![referent])
}

fn arm(pattern: &str, body: Node) -> Node {
    n(Kind::Arm, "", vec![verb(pattern), body])
}

fn never() -> Node {
    verb("{ let unreachable = it; match unreachable { ::with_locals::runtime::Unreachable::Never(never) => match never {} } }")
}

fn eval(early: bool, breaks: bool, continues: bool, stmts: Vec<Node>) -> Node {
    let ty = |used: bool| if used { verb("_") } else { verb("::with_locals::runtime::Unreachable") };
    call(
        n(
            Kind::Other,
            "::with_locals::runtime::ControlFlow::<_, {}, {}, {}>::Eval",
            vec![ty(early), ty(breaks), ty(continues)],
        ),
        vec![block(stmts)],
    )
}

fn site(subject: Node, on_return: Node, on_break: Node, on_continue: Node) -> Node {
    n(
        Kind::Match,
        "",
        vec![
            subject,
            arm("::with_locals::runtime::ControlFlow::Eval(it)", id("it")),
            arm("::with_locals::runtime::ControlFlow::EarlyReturn(it)", on_return),
            arm("::with_locals::runtime::ControlFlow::Break(it)", on_break),
            arm("::with_locals::runtime::ControlFlow::Continue(it)", on_continue),
        ],
    )
}

fn closure(binding: Node, body: Node) -> Node {
    n(Kind::Closure, "", vec![binding, body])
}


fn scope(name: &str) -> Node {
    n(Kind::Scope, name, vec![])
}

fn token(text: &str) -> Node {
    n(Kind::Token, text, vec![])
}

fn ret(value: Node) -> Node {
    n(Kind::Return, "", vec![value])
}

fn early(value: Node) -> Node {
    ret(call(verb("::with_locals::runtime::ControlFlow::EarlyReturn"), vec![value]))
}

fn with_attr(tokens: Vec<Node>) -> Node {
    n(Kind::Attr, "with", vec![list(tokens)])
}

fn propagation(subject: Node, exit: Node) -> Node {
    let converted = call(
        verb("::with_locals::runtime::Try::from_err"),
        vec![call(verb("::core::convert::Into::into"), vec![id("err")])],
    );
    let failure = block(vec![semi(ret(call(exit, vec![converted])))]);
    let unwrap = n(
        Kind::Match,
        "",
        vec![
            call(verb("::with_locals::runtime::Try::into_result"), vec![id("it")]),
            arm("::core::result::Result::Ok(it)", id("it")),
            arm("::core::result::Result::Err(err)", failure),
        ],
    );
    n(Kind::Match, "", vec![subject, n(Kind::Arm, "", vec![verb("it"), unwrap])])
}

fn decl(name: &str, params: Vec<Node>, output: Option<Node>, body: Option<Node>) -> Declaration {
    Declaration { attrs: vec![], name: name.to_string(), generics: vec![], params, output, body }
}

fn copy(d: &Declaration) -> Declaration {
    Declaration {
        attrs: d.attrs.iter().map(duplicate).collect(),
        name: d.name.clone(),
        generics: d.generics.iter().map(duplicate).collect(),
        params: d.params.iter().map(duplicate).collect(),
        output: d.output.as_ref().map(duplicate),
        body: d.body.as_ref().map(duplicate),
    }
}

fn fn_node(d: Declaration) -> Node {
    n(
        Kind::Fn,
        &d.name.clone(),
        vec![
            list(d.attrs),
            list(d.generics),
            list(d.params),
            d.output.unwrap_or_else(absent),
            d.body.unwrap_or_else(absent),
        ],
    )
}

#[test]
fn options_default_to_the_marker_ref() {
    let attrs = Attrs::parse(&vec![]).unwrap();
    assert_eq!(attrs.lifetime, "ref");
    assert_eq!(attrs.continuation, None);
    assert!(!attrs.dyn_safe);
    assert!(!attrs.recursive);
    assert_eq!(attrs, Attrs::new());
}

#[test]
fn options_are_read_in_any_order() {
    let tokens = vec![
        scope("local"),
        token(","),
        id("recursive"),
        token("="),
        id("true"),
        token(","),
        id("continuation_name"),
        token("="),
        id("ret"),
        token(","),
        id("dyn_safe"),
        token("="),
        id("false"),
    ];
    let attrs = Attrs::parse(&tokens).unwrap();
    assert_eq!(attrs.lifetime, "local");
    assert_eq!(attrs.continuation, Some("ret".to_string()));
    assert!(!attrs.dyn_safe);
    assert!(attrs.recursive);
    let attrs = Attrs::parse(&vec![id("dyn_safe"), token("="), id("true"), token(",")]).unwrap();
    assert!(attrs.dyn_safe);
    assert_eq!(attrs.lifetime, "ref");
}

#[test]
fn malformed_options_are_refused() {
    let bad: Vec<Vec<Node>> = vec![
        vec![scope("a"), id("recursive")],
        vec![id("recursive")],
        vec![id("recursive"), token("="), id("yes")],
        vec![id("recursive"), token(","), id("true")],
        vec![id("unknown"), token("="), id("true")],
        vec![id("continuation_name"), token("="), token("=")],
        vec![id("dyn_safe"), token("="), id("true"), id("true")],
        vec![token(",")],
    ];
    for tokens in bad.iter() {
        assert_eq!(Attrs::parse(tokens), Err(Error::Config));
    }
}

#[test]
fn binding_attribute_says_how_the_continuation_is_taken() {
    assert_eq!(parse_binding_mode(&vec![]), Ok(None));
    assert_eq!(parse_binding_mode(&vec![id("dyn_safe")]), Ok(Some(true)));
    assert_eq!(parse_binding_mode(&vec![id("dyn_safe"), token("="), id("false")]), Ok(Some(false)));
    assert_eq!(
        parse_binding_mode(&vec![id("dyn_safe"), token("="), id("true"), token(",")]),
        Ok(Some(true))
    );
    assert_eq!(parse_binding_mode(&vec![scope("a")]), Err(Error::Config));
    assert_eq!(parse_binding_mode(&vec![id("dyn_safe"), token("=")]), Err(Error::Config));
    assert_eq!(parse_binding_mode(&vec![id("dyn_safe"), id("x")]), Err(Error::Config));
}

#[test]
fn elided_scopes_are_replaced_outside_sealed_parts() {
    let ty = n(
        Kind::Other,
        "({}, {}, {}, {}, {})",
        vec![
            reference("", verb("A")),
            reference("_", verb("B")),
            reference("a", verb("C")),
            scope("_"),
            n(Kind::Sealed, "fn({}) -> {}", vec![reference("", verb("D")), scope("_")]),
        ],
    );
    let expected = n(
        Kind::Other,
        "({}, {}, {}, {}, {})",
        vec![
            reference("x", verb("A")),
            reference("x", verb("B")),
            reference("a", verb("C")),
            scope("x"),
            n(Kind::Sealed, "fn({}) -> {}", vec![reference("", verb("D")), scope("_")]),
        ],
    );
    assert_eq!(replace_each_lifetime_with(&ty, "x"), expected);
    assert_ne!(replace_each_lifetime_with(&ty, "x"), ty);
}

#[test]
fn marker_is_erased_everywhere() {
    let ty = n(
        Kind::Other,
        "{} + {}",
        vec![reference("ref", scope("ref")), n(Kind::Sealed, "fn({})", vec![scope("ref")])],
    );
    let expected = n(
        Kind::Other,
        "{} + {}",
        vec![reference("_", scope("_")), n(Kind::Sealed, "fn({})", vec![scope("_")])],
    );
    assert_eq!(rewrite(&ty, Pass::Erase, "ref"), expected);
    assert_eq!(rewrite(&ty, Pass::Keep, "ref"), ty);
}

#[test]
fn borrowed_receiver_decides_the_scope() {
    let d = decl(
        "get",
        vec![param(id("self"), reference("", verb("Self"))), param(id("k"), reference("", verb("K")))],
        Some(reference("", verb("V"))),
        None,
    );
    let out = unelide_lifetimes(&d).unwrap();
    assert_eq!(out.generics, vec![scope("__elided")]);
    assert_eq!(out.params[0], param(id("self"), reference("__elided", verb("Self"))));
    assert_eq!(out.params[1], param(id("k"), reference("", verb("K"))));
    assert_eq!(out.output, Some(reference("__elided", verb("V"))));

    let d = decl(
        "get",
        vec![param(id("self"), reference("a", verb("Self")))],
        Some(reference("_", verb("V"))),
        None,
    );
    let out = unelide_lifetimes(&d).unwrap();
    assert_eq!(out.generics, vec![]);
    assert_eq!(out.output, Some(reference("a", verb("V"))));
}

#[test]
fn single_input_scope_is_inferred() {
    let d = decl(
        "f",
        vec![param(id("x"), reference("", verb("X"))), param(id("n"), verb("u32"))],
        Some(reference("", verb("Y"))),
        None,
    );
    let out = unelide_lifetimes(&d).unwrap();
    assert_eq!(out.generics, vec![scope("__elided")]);
    assert_eq!(out.params[0], param(id("x"), reference("__elided", verb("X"))));
    assert_eq!(out.output, Some(reference("__elided", verb("Y"))));

    let d = decl(
        "f",
        vec![param(id("x"), reference("a", verb("X"))), param(id("y"), reference("a", verb("Y")))],
        Some(reference("_", verb("Z"))),
        None,
    );
    let out = unelide_lifetimes(&d).unwrap();
    assert_eq!(out.output, Some(reference("a", verb("Z"))));
    assert_eq!(out.generics, vec![scope("__elided")]);
}

#[test]
fn ambiguous_or_absent_scope_is_refused() {
    let none = decl("f", vec![param(id("n"), verb("u32"))], Some(reference("", verb("Y"))), None);
    assert_eq!(unelide_lifetimes(&none), Err(Error::ScopeInference { candidates: 0, first: 0, last: 0 }));
    let two = decl(
        "f",
        vec![param(id("x"), reference("", verb("X"))), param(id("y"), reference("b", verb("Y")))],
        Some(reference("_", verb("Z"))),
        None,
    );
    assert_eq!(
        unelide_lifetimes(&two),
        Err(Error::ScopeInference { candidates: 2, first: 0, last: 1 })
    );
    let three = decl(
        "f",
        vec![
            param(id("x"), reference("a", verb("X"))),
            param(id("y"), reference("b", verb("Y"))),
            param(id("z"), reference("", reference("a", verb("Z")))),
        ],
        Some(n(Kind::Other, "Option<{}>", vec![reference("ref", reference("", verb("Z")))])),
        None,
    );
    assert_eq!(
        handle_fn_like(&Attrs::new(), &three, Enclosing::Free),
        Err(Error::ScopeInference { candidates: 3, first: 0, last: 2 })
    );
    // A by-value receiver decides nothing.
    let by_value = decl("f", vec![param(id("self"), verb("Self"))], Some(reference("", verb("Y"))), None);
    assert_eq!(
        unelide_lifetimes(&by_value),
        Err(Error::ScopeInference { candidates: 0, first: 0, last: 0 })
    );
    // The error says between which parameters the scopes lie.
    let spread = decl(
        "f",
        vec![
            param(id("n"), verb("u32")),
            param(id("x"), reference("", verb("X"))),
            param(id("m"), verb("u32")),
            param(id("y"), reference("b", verb("Y"))),
            param(id("k"), verb("u32")),
        ],
        Some(reference("", verb("Z"))),
        None,
    );
    assert_eq!(
        unelide_lifetimes(&spread),
        Err(Error::ScopeInference { candidates: 2, first: 1, last: 3 })
    );
}

#[test]
fn exits_become_tags() {
    let stmts = vec![
        semi(ret(verb("1"))),
        semi(n(Kind::Return, "", vec![])),
        semi(n(Kind::Break, "", vec![verb("2")])),
        semi(n(Kind::Continue, "", vec![])),
        verb("3"),
    ];
    let wrapped = wrap_statements_inside_closure_body(&stmts).unwrap();
    let expected = vec![
        semi(early(verb("1"))),
        semi(early(verb("()"))),
        semi(ret(call(verb("::with_locals::runtime::ControlFlow::Break"), vec![verb("2")]))),
        semi(ret(call(verb("::with_locals::runtime::ControlFlow::Continue"), vec![verb("()")]))),
        verb("3"),
    ];
    assert_eq!(wrapped.closure_body, eval(true, true, true, expected));
    assert_eq!(wrapped.wrap_ret, ret(id("it")));
    assert_eq!(wrapped.wrap_break, n(Kind::Break, "", vec![id("it")]));
}

#[test]
fn nested_iteration_keeps_its_own_exits() {
    let inner = n(
        Kind::Loop,
        "loop {}",
        vec![block(vec![
            semi(n(Kind::Break, "", vec![])),
            semi(n(Kind::Continue, "'outer", vec![])),
            semi(ret(verb("1"))),
        ])],
    );
    let wrapped = wrap_statements_inside_closure_body(&vec![inner]).unwrap();
    let expected = n(
        Kind::Loop,
        "loop {}",
        vec![block(vec![
            semi(n(Kind::Break, "", vec![])),
            semi(n(Kind::Continue, "'outer", vec![])),
            semi(early(verb("1"))),
        ])],
    );
    assert_eq!(wrapped.closure_body, eval(true, false, false, vec![expected]));
    assert_eq!(wrapped.wrap_break, never());
    assert_eq!(wrapped.wrap_continue, never());
}

#[test]
fn labelled_exits_are_refused() {
    let stmts = vec![semi(n(Kind::Break, "'outer", vec![]))];
    assert_eq!(wrap_statements_inside_closure_body(&stmts), Err(Error::UnsupportedControlFlow));
    let stmts = vec![n(Kind::If, "", vec![verb("c"), block(vec![n(Kind::Continue, "'a", vec![])])])];
    assert_eq!(wrap_statements_inside_closure_body(&stmts), Err(Error::UnsupportedControlFlow));
}

#[test]
fn closures_and_items_are_not_entered() {
    let stmts = vec![
        semi(closure(id("x"), ret(verb("1")))),
        n(Kind::Item, "fn f() { return 2; }", vec![]),
        n(Kind::Item, "fn {}() {}", vec![n(Kind::Break, "", vec![])]),
    ];
    let wrapped = wrap_statements_inside_closure_body(&stmts).unwrap();
    let same = vec![
        semi(closure(id("x"), ret(verb("1")))),
        n(Kind::Item, "fn f() { return 2; }", vec![]),
        n(Kind::Item, "fn {}() {}", vec![n(Kind::Break, "", vec![])]),
    ];
    assert_eq!(wrapped.closure_body, eval(false, false, false, same));
    assert_eq!(wrapped.wrap_ret, never());
}

#[test]
fn propagation_returns_the_converted_error() {
    let stmts = vec![n(Kind::Try, "", vec![call(path("f"), vec![])])];
    let wrapped = wrap_statements_inside_closure_body(&stmts).unwrap();
    let expected = propagation(
        call(path("f"), vec![]),
        verb("::with_locals::runtime::ControlFlow::EarlyReturn"),
    );
    assert_eq!(wrapped.closure_body, eval(true, false, false, vec![expected]));
    assert_eq!(wrapped.wrap_ret, ret(id("it")));
}

#[test]
fn two_marked_bindings_nest_two_deep() {
    let tail = || vec![semi(verb("use_both(a, b)")), verb("a.len() + b.len()")];
    let source = block(vec![
        semi(verb("before()")),
        marked_let(id("a"), call(path("first"), vec![verb("1")])),
        semi(verb("between(a)")),
        marked_let(id("b"), method_call(id("a"), "second", vec![])),
        tail()[0].clone_shape(),
        tail()[1].clone_shape(),
    ]);
    let out = handle_let_bindings(&source, &Attrs::new()).unwrap();
    let innermost = eval(false, false, false, tail());
    let inner_site = site(
        method_call(id("a"), "with_second", vec![closure(id("b"), innermost)]),
        never(),
        never(),
        never(),
    );
    let outer_body = eval(false, false, false, vec![semi(verb("between(a)")), inner_site]);
    let expected = block(vec![
        semi(verb("before()")),
        site(
            call(path("with_first"), vec![verb("1"), closure(id("a"), outer_body)]),
            never(),
            never(),
            never(),
        ),
    ]);
    assert_eq!(out, expected);
}

trait CloneShape {
    fn clone_shape(&self) -> Node;
}

impl CloneShape for Node {
    fn clone_shape(&self) -> Node {
        duplicate(self)
    }
}

#[test]
fn exits_cross_every_continuation_they_sit_in() {
    let source = block(vec![
        marked_let(id("a"), call(path("f"), vec![])),
        marked_let(id("b"), call(path("g"), vec![])),
        semi(ret(verb("1"))),
    ]);
    let out = handle_let_bindings(&source, &Attrs::new()).unwrap();
    let inner = site(
        call(
            path("with_g"),
            vec![closure(id("b"), eval(
                true,
                false,
                false,
                vec![semi(early(call(
                    verb("::with_locals::runtime::ControlFlow::EarlyReturn"),
                    vec![verb("1")],
                )))],
            ))],
        ),
        ret(id("it")),
        never(),
        never(),
    );
    let expected = block(vec![site(
        call(path("with_f"), vec![closure(id("a"), eval(true, false, false, vec![inner]))]),
        ret(id("it")),
        never(),
        never(),
    )]);
    assert_eq!(out, expected);
}

#[test]
fn marker_scope_in_the_pattern_marks_a_binding() {
    let pattern = n(Kind::Other, "x: {}", vec![reference("ref", verb("str"))]);
    let source = block(vec![
        n(Kind::Let, "", vec![list(vec![]), pattern, call(path("f"), vec![])]),
        verb("x"),
    ]);
    let out = handle_let_bindings(&source, &Attrs::new()).unwrap();
    let erased = n(Kind::Other, "x: {}", vec![reference("_", verb("str"))]);
    let expected = block(vec![site(
        call(path("with_f"), vec![closure(erased, eval(false, false, false, vec![verb("x")]))]),
        never(),
        never(),
        never(),
    )]);
    assert_eq!(out, expected);
    // With another marker the binding is an ordinary one.
    let other = Attrs::parse(&vec![scope("local")]).unwrap();
    assert_eq!(handle_let_bindings(&source, &other).unwrap(), source);
}

#[test]
fn explicit_type_arguments_get_two_more() {
    let callee = n(Kind::Path, "f", vec![verb("m::"), list(vec![verb("T")])]);
    let source = block(vec![marked_let(id("x"), call(callee, vec![]))]);
    let out = handle_let_bindings(&source, &Attrs::new()).unwrap();
    let target = n(
        Kind::Path,
        "with_f",
        vec![verb("m::"), list(vec![verb("T"), verb("_"), verb("_")])],
    );
    assert_eq!(out.parts[0].parts[0].parts[1], target);
    let receiver = n(
        Kind::MethodCall,
        "get",
        vec![list(vec![]), list(vec![verb("K")]), id("map"), id("key")],
    );
    let source = block(vec![marked_let(id("x"), receiver)]);
    let out = handle_let_bindings(&source, &Attrs::new()).unwrap();
    let call = &out.parts[0].parts[0];
    assert_eq!(call.text, "with_get");
    assert_eq!(call.parts[1], list(vec![verb("K"), verb("_"), verb("_")]));
    assert_eq!(call.parts.len(), 5);
}

#[test]
fn one_layer_of_propagation_is_peeled() {
    let source = block(vec![
        marked_let(id("x"), n(Kind::Try, "", vec![call(path("f"), vec![verb("1")])])),
        verb("x"),
    ]);
    let out = handle_let_bindings(&source, &Attrs::new()).unwrap();
    let again = n(
        Kind::Let,
        "",
        vec![
            list(vec![]),
            id("x"),
            propagation(
                id("__with_locals_anon__"),
                verb("::with_locals::runtime::ControlFlow::EarlyReturn"),
            ),
        ],
    );
    let expected = block(vec![site(
        call(
            path("with_f"),
            vec![
                verb("1"),
                closure(id("__with_locals_anon__"), eval(true, false, false, vec![again, verb("x")])),
            ],
        ),
        ret(id("it")),
        never(),
        never(),
    )]);
    assert_eq!(out, expected);
    // A second layer is not.
    let twice = n(Kind::Try, "", vec![n(Kind::Try, "", vec![call(path("f"), vec![])])]);
    let source = block(vec![marked_let(id("x"), twice)]);
    assert_eq!(handle_let_bindings(&source, &Attrs::new()), Err(Error::Shape(Shape::NotACall)));
}

#[test]
fn shapes_that_are_not_taken() {
    let attrs = Attrs::new();
    let missing = block(vec![marked_let(id("x"), absent())]);
    assert_eq!(handle_let_bindings(&missing, &attrs), Err(Error::Shape(Shape::MissingInitializer)));
    let no_call = block(vec![marked_let(id("x"), verb("1 + 1"))]);
    assert_eq!(handle_let_bindings(&no_call, &attrs), Err(Error::Shape(Shape::NotACall)));
    let no_name = block(vec![marked_let(id("x"), call(verb("(make())"), vec![]))]);
    assert_eq!(handle_let_bindings(&no_name, &attrs), Err(Error::Shape(Shape::NotAFunctionName)));
    let attributed = n(
        Kind::Call,
        "",
        vec![list(vec![n(Kind::Attr, "inline", vec![])]), path("f")],
    );
    let with_attrs = block(vec![marked_let(id("x"), attributed)]);
    assert_eq!(handle_let_bindings(&with_attrs, &attrs), Err(Error::Shape(Shape::AttributesOnCall)));
    let misplaced = block(vec![n(
        Kind::Other,
        "{} x = f();",
        vec![list(vec![n(Kind::Attr, "with", vec![])]), verb("x = f()")],
    )]);
    assert_eq!(handle_let_bindings(&misplaced, &attrs), Err(Error::Shape(Shape::MisplacedMarker)));
    let bad_mode = block(vec![n(
        Kind::Let,
        "",
        vec![list(vec![with_attr(vec![scope("a")])]), id("x"), call(path("f"), vec![])],
    )]);
    assert_eq!(handle_let_bindings(&bad_mode, &attrs), Err(Error::Config));
    let labelled = block(vec![
        marked_let(id("x"), call(path("f"), vec![])),
        semi(n(Kind::Break, "'a", vec![])),
    ]);
    assert_eq!(handle_let_bindings(&labelled, &attrs), Err(Error::UnsupportedControlFlow));
}

#[test]
fn nesting_is_bounded_by_the_fuel() {
    let source = block(vec![
        marked_let(id("a"), call(path("f"), vec![])),
        marked_let(id("b"), call(path("g"), vec![])),
    ]);
    assert_eq!(rewrite_bindings(&source, "ref", false, 1), Err(Error::NestingLimit));
    assert!(rewrite_bindings(&source, "ref", false, 2).is_ok());
    assert_eq!(rewrite_bindings(&source, "ref", false, 0), Err(Error::NestingLimit));
}

#[test]
fn type_erased_calls_go_through_a_slot() {
    let source = block(vec![
        n(
            Kind::Let,
            "",
            vec![list(vec![with_attr(vec![id("dyn_safe")])]), id("x"), call(path("f"), vec![])],
        ),
        verb("x"),
    ]);
    let out = handle_let_bindings(&source, &Attrs::new()).unwrap();
    let subject = &out.parts[0].parts[0];
    assert_eq!(subject.kind, Kind::Other);
    assert!(subject.text.contains("__with_locals_ret_slot__.unwrap()"));
    let call = &subject.parts[0];
    assert_eq!(call.parts[1], path("with_f"));
    let handed = &call.parts[2];
    assert_eq!(handed.kind, Kind::Other);
    assert!(handed.text.starts_with("&mut {"));
    assert_eq!(handed.parts[0], closure(id("x"), eval(false, false, false, vec![verb("x")])));
}

#[test]
fn tail_values_are_returned_explicitly() {
    let body = block(vec![
        semi(verb("setup()")),
        n(
            Kind::If,
            "",
            vec![
                verb("c"),
                block(vec![verb("1")]),
                n(
                    Kind::Match,
                    "",
                    vec![
                        verb("m"),
                        n(Kind::Arm, "", vec![verb("A"), verb("2")]),
                        n(Kind::Arm, "", vec![verb("B"), block(vec![verb("3")])]),
                        n(Kind::Arm, "", vec![verb("C"), block(vec![semi(verb("4"))])]),
                        n(Kind::Arm, "", vec![verb("D"), n(Kind::Loop, "loop {}", vec![block(vec![verb("5")])])]),
                    ],
                ),
            ],
        ),
    ]);
    let expected = block(vec![
        semi(verb("setup()")),
        n(
            Kind::If,
            "",
            vec![
                verb("c"),
                block(vec![ret(verb("1"))]),
                n(
                    Kind::Match,
                    "",
                    vec![
                        verb("m"),
                        n(Kind::Arm, "", vec![verb("A"), ret(verb("2"))]),
                        n(Kind::Arm, "", vec![verb("B"), block(vec![ret(verb("3"))])]),
                        n(Kind::Arm, "", vec![verb("C"), ret(block(vec![semi(verb("4"))]))]),
                        n(
                            Kind::Arm,
                            "",
                            vec![verb("D"), ret(n(Kind::Loop, "loop {}", vec![block(vec![verb("5")])]))],
                        ),
                    ],
                ),
            ],
        ),
    ]);
    assert_eq!(return_block(&body), expected);
    let no_tail = block(vec![semi(verb("x"))]);
    assert_eq!(return_block(&no_tail), no_tail);
    let plain = block(vec![verb("x")]);
    assert_eq!(return_block(&plain), block(vec![ret(verb("x"))]));
}

#[test]
fn declaration_without_marker_is_unchanged() {
    let d = Declaration {
        attrs: vec![n(Kind::Attr, "inline", vec![])],
        name: "f".to_string(),
        generics: vec![verb("T")],
        params: vec![param(id("x"), reference("", verb("T")))],
        output: Some(reference("", verb("T"))),
        body: Some(block(vec![
            n(Kind::Let, "", vec![list(vec![]), id("y"), call(path("g"), vec![id("x")])]),
            semi(ret(id("y"))),
            n(Kind::Try, "", vec![id("x")]),
        ])),
    };
    for scope in [Enclosing::Free, Enclosing::Trait, Enclosing::Impl] {
        let out = handle_fn_like(&Attrs::new(), &d, scope).unwrap();
        assert_eq!(out, d);
        let again = handle_fn_like(&Attrs::new(), &out, scope).unwrap();
        assert_eq!(again, out);
    }
}

#[test]
fn rewritten_declaration_is_left_alone_by_a_second_run() {
    let d = decl(
        "f",
        vec![param(id("x"), reference("", verb("T")))],
        Some(reference("ref", verb("U"))),
        Some(block(vec![
            marked_let(id("y"), call(path("g"), vec![id("x")])),
            n(Kind::Try, "", vec![call(path("h"), vec![id("y")])]),
        ])),
    );
    let once = handle_fn_like(&Attrs::new(), &d, Enclosing::Free).unwrap();
    assert_ne!(once, d);
    let twice = handle_fn_like(&Attrs::new(), &once, Enclosing::Free).unwrap();
    assert_eq!(twice, once);
}

#[test]
fn body_hands_its_values_to_the_continuation() {
    let d = decl(
        "f",
        vec![],
        Some(reference("ref", verb("U"))),
        Some(block(vec![
            semi(n(Kind::Try, "", vec![call(path("check"), vec![])])),
            semi(closure(id("x"), ret(verb("inner")))),
            n(Kind::If, "", vec![verb("c"), block(vec![verb("a")]), block(vec![semi(ret(verb("b")))])]),
        ])),
    );
    let out = handle_returning_locals(&d, &Attrs::new(), Enclosing::Free).unwrap();
    let through = |v: Node| ret(call(id("__continuation__"), vec![v]));
    let expected = block(vec![
        semi(propagation(call(path("check"), vec![]), id("__continuation__"))),
        semi(closure(id("x"), ret(verb("inner")))),
        n(
            Kind::If,
            "",
            vec![verb("c"), block(vec![through(verb("a"))]), block(vec![semi(through(verb("b")))])],
        ),
    ]);
    let body = out.body.unwrap();
    assert_eq!(body.parts.len(), 2);
    assert_eq!(body.parts[0].kind, Kind::Other);
    assert_eq!(body.parts[0].parts.len(), 5);
    assert_eq!(body.parts[0].parts[3], reference("_", verb("U")));
    assert_eq!(body.parts[1], expected);
    assert_eq!(out.attrs.len(), 1);
    assert_eq!(out.attrs[0].text, "allow");
}

#[test]
fn named_continuation_is_left_to_the_author() {
    let attrs = Attrs::parse(&vec![
        scope("_"),
        token(","),
        id("continuation_name"),
        token("="),
        id("ret"),
    ])
    .unwrap();
    let d = decl(
        "iter_refcells",
        vec![param(id("refcells"), reference("_", verb("[RefCell<Item>]")))],
        Some(reference("_", verb("mut dyn Iterator"))),
        Some(block(vec![verb("ret(guards.iter().by_ref())")])),
    );
    let out = handle_returning_locals(&d, &attrs, Enclosing::Free).unwrap();
    assert_eq!(out.name, "with_iter_refcells");
    assert_eq!(out.params[1].parts[0], id("ret"));
    assert_eq!(out.generics[0], scope("__elided"));
    let body = out.body.unwrap();
    assert_eq!(body.parts.len(), 3);
    assert_eq!(body.parts[1].kind, Kind::Item);
    assert_eq!(body.parts[1].parts, vec![id("ret"), id("ret")]);
    assert_eq!(body.parts[2], block(vec![verb("ret(guards.iter().by_ref())")]));
}

#[test]
fn type_erased_signature_has_no_generic_continuation() {
    let attrs = Attrs::parse(&vec![id("dyn_safe"), token("="), id("true")]).unwrap();
    let d = decl(
        "next",
        vec![param(id("self"), reference("_", verb("mut Self")))],
        Some(n(Kind::Other, "Option<{}>", vec![reference("ref", verb("i32"))])),
        None,
    );
    let out = handle_fn_like(&attrs, &d, Enclosing::Trait).unwrap();
    assert_eq!(out.name, "with_next");
    assert_eq!(out.generics, vec![scope("__elided")]);
    assert_eq!(out.output, Some(verb("::with_locals::runtime::ContinuationReturn")));
    let callback = &out.params[1].parts[1];
    assert_eq!(callback.kind, Kind::Other);
    assert!(callback.text.contains("FnMut"));
    assert_eq!(callback.parts, vec![n(Kind::Other, "Option<{}>", vec![reference("_", verb("i32"))])]);
}

#[test]
fn self_calling_method_needs_its_block() {
    let attrs = Attrs::parse(&vec![id("recursive"), token("="), id("true")]).unwrap();
    let d = decl(
        "walk",
        vec![param(id("self"), reference("", verb("Self"))), param(verb("(a, b)"), verb("(u8, u8)"))],
        Some(reference("ref", verb("str"))),
        Some(block(vec![verb("\"leaf\"")])),
    );
    assert_eq!(handle_fn_like(&attrs, &d, Enclosing::Free), Err(Error::MissingEnclosingTransform));
    let out = handle_fn_like(&attrs, &d, Enclosing::Impl).unwrap();
    assert_eq!(out.name, "with_walk");
    assert_eq!(out.params[1].parts[0], id("arg_1"));
    let body = out.body.unwrap();
    let wrapper = &body.parts[1];
    assert_eq!(wrapper.parts.len(), 4);
    let invoke = &wrapper.parts[2].parts[0];
    assert_eq!(invoke.kind, Kind::Call);
    let sibling = &invoke.parts[1];
    assert_eq!(sibling.kind, Kind::Sibling);
    assert_eq!(sibling.text, "impl");
    let twin = &sibling.parts[0];
    assert_eq!(twin.kind, Kind::Fn);
    assert_eq!(twin.text, "__recurse_with_walk");
    assert_eq!(twin.parts[1].parts.len(), 2);
    assert_eq!(twin.parts[2].parts[1], param(verb("(a, b)"), verb("(u8, u8)")));
    assert_eq!(twin.parts[2].parts[2].parts[0], id("__continuation__"));
    assert_eq!(&invoke.parts[2..4], &[id("self"), id("arg_1")]);
    assert_eq!(invoke.parts[4].kind, Kind::Other);
    assert_eq!(invoke.parts.len(), 5);
    // A free function can be split where it stands.
    let free = decl("f", vec![param(id("arg_x"), verb("bool"))], Some(reference("ref", verb("()"))), Some(block(vec![verb("&()")])));
    let out = handle_fn_like(&attrs, &free, Enclosing::Free).unwrap();
    assert_eq!(out.params[0].parts[0], id("arg_0"));
}

fn direct(recurse: bool) -> String {
    if recurse {
        format!("<{}>", direct(false))
    } else {
        "leaf".to_string()
    }
}

fn recurse_with_walk(recurse: bool, with: &mut dyn FnMut(&str)) {
    if recurse {
        let mut slot = None;
        recurse_with_walk(false, &mut |inner: &str| {
            slot = Some(format!("<{}>", inner));
        });
        let text = slot.expect("failed to call the continuation");
        with(&text)
    } else {
        with("leaf")
    }
}

fn with_walk<R>(recurse: bool, continuation: impl FnOnce(&str) -> R) -> R {
    let mut slot = None;
    let mut continuation = Some(continuation);
    recurse_with_walk(recurse, &mut |ret: &str| {
        slot = Some(continuation.take().expect("called twice")(ret));
    });
    slot.expect("failed to call the continuation")
}

#[test]
fn split_recursion_gives_what_direct_recursion_gives() {
    for depth in [false, true] {
        let seen = with_walk(depth, |text| text.to_string());
        assert_eq!(seen, direct(depth));
    }
    assert_eq!(with_walk(false, |text| text.len()), 4);
    assert_eq!(with_walk(true, |text| text.to_string()), "<leaf>");
}

#[test]
fn engine_takes_functions_traits_and_impls() {
    let f = decl("f", vec![], Some(reference("ref", verb("U"))), None);
    let out = with(&vec![], &fn_node(copy(&f))).unwrap();
    assert_eq!(out.kind, Kind::Fn);
    assert_eq!(out.text, "with_f");
    assert_eq!(with(&vec![token("?")], &fn_node(copy(&f))), Err(Error::Config));
    assert_eq!(with(&vec![], &verb("struct S;")), Err(Error::Shape(Shape::NotADeclaration)));

    let mut own = copy(&f);
    own.attrs = vec![n(Kind::Attr, "inline", vec![]), with_attr(vec![scope("local")])];
    own.name = "g".to_string();
    let mut twice = copy(&f);
    twice.attrs = vec![with_attr(vec![]), with_attr(vec![])];
    let members = vec![fn_node(copy(&f)), verb("const N: usize = 1;"), fn_node(own)];
    let item = n(Kind::Impl, "impl S", members);
    let out = with(&vec![], &item).unwrap();
    assert_eq!(out.kind, Kind::Impl);
    assert_eq!(out.text, "impl S");
    assert_eq!(out.parts[0].text, "with_f");
    assert_eq!(out.parts[1], verb("const N: usize = 1;"));
    // The member's own marker is `local`: its return type does not name it, so
    // only the attribute is taken off.
    let mut kept = copy(&f);
    kept.attrs = vec![n(Kind::Attr, "inline", vec![])];
    kept.name = "g".to_string();
    assert_eq!(out.parts[2], fn_node(kept));

    let item = n(Kind::Trait, "trait T", vec![fn_node(twice)]);
    assert_eq!(
        with_trait(&Attrs::new(), &item),
        Err(Error::Shape(Shape::DuplicateConfiguration))
    );
    // The attribute of a member needs an argument, if an empty one.
    let mut bare = copy(&f);
    bare.attrs = vec![n(Kind::Attr, "with", vec![])];
    let item = n(Kind::Impl, "impl S", vec![fn_node(bare)]);
    assert_eq!(with_impl(&Attrs::new(), &item), Err(Error::Config));
    let mut empty = copy(&f);
    empty.attrs = vec![with_attr(vec![])];
    let item = n(Kind::Impl, "impl S", vec![fn_node(empty)]);
    assert_eq!(with_impl(&Attrs::new(), &item).unwrap().parts[0].text, "with_f");
    let mut bad = copy(&f);
    bad.attrs = vec![with_attr(vec![id("recursive")])];
    let item = n(Kind::Impl, "impl S", vec![fn_node(bad)]);
    assert_eq!(with_impl(&Attrs::new(), &item), Err(Error::Config));
}

#[test]
fn numbers_are_written_in_decimal() {
    assert_eq!(decimal(0), "0");
    assert_eq!(decimal(7), "7");
    assert_eq!(decimal(10), "10");
    assert_eq!(decimal(4294967295), "4294967295");
    assert_eq!(arg(12), "arg_12");
}

#[test]
fn question_mark_types_convert_both_ways() {
    let ok: Result<u8, &str> = Ok(1);
    assert_eq!(Try::into_result(ok), Ok(1));
    let err: Result<u8, &str> = Err("no");
    assert_eq!(Try::into_result(err), Err("no"));
    assert_eq!(<Result<u8, &str> as Try>::from_ok(2), Ok(2));
    assert_eq!(<Result<u8, &str> as Try>::from_err("e"), Err("e"));
    assert_eq!(Try::into_result(Some(3)), Ok(3));
    assert_eq!(Try::into_result(None::<u8>), Err(NoneError));
    assert_eq!(<Option<u8> as Try>::from_ok(4), Some(4));
    assert_eq!(<Option<u8> as Try>::from_err(NoneError), None);
    let flow: ControlFlow<u8, u8, (), ()> = ControlFlow::EarlyReturn(5);
    assert!(matches!(flow, ControlFlow::EarlyReturn(5)));
    assert_eq!(ContinuationReturn, ContinuationReturn);
}

#[test]
fn continuation_gets_a_borrow_of_the_innermost_value() {
    let s = Struct { foo: Foo { bar: Bar { value: 42 } } };
    assert_eq!(s.with_bar(|bar| bar.value + 1), 43);
    assert_eq!(s.with_bar(|bar| *bar), Bar { value: 42 });
    let cells = vec![s, Struct { foo: Foo { bar: Bar { value: 27 } } }];
    assert_eq!(sum(&cells), 69);
    assert_eq!(sum(&vec![]), 0);
    let big = vec![Struct { foo: Foo { bar: Bar { value: u32::MAX } } }; 3];
    assert_eq!(sum(&big), 3 * (u32::MAX as u128));
}

#[test]
fn failures_are_reported_in_words() {
    assert_eq!(message(Error::Config), "malformed `#[with]` arguments");
    assert_eq!(
        message(Error::ScopeInference { candidates: 12, first: 0, last: 3 }),
        "missing lifetime specifier: this function's return type contains a borrowed value, but \
         the signature does not say which one of the arguments' 12 lifetimes it is borrowed from; \
         specify it using explicitly named lifetime parameters"
    );
    assert!(message(Error::ScopeInference { candidates: 0, first: 0, last: 0 }).ends_with("no value for it to be borrowed from"));
    assert_eq!(message(Error::Shape(Shape::MissingInitializer)), "Missing expression");
    assert_eq!(message(Error::Shape(Shape::NotAFunctionName)), "Expected a function name");
    assert_eq!(
        message(Error::Shape(Shape::MisplacedMarker)),
        "`#[with]` must be applied to a `let` binding."
    );
    assert_eq!(message(Error::Shape(Shape::DuplicateConfiguration)), "Duplicate `#[with]` attribute");
    assert!(message(Error::Shape(Shape::NotACall)).starts_with("expected `function(...)`"));
    assert!(message(Error::Shape(Shape::AttributesOnCall)).contains("attributes"));
    assert!(message(Error::Shape(Shape::NotADeclaration)).contains("`trait`"));
    assert!(message(Error::UnsupportedControlFlow).contains("labelled"));
    assert!(message(Error::MissingEnclosingTransform).starts_with("Missing `#[with]`"));
    assert!(message(Error::NestingLimit).contains("too deep"));
}
