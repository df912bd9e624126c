use core::cell::RefCell;
use core::fmt::Display;
use with_locals::bindings::handle_let_bindings;
use with_locals::config::Attrs;
use with_locals::control_flow::wrap_statements_inside_closure_body;
use with_locals::declaration::Declaration;
use with_locals::runtime::{ControlFlow, Try, Unreachable};
use with_locals::syntax::{Kind, Node};
use with_locals::transform::{handle_fn_like, Enclosing};

fn n(kind: Kind, text: &str, parts: Vec<Node>) -> Node {
    Node { kind, text: text.to_string(), parts }
}

fn id(name: &str) -> Node {
    n(Kind::Ident, name, vec![])
}

fn verb(text: &str) -> Node {
    n(Kind::Other, text, vec![])
}

fn list(parts: Vec<Node>) -> Node {
    n(Kind::List, "", parts)
}

fn absent() -> Node {
    n(Kind::Absent, "", vec![])
}

fn path(name: &str) -> Node {
    n(Kind::Path, name, vec![verb(""), absent()])
}

fn call(callee: Node, args: Vec<Node>) -> Node {
    let mut parts = vec![list(vec![]), callee];
    parts.extend(args);
    n(Kind::Call, "", parts)
}

fn method_call(receiver: Node, method: &str, args: Vec<Node>) -> Node {
    let mut parts = vec![list(vec![]), absent(), receiver];
    parts.extend(args);
    n(Kind::MethodCall, method, parts)
}

fn marked_let(pattern: Node, init: Node) -> Node {
    n(Kind::Let, "", vec![list(vec![n(Kind::Attr, "with", vec![])]), pattern, init])
}

fn semi(e: Node) -> Node {
    n(Kind::Semi, "", vec![e])
}

fn block(stmts: Vec<Node>) -> Node {
    n(Kind::Block, "", stmts)
}

fn param(pattern: Node, ty: Node) -> Node {
    n(Kind::Param, "", vec![pattern, ty])
}

fn reference(scope: &str, referent: Node) -> Node {
    n(Kind::Ref, scope, vec![referent])
}

fn arm(pattern: &str, body: Node) -> Node {
    n(Kind::Arm, "", vec![verb(pattern), body])
}

fn never() -> Node {
    verb("{ let unreachable = it; match unreachable { ::with_locals::runtime::Unreachable::Never(never) => match never {} } }")
}

fn eval(early: bool, breaks: bool, continues: bool, stmts: Vec<Node>) -> Node {
    let ty = |used: bool| if used { verb("_") } else { verb("::with_locals::runtime::Unreachable") };
    call(
        n(
            Kind::Other,
            "::with_locals::runtime::ControlFlow::<_, {}, {}, {}>::Eval",
            vec![ty(early), ty(breaks), ty(continues)],
        ),
        vec![block(stmts)],
    )
}

fn site(subject: Node, on_return: Node, on_break: Node, on_continue: Node) -> Node {
    n(
        Kind::Match,
        "",
        vec![
            subject,
            arm("::with_locals::runtime::ControlFlow::Eval(it)", id("it")),
            arm("::with_locals::runtime::ControlFlow::EarlyReturn(it)", on_return),
            arm("::with_locals::runtime::ControlFlow::Break(it)", on_break),
            arm("::with_locals::runtime::ControlFlow::Continue(it)", on_continue),
        ],
    )
}

fn closure(binding: Node, body: Node) -> Node {
    n(Kind::Closure, "", vec![binding, body])
}

fn with_hex<R>(number: u32, continuation: impl FnOnce(&dyn Display) -> R) -> R {
    let text = format!("{:#x}", number);
    continuation(&text)
}

#[test]
fn hex() {
    // The declaration `fn hex(n: u32) -> &'ref dyn Display { &format_args!("{:#x}", n) }`.
    let decl = Declaration {
        attrs: vec![],
        name: "hex".to_string(),
        generics: vec![],
        params: vec![param(id("n"), verb("u32"))],
        output: Some(reference("ref", verb("dyn Display"))),
        body: Some(block(vec![verb("&format_args!(\"{:#x}\", n)")])),
    };
    let out = handle_fn_like(&Attrs::new(), &decl, Enclosing::Free).unwrap();
    assert_eq!(out.name, "with_hex");
    assert_eq!(out.output, Some(id("__Continuation_Return__")));
    assert_eq!(out.params.len(), 2);
    assert_eq!(out.params[1], param(id("__continuation__"), id("__Continuation__")));
    let yields = reference("_", verb("dyn Display"));
    assert_eq!(
        out.generics,
        vec![
            id("__Continuation_Return__"),
            n(
                Kind::Other,
                "__Continuation__: ::core::ops::FnOnce({}) -> __Continuation_Return__",
                vec![yields],
            ),
        ]
    );
    let body = out.body.unwrap();
    assert_eq!(body.parts.len(), 2);
    assert_eq!(
        body.parts[1],
        block(vec![n(
            Kind::Return,
            "",
            vec![call(id("__continuation__"), vec![verb("&format_args!(\"{:#x}\", n)")])]
        )])
    );

    // The caller: `#[with] let s_hex = hex(66); assert_eq!(s_hex.to_string(), "0x42");`.
    let check = semi(verb("assert_eq!(s_hex.to_string(), \"0x42\")"));
    let caller = block(vec![
        marked_let(id("s_hex"), call(path("hex"), vec![verb("66")])),
        check,
    ]);
    let rewritten = handle_let_bindings(&caller, &Attrs::new()).unwrap();
    let check = semi(verb("assert_eq!(s_hex.to_string(), \"0x42\")"));
    let expected = block(vec![site(
        call(
            path("with_hex"),
            vec![verb("66"), closure(id("s_hex"), eval(false, false, false, vec![check]))],
        ),
        never(),
        never(),
        never(),
    )]);
    assert_eq!(rewritten, expected);

    // What the rewritten caller does when it runs.
    let flow = with_hex(66, |s_hex| {
        ControlFlow::<_, Unreachable, Unreachable, Unreachable>::Eval({
            assert_eq!(s_hex.to_string(), "0x42");
        })
    });
    assert!(matches!(flow, ControlFlow::Eval(())));
}

fn with_to_str<R>(number: &u32, continuation: impl FnOnce(&str) -> R) -> R {
    let mut x = *number;
    if x == 0 {
        return continuation("0");
    }
    let mut buf = [b' '; 1 + 3 + 3 + 3];
    let mut cursor = buf.len();
    while x > 0 {
        cursor -= 1;
        buf[cursor] = b'0' + (x % 10) as u8;
        x /= 10;
    }
    continuation(core::str::from_utf8(&buf[cursor..]).unwrap())
}

#[test]
fn basic() {
    // The method `fn to_str(self: &'_ u32) -> &'local str`, marker `local`.
    let decl = Declaration {
        attrs: vec![],
        name: "to_str".to_string(),
        generics: vec![],
        params: vec![param(id("self"), reference("_", verb("u32")))],
        output: Some(reference("local", verb("str"))),
        body: None,
    };
    let tokens = vec![n(Kind::Scope, "local", vec![])];
    let attrs = Attrs::parse(&tokens).unwrap();
    let out = handle_fn_like(&attrs, &decl, Enclosing::Trait).unwrap();
    assert_eq!(out.name, "with_to_str");
    assert_eq!(out.params[0], param(id("self"), reference("__elided", verb("u32"))));
    assert_eq!(out.generics[0], n(Kind::Scope, "__elided", vec![]));
    assert_eq!(out.body, None);

    // The caller: `#[with] let n: &str = u32::MAX.to_str(); assert_eq!(n.parse(), Ok(u32::MAX));`.
    let caller = block(vec![
        marked_let(verb("n: &str"), method_call(verb("::core::u32::MAX"), "to_str", vec![])),
        semi(verb("assert_eq!(n.parse(), Ok(::core::u32::MAX))")),
    ]);
    let rewritten = handle_let_bindings(&caller, &attrs).unwrap();
    assert_eq!(rewritten.parts.len(), 1);
    assert_eq!(rewritten.parts[0].parts[0].kind, Kind::MethodCall);
    assert_eq!(rewritten.parts[0].parts[0].text, "with_to_str");

    let flow = with_to_str(&core::u32::MAX, |n| {
        ControlFlow::<_, Unreachable, Unreachable, Unreachable>::Eval({
            assert_eq!(n.parse(), Ok(core::u32::MAX));
        })
    });
    assert!(matches!(flow, ControlFlow::Eval(())));
}

struct Roman(u8);

impl Roman {
    fn with_to_str<R>(&self, continuation: impl FnOnce(&str) -> R) -> R {
        let mut buf = [b' '; 1 + 4 + 4];
        let mut start = buf.len();
        let mut n = self.0;
        if n == 0 {
            panic!("Vade retro!");
        }
        const DIGITS: [u8; 7] = *b"IVXLCDM";
        for shift in 0..=2 {
            let (i, v, x) = (DIGITS[2 * shift], DIGITS[2 * shift + 1], DIGITS[2 * shift + 2]);
            let mut prepend = |b: u8| {
                start = start.checked_sub(1).unwrap();
                buf[start] = b;
            };
            match n % 10 {
                units @ 0..=3 => (0..units).for_each(|_| prepend(i)),
                4 => {
                    prepend(v);
                    prepend(i);
                },
                units @ 5..=8 => {
                    (0..units - 5).for_each(|_| prepend(i));
                    prepend(v);
                },
                9 => {
                    prepend(x);
                    prepend(i);
                },
                _ => unreachable!(),
            }
            n /= 10;
        }
        continuation(core::str::from_utf8(&buf[start..]).unwrap())
    }
}

fn numeral(mut n: u32) -> String {
    let table = [
        (100, "C"),
        (90, "XC"),
        (50, "L"),
        (40, "XL"),
        (10, "X"),
        (9, "IX"),
        (5, "V"),
        (4, "IV"),
        (1, "I"),
    ];
    let mut out = String::new();
    for (value, text) in table {
        while n >= value {
            out.push_str(text);
            n -= value;
        }
    }
    out
}

#[test]
fn romans() {
    // The method `fn to_str(self: &'_ Self) -> &'ref str`, whose body ends in
    // an explicit `return`.
    let decl = Declaration {
        attrs: vec![],
        name: "to_str".to_string(),
        generics: vec![],
        params: vec![param(id("self"), reference("_", verb("Self")))],
        output: Some(reference("ref", verb("str"))),
        body: Some(block(vec![semi(n(
            Kind::Return,
            "",
            vec![verb("::core::str::from_utf8(&buf[start ..]).unwrap()")],
        ))])),
    };
    let out = handle_fn_like(&Attrs::new(), &decl, Enclosing::Impl).unwrap();
    assert_eq!(out.name, "with_to_str");
    let body = out.body.unwrap();
    assert_eq!(
        body.parts[1],
        block(vec![semi(n(
            Kind::Return,
            "",
            vec![call(
                id("__continuation__"),
                vec![verb("::core::str::from_utf8(&buf[start ..]).unwrap()")]
            )]
        ))])
    );

    let mut out = String::new();
    let mut expected = String::new();
    for n in 1..=core::u8::MAX {
        let flow = Roman(n).with_to_str(|roman| {
            ControlFlow::<_, Unreachable, Unreachable, Unreachable>::Eval({
                out.push_str(&format!("{:3} = {}\n", n, roman));
            })
        });
        assert!(matches!(flow, ControlFlow::Eval(())));
        expected.push_str(&format!("{:3} = {}\n", n, numeral(n as u32)));
    }
    assert_eq!(out, expected);
    assert!(out.starts_with("  1 = I\n  2 = II\n  3 = III\n  4 = IV\n"));
    assert!(out.contains("\n 10 = X\n"));
    assert!(out.ends_with("255 = CCLV\n"));
}

struct Cells<'a>(core::slice::Iter<'a, RefCell<i32>>);

impl Cells<'_> {
    fn with_next<R>(&mut self, continuation: impl FnOnce(Option<&i32>) -> R) -> R {
        match Try::into_result(self.0.next()) {
            Ok(cell) => continuation(Some(&*cell.borrow())),
            Err(err) => continuation(Try::from_err(err)),
        }
    }
}

#[test]
fn loops() {
    // The statements after `#[with] let next = iterable.next();` in the loop.
    let rest = vec![n(
        Kind::If,
        "if let Some(&item) = next",
        vec![
            verb("let Some(&item) = next"),
            block(vec![
                n(
                    Kind::If,
                    "",
                    vec![verb("item == 1"), block(vec![semi(n(Kind::Continue, "", vec![]))])],
                ),
                verb("acc.push(item)"),
            ]),
            block(vec![semi(n(Kind::Break, "", vec![]))]),
        ],
    )];
    let wrapped = wrap_statements_inside_closure_body(&rest).unwrap();
    assert_eq!(wrapped.wrap_ret, never());
    assert_eq!(
        wrapped.wrap_break,
        block(vec![
            n(Kind::Let, "", vec![list(vec![]), verb("()"), id("it")]),
            semi(n(Kind::Break, "", vec![])),
        ])
    );
    assert_eq!(
        wrapped.wrap_continue,
        block(vec![
            n(Kind::Let, "", vec![list(vec![]), verb("()"), id("it")]),
            n(Kind::Continue, "", vec![]),
        ])
    );

    // The whole loop body, with the binding in front.
    let mut body = vec![marked_let(id("next"), method_call(id("iterable"), "next", vec![]))];
    body.extend(rest);
    let rewritten = handle_let_bindings(&block(body), &Attrs::new()).unwrap();
    let tagged = |tag: &str| {
        semi(n(
            Kind::Return,
            "",
            vec![call(verb(&format!("::with_locals::runtime::ControlFlow::{}", tag)), vec![verb("()")])],
        ))
    };
    let encoded = n(
        Kind::If,
        "if let Some(&item) = next",
        vec![
            verb("let Some(&item) = next"),
            block(vec![
                n(Kind::If, "", vec![verb("item == 1"), block(vec![tagged("Continue")])]),
                verb("acc.push(item)"),
            ]),
            block(vec![tagged("Break")]),
        ],
    );
    let expected = block(vec![site(
        method_call(
            id("iterable"),
            "with_next",
            vec![closure(id("next"), eval(false, true, true, vec![encoded]))],
        ),
        never(),
        wrapped.wrap_break,
        wrapped.wrap_continue,
    )]);
    assert_eq!(rewritten, expected);

    let ref elems = [RefCell::new(0), RefCell::new(1), RefCell::new(2), RefCell::new(3)];
    let mut iterable = Cells(elems.iter());
    let mut acc = vec![];
    loop {
        match iterable.with_next(|next| {
            ControlFlow::<_, Unreachable, _, _>::Eval({
                if let Some(&item) = next {
                    if item == 1 {
                        return ControlFlow::Continue(());
                    }
                    acc.push(item)
                } else {
                    return ControlFlow::Break(());
                }
            })
        }) {
            ControlFlow::Eval(it) => it,
            ControlFlow::EarlyReturn(it) => match it {
                Unreachable::Never(never) => match never {},
            },
            ControlFlow::Break(it) => {
                let () = it;
                break;
            },
            ControlFlow::Continue(it) => {
                let () = it;
                continue;
            },
        }
    }
    assert_eq!(acc, [0, 2, 3]);

    // The hand-written equivalent gives the same.
    let mut by_hand = vec![];
    for cell in elems.iter() {
        let item = *cell.borrow();
        if item == 1 {
            continue;
        }
        by_hand.push(item);
    }
    assert_eq!(acc, by_hand);
}
