//! Whole programs through the pass, run until nothing changes.

use inlining::ast::{AssignOp, Id, Kind, Lit, Node, Span, VarDeclKind, UNDEFINED_SYM, UNRESOLVED_TAG};
use inlining::pass::{inlining, Config};

const NOWHERE: Span = Span { lo: 0, hi: 0 };

// Spellings.
const A: u64 = 1;
const B: u64 = 2;
const E: u64 = 3;
const F: u64 = 4;
const N: u64 = 5;
const P: u64 = 6;
const T: u64 = 7;
const X: u64 = 8;
const Y: u64 = 9;
const CALL: u64 = 10;
const USE: u64 = 11;

fn node(kind: Kind, kids: Vec<Node>) -> Node {
    Node::new(kind, NOWHERE, kids)
}

/// A reference to a declared binding.
fn var(sym: u64) -> Node {
    Node::leaf(Kind::Ident(Id { sym, tag: 1 }), NOWHERE)
}

/// A reference to a name that the program does not declare.
fn free(sym: u64) -> Node {
    Node::leaf(Kind::Ident(Id { sym, tag: UNRESOLVED_TAG }), NOWHERE)
}

fn name(sym: u64) -> Node {
    Node::leaf(Kind::BindingIdent(Id { sym, tag: 1 }), NOWHERE)
}

fn num(n: u64) -> Node {
    Node::leaf(Kind::Lit(Lit::Num(n)), NOWHERE)
}

fn empty() -> Node {
    Node::leaf(Kind::Empty, NOWHERE)
}

fn decl(kind: VarDeclKind, sym: u64, init: Option<Node>) -> Node {
    let mut kids = vec![name(sym)];
    kids.extend(init);
    node(Kind::VarDecl(kind), vec![node(Kind::Declarator, kids)])
}

fn stmt(e: Node) -> Node {
    node(Kind::ExprStmt, vec![e])
}

fn call(callee: Node, args: Vec<Node>) -> Node {
    let mut kids = vec![callee];
    kids.extend(args);
    node(Kind::Call, kids)
}

fn assign(target: Node, value: Node) -> Node {
    node(Kind::Assign(AssignOp::Assign), vec![target, value])
}

fn block(stmts: Vec<Node>) -> Node {
    node(Kind::Block, stmts)
}

fn module(items: Vec<Node>) -> Node {
    node(Kind::Module, items)
}

/// The pass as its driver runs it: again and again while it reports a
/// change, with a limit that no test comes near.
fn run(program: &Node) -> Node {
    let mut pass = inlining(Config {});
    let mut out = pass.fold(program);
    let mut rounds = 0;
    while pass.changed() {
        rounds += 1;
        assert!(rounds < 100);
        pass.reset();
        out = pass.fold(&out);
    }
    out
}

#[test]
fn first_assignment_of_an_undefined_var_is_replaced_by_its_value() {
    // var y; y = x; use(y);
    let input = module(vec![
        decl(VarDeclKind::Var, Y, None),
        stmt(assign(name(Y), free(X))),
        stmt(call(free(USE), vec![var(Y)])),
    ]);
    // var y; x; use(x);
    let expected = module(vec![
        decl(VarDeclKind::Var, Y, None),
        stmt(free(X)),
        stmt(call(free(USE), vec![free(X)])),
    ]);
    assert_eq!(run(&input), expected);
}

#[test]
fn chain_of_constants_is_followed_in_one_run() {
    // const a = 1; const b = a; f(b);
    let input = module(vec![
        decl(VarDeclKind::Const, A, Some(num(1))),
        decl(VarDeclKind::Const, B, Some(var(A))),
        stmt(call(free(F), vec![var(B)])),
    ]);
    // const a = 1; const b = a; f(1);
    let expected = module(vec![
        decl(VarDeclKind::Const, A, Some(num(1))),
        decl(VarDeclKind::Const, B, Some(var(A))),
        stmt(call(free(F), vec![num(1)])),
    ]);
    let mut pass = inlining(Config {});
    assert_eq!(pass.fold(&input), expected);
    assert!(pass.changed());
    assert_eq!(run(&input), expected);
}

#[test]
fn call_is_a_barrier() {
    // let x = 1; call(); use(x);
    let input = module(vec![
        decl(VarDeclKind::Let, X, Some(num(1))),
        stmt(call(free(CALL), vec![])),
        stmt(call(free(USE), vec![var(X)])),
    ]);
    let mut pass = inlining(Config {});
    assert_eq!(pass.fold(&input), input);
    assert!(!pass.changed());
}

#[test]
fn update_prevents_inlining() {
    // let a = 2; a++; use(a);
    let input = module(vec![
        decl(VarDeclKind::Let, A, Some(num(2))),
        stmt(node(Kind::Update { decrement: false, prefix: false }, vec![var(A)])),
        stmt(call(free(USE), vec![var(A)])),
    ]);
    let mut pass = inlining(Config {});
    assert_eq!(pass.fold(&input), input);
    assert!(!pass.changed());
}

#[test]
fn value_that_mentions_this_stays_out_of_functions() {
    // let t = this; function f() { return t; } f();
    let f = Id { sym: F, tag: 1 };
    let input = module(vec![
        decl(VarDeclKind::Let, T, Some(Node::leaf(Kind::This, NOWHERE))),
        node(
            Kind::FnDecl(f),
            vec![node(
                Kind::Function,
                vec![
                    node(Kind::Params, vec![]),
                    block(vec![node(Kind::Return, vec![var(T)])]),
                ],
            )],
        ),
        stmt(call(var(F), vec![])),
    ]);
    assert_eq!(run(&input), input);
}

#[test]
fn loop_with_an_empty_head_is_a_barrier() {
    // let n = 1; for (;;) { use(n); }
    let input = module(vec![
        decl(VarDeclKind::Let, N, Some(num(1))),
        node(
            Kind::For,
            vec![
                empty(),
                empty(),
                empty(),
                block(vec![stmt(call(free(USE), vec![var(N)]))]),
            ],
        ),
    ]);
    assert_eq!(run(&input), input);
}

#[test]
fn try_block_is_left_alone_or_rewritten_within_itself() {
    // try { let p = 1; use(p); } catch (e) { use(e); }
    let make = |read: Node| {
        module(vec![node(
            Kind::Try,
            vec![
                block(vec![
                    decl(VarDeclKind::Let, P, Some(num(1))),
                    stmt(call(free(USE), vec![read])),
                ]),
                node(
                    Kind::Catch,
                    vec![name(E), block(vec![stmt(call(free(USE), vec![var(E)]))])],
                ),
                empty(),
            ],
        )])
    };
    let input = make(var(P));
    let out = run(&input);
    assert!(out == input || out == make(num(1)));
}

#[test]
fn read_of_an_undefined_var_becomes_undefined() {
    // var x; y = x;
    let input = module(vec![
        decl(VarDeclKind::Var, X, None),
        stmt(assign(Node::leaf(Kind::BindingIdent(Id { sym: Y, tag: 0 }), NOWHERE), var(X))),
    ]);
    let undefined =
        Node::leaf(Kind::Ident(Id { sym: UNDEFINED_SYM, tag: UNRESOLVED_TAG }), NOWHERE);
    let expected = module(vec![
        decl(VarDeclKind::Var, X, None),
        stmt(assign(Node::leaf(Kind::BindingIdent(Id { sym: Y, tag: 0 }), NOWHERE), undefined)),
    ]);
    assert_eq!(run(&input), expected);
}

#[test]
fn every_read_of_a_constant_becomes_its_literal() {
    // const a = 7; f(a); f(a, a);
    let input = module(vec![
        decl(VarDeclKind::Const, A, Some(num(7))),
        stmt(call(free(F), vec![var(A)])),
        stmt(call(free(F), vec![var(A), var(A)])),
    ]);
    let expected = module(vec![
        decl(VarDeclKind::Const, A, Some(num(7))),
        stmt(call(free(F), vec![num(7)])),
        stmt(call(free(F), vec![num(7), num(7)])),
    ]);
    assert_eq!(run(&input), expected);
}
