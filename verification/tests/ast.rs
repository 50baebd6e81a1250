//! Trees and what can be asked of them.

use inlining::ast::{BinaryOp, Id, Kind, Lit, Node, Span, UNDEFINED_SYM};

const NOWHERE: Span = Span { lo: 0, hi: 0 };

fn ident(sym: u64) -> Node {
    Node::leaf(Kind::Ident(Id { sym, tag: 1 }), NOWHERE)
}

fn this() -> Node {
    Node::leaf(Kind::This, NOWHERE)
}

fn sum(left: Node, right: Node) -> Node {
    Node::new(Kind::Bin(BinaryOp::Add), NOWHERE, vec![left, right])
}

#[test]
fn leaf_has_no_children() {
    let n = Node::leaf(Kind::This, Span { lo: 3, hi: 7 });
    assert_eq!(n, Node { kind: Kind::This, span: Span { lo: 3, hi: 7 }, kids: vec![] });
}

#[test]
fn undefined_is_the_unresolved_name() {
    let n = Node::undefined(Span { lo: 3, hi: 12 });
    assert_eq!(n.kind, Kind::Ident(Id { sym: UNDEFINED_SYM, tag: 0 }));
    assert_eq!(n.span, Span { lo: 3, hi: 12 });
    assert!(n.kids.is_empty());
}

#[test]
fn copy_is_equal_to_what_it_copies() {
    let n = sum(sum(ident(1), this()), Node::leaf(Kind::Lit(Lit::Bool(true)), NOWHERE));
    let copy = n.deep_copy();
    assert_eq!(copy, n);
    assert!(copy.same(&n));
}

#[test]
fn trees_differ_by_kind_span_and_children() {
    let n = sum(ident(1), ident(2));
    assert!(n.same(&sum(ident(1), ident(2))));
    assert!(!n.same(&sum(ident(1), ident(3))));
    assert!(!n.same(&sum(ident(2), ident(1))));
    assert!(!n.same(&Node::new(Kind::Bin(BinaryOp::Sub), NOWHERE, vec![ident(1), ident(2)])));
    assert!(!n.same(&Node::new(Kind::Bin(BinaryOp::Add), NOWHERE, vec![ident(1)])));
    assert!(!n.same(&Node::new(
        Kind::Bin(BinaryOp::Add),
        Span { lo: 0, hi: 1 },
        vec![ident(1), ident(2)]
    )));
    let moved = Node::leaf(Kind::Ident(Id { sym: 1, tag: 1 }), Span { lo: 5, hi: 6 });
    assert!(!n.same(&sum(moved, ident(2))));
}

#[test]
fn with_kids_keeps_kind_and_span() {
    let n = Node::new(Kind::Call, Span { lo: 1, hi: 9 }, vec![ident(1)]);
    let m = n.with_kids(vec![ident(2), ident(3)]);
    assert_eq!(m, Node::new(Kind::Call, Span { lo: 1, hi: 9 }, vec![ident(2), ident(3)]));
}

#[test]
fn cheap_values() {
    assert!(ident(1).is_cheap());
    assert!(Node::leaf(Kind::Lit(Lit::Null), NOWHERE).is_cheap());
    assert!(!this().is_cheap());
    assert!(!sum(ident(1), ident(2)).is_cheap());
    assert!(!Node::leaf(Kind::BindingIdent(Id { sym: 1, tag: 1 }), NOWHERE).is_cheap());
}

#[test]
fn targets_and_patterns() {
    let id = Id { sym: 1, tag: 1 };
    let binding = Node::leaf(Kind::BindingIdent(id), NOWHERE);
    assert_eq!(binding.target_id(), Some(id));
    assert_eq!(ident(1).target_id(), Some(id));
    assert_eq!(this().target_id(), None);
    assert_eq!(Node::new(Kind::ArrayPat, NOWHERE, vec![ident(1)]).target_id(), None);
    assert!(binding.is_pattern());
    for kind in
        [Kind::ArrayPat, Kind::ObjectPat, Kind::RestPat, Kind::AssignPat, Kind::KeyValuePat]
    {
        assert!(Node::leaf(kind, NOWHERE).is_pattern());
    }
    assert!(!ident(1).is_pattern());
    assert!(!Node::leaf(Kind::Member { computed: false }, NOWHERE).is_pattern());
}

#[test]
fn this_is_seen_through_arrows_only() {
    let params = || Node::new(Kind::Params, NOWHERE, vec![]);
    let arrow = Node::new(Kind::Arrow, NOWHERE, vec![params(), sum(ident(1), this())]);
    let body = Node::new(Kind::Block, NOWHERE, vec![this()]);
    let function = Node::new(Kind::Function, NOWHERE, vec![params(), body]);
    assert!(this().contains_this());
    assert!(sum(ident(1), this()).contains_this());
    assert!(arrow.contains_this());
    assert!(!ident(1).contains_this());
    assert!(!function.contains_this());
    assert!(!Node::new(Kind::FnExpr(None), NOWHERE, vec![this()]).contains_this());
    assert!(!Node::new(Kind::FnDecl(Id { sym: 1, tag: 1 }), NOWHERE, vec![this()])
        .contains_this());
}
