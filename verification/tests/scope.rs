//! The chain of scopes, one operation at a time.

use inlining::ast::{BinaryOp, Id, Kind, Lit, Node, Span, UnaryOp};
use inlining::scope::{Phase, Scope, ScopeKind, VarType};

const NOWHERE: Span = Span { lo: 0, hi: 0 };

fn id(sym: u64) -> Id {
    Id { sym, tag: 1 }
}

fn ident(sym: u64) -> Node {
    Node::leaf(Kind::Ident(id(sym)), NOWHERE)
}

fn num(n: u64) -> Node {
    Node::leaf(Kind::Lit(Lit::Num(n)), NOWHERE)
}

fn member(obj: Node) -> Node {
    Node::new(
        Kind::Member { computed: false },
        NOWHERE,
        vec![obj, Node::leaf(Kind::Other(0), NOWHERE)],
    )
}

#[test]
fn new_scope_binds_nothing() {
    let scope = Scope::new();
    assert_eq!(scope.depth(), 0);
    assert!(scope.find_binding(id(1)).is_none());
    assert!(scope.find_constant(id(1)).is_none());
    assert_eq!(scope.read_cnt(id(1)), None);
}

#[test]
fn declare_makes_a_fresh_record() {
    let mut scope = Scope::new();
    scope.declare(id(1), Some(num(5)), false, VarType::Let);
    let v = scope.find_binding(id(1)).unwrap();
    assert_eq!(v.id, id(1));
    assert_eq!(v.kind, VarType::Let);
    assert_eq!(v.value, Some(num(5)));
    assert_eq!(v.read_count, 0);
    assert_eq!(v.write_count, 0);
    assert!(!v.is_undefined);
    assert!(!v.inline_prevented);
    assert!(!v.this_sensitive);
    assert!(!v.past_barrier);
}

#[test]
fn declare_again_overwrites_and_counts_a_write() {
    let mut scope = Scope::new();
    scope.declare(id(1), Some(num(5)), false, VarType::Var);
    scope.add_read(id(1));
    scope.prevent_inline(id(1));
    scope.declare(id(1), None, true, VarType::Let);
    let v = scope.find_binding(id(1)).unwrap();
    assert_eq!(v.value, None);
    assert!(v.is_undefined);
    assert_eq!(v.write_count, 1);
    // What the first declaration and the analysis found stays.
    assert_eq!(v.kind, VarType::Var);
    assert_eq!(v.read_count, 1);
    assert!(v.inline_prevented);
}

#[test]
fn identifiers_differ_by_tag() {
    let mut scope = Scope::new();
    scope.declare(Id { sym: 1, tag: 1 }, Some(num(1)), false, VarType::Let);
    scope.declare(Id { sym: 1, tag: 2 }, Some(num(2)), false, VarType::Let);
    assert_eq!(scope.find_binding(Id { sym: 1, tag: 1 }).unwrap().value, Some(num(1)));
    assert_eq!(scope.find_binding(Id { sym: 1, tag: 2 }).unwrap().value, Some(num(2)));
    assert!(scope.find_binding(Id { sym: 1, tag: 3 }).is_none());
    assert!(scope.find_binding(Id { sym: 2, tag: 1 }).is_none());
}

#[test]
fn lookup_walks_outward_and_takes_the_innermost() {
    let mut scope = Scope::new();
    scope.declare(id(1), Some(num(1)), false, VarType::Var);
    scope.declare(id(2), Some(num(2)), false, VarType::Var);
    scope.enter(ScopeKind::Block);
    assert_eq!(scope.depth(), 1);
    scope.declare(id(1), Some(num(10)), false, VarType::Let);
    assert_eq!(scope.find_binding(id(1)).unwrap().value, Some(num(10)));
    assert_eq!(scope.find_binding(id(2)).unwrap().value, Some(num(2)));
    assert_eq!(scope.find_binding_from_current(id(1)).unwrap().value, Some(num(10)));
    assert!(scope.find_binding_from_current(id(2)).is_none());
}

#[test]
fn exit_drops_the_bindings_of_the_scope() {
    let mut scope = Scope::new();
    scope.declare(id(1), Some(num(1)), false, VarType::Var);
    scope.enter(ScopeKind::Block);
    scope.declare(id(1), Some(num(10)), false, VarType::Let);
    scope.declare(id(2), None, true, VarType::Let);
    scope.exit();
    assert_eq!(scope.depth(), 0);
    assert_eq!(scope.find_binding(id(1)).unwrap().value, Some(num(1)));
    assert!(scope.find_binding(id(2)).is_none());
}

#[test]
fn exit_at_the_module_scope_does_nothing() {
    let mut scope = Scope::new();
    scope.declare(id(1), Some(num(1)), false, VarType::Var);
    scope.exit();
    assert_eq!(scope.depth(), 0);
    assert!(scope.find_binding(id(1)).is_some());
}

#[test]
fn restart_keeps_the_constants_only() {
    let mut scope = Scope::new();
    scope.declare(id(1), Some(num(1)), false, VarType::Var);
    scope.insert_constant(id(2), Some(num(2)));
    scope.enter(ScopeKind::Loop);
    scope.restart();
    assert_eq!(scope.depth(), 0);
    assert!(scope.find_binding(id(1)).is_none());
    assert_eq!(scope.find_constant(id(2)), Some(num(2)));
}

#[test]
fn reads_are_counted() {
    let mut scope = Scope::new();
    scope.declare(id(1), None, true, VarType::Var);
    assert_eq!(scope.read_cnt(id(1)), Some(0));
    scope.add_read(id(1));
    assert_eq!(scope.read_cnt(id(1)), Some(1));
    scope.add_read(id(1));
    scope.add_read(id(1));
    assert_eq!(scope.read_cnt(id(1)), Some(3));
}

#[test]
fn read_of_a_free_variable_leaves_no_trace() {
    let mut scope = Scope::new();
    scope.add_read(id(1));
    assert!(scope.find_binding(id(1)).is_none());
    assert_eq!(scope.read_cnt(id(1)), None);
}

#[test]
fn plain_write_in_the_home_scope_does_not_prevent() {
    let mut scope = Scope::new();
    scope.declare(id(1), Some(num(1)), true, VarType::Var);
    scope.add_write(id(1), false);
    let v = scope.find_binding(id(1)).unwrap();
    assert_eq!(v.write_count, 1);
    assert!(!v.is_undefined);
    assert_eq!(v.value, None);
    assert!(!v.inline_prevented);
}

#[test]
fn write_through_a_block_does_not_prevent() {
    let mut scope = Scope::new();
    scope.declare(id(1), Some(num(1)), false, VarType::Var);
    scope.enter(ScopeKind::Block);
    scope.add_write(id(1), false);
    assert!(!scope.find_binding(id(1)).unwrap().inline_prevented);
}

#[test]
fn forced_write_prevents() {
    let mut scope = Scope::new();
    scope.declare(id(1), Some(num(1)), false, VarType::Var);
    scope.add_write(id(1), true);
    assert!(scope.find_binding(id(1)).unwrap().inline_prevented);
}

#[test]
fn write_from_a_nested_function_prevents() {
    let mut scope = Scope::new();
    scope.declare(id(1), Some(num(1)), false, VarType::Var);
    scope.enter(ScopeKind::Fn { named: true });
    scope.add_write(id(1), false);
    assert!(scope.find_binding(id(1)).unwrap().inline_prevented);
}

#[test]
fn write_from_a_branch_prevents() {
    let mut scope = Scope::new();
    scope.declare(id(1), Some(num(1)), false, VarType::Var);
    scope.enter(ScopeKind::Cond);
    scope.enter(ScopeKind::Block);
    scope.add_write(id(1), false);
    assert!(scope.find_binding(id(1)).unwrap().inline_prevented);
}

#[test]
fn write_in_a_loop_prevents_even_in_the_home_scope() {
    let mut scope = Scope::new();
    scope.enter(ScopeKind::Loop);
    scope.enter(ScopeKind::Block);
    scope.declare(id(1), Some(num(1)), false, VarType::Let);
    scope.add_write(id(1), false);
    assert!(scope.find_binding(id(1)).unwrap().inline_prevented);
}

#[test]
fn write_to_a_binding_inside_a_function_from_the_same_function() {
    let mut scope = Scope::new();
    scope.enter(ScopeKind::Fn { named: false });
    scope.declare(id(1), Some(num(1)), false, VarType::Let);
    scope.add_write(id(1), false);
    assert!(!scope.find_binding(id(1)).unwrap().inline_prevented);
}

#[test]
fn prevent_inline_marks_the_innermost_binding_only() {
    let mut scope = Scope::new();
    scope.declare(id(1), Some(num(1)), false, VarType::Var);
    scope.enter(ScopeKind::Block);
    scope.declare(id(1), Some(num(2)), false, VarType::Let);
    scope.prevent_inline(id(1));
    assert!(scope.find_binding(id(1)).unwrap().inline_prevented);
    scope.exit();
    assert!(!scope.find_binding(id(1)).unwrap().inline_prevented);
}

#[test]
fn prevent_inline_of_a_free_variable_does_nothing() {
    let mut scope = Scope::new();
    scope.declare(id(1), Some(num(1)), false, VarType::Var);
    scope.prevent_inline(id(2));
    assert!(scope.find_binding(id(2)).is_none());
    assert!(!scope.find_binding(id(1)).unwrap().inline_prevented);
}

#[test]
fn prevented_flag_is_never_cleared() {
    let mut scope = Scope::new();
    scope.declare(id(1), Some(num(1)), false, VarType::Var);
    scope.prevent_inline(id(1));
    scope.add_read(id(1));
    scope.add_write(id(1), false);
    scope.declare(id(1), Some(num(2)), false, VarType::Var);
    scope.store_value(id(1), num(3));
    scope.mark_this_sensitive(&ident(1));
    scope.store_inline_barrier(Phase::Analysis);
    scope.store_inline_barrier(Phase::Inlining);
    scope.enter(ScopeKind::Block);
    scope.exit();
    assert!(scope.find_binding(id(1)).unwrap().inline_prevented);
}

#[test]
fn store_value_skips_a_prevented_binding() {
    let mut scope = Scope::new();
    scope.declare(id(1), None, false, VarType::Var);
    scope.declare(id(2), None, false, VarType::Var);
    scope.prevent_inline(id(2));
    scope.store_value(id(1), num(7));
    scope.store_value(id(2), num(7));
    assert_eq!(scope.find_binding(id(1)).unwrap().value, Some(num(7)));
    assert_eq!(scope.find_binding(id(2)).unwrap().value, None);
}

#[test]
fn assign_value_gives_an_undefined_binding_its_value() {
    let mut scope = Scope::new();
    scope.declare(id(1), None, true, VarType::Var);
    assert!(scope.holds_undefined(id(1)));
    scope.assign_value(id(1), num(7));
    let v = scope.find_binding(id(1)).unwrap();
    assert_eq!(v.value, Some(num(7)));
    assert!(!v.is_undefined);
    assert!(!scope.holds_undefined(id(1)));
}

#[test]
fn holds_undefined_looks_at_the_innermost_scope_only() {
    let mut scope = Scope::new();
    scope.declare(id(1), None, true, VarType::Var);
    scope.declare(id(2), None, true, VarType::Var);
    scope.prevent_inline(id(2));
    assert!(!scope.holds_undefined(id(2)));
    assert!(!scope.holds_undefined(id(3)));
    scope.enter(ScopeKind::Block);
    assert!(!scope.holds_undefined(id(1)));
}

#[test]
fn barrier_of_the_analysis_marks_what_is_read_again() {
    let mut scope = Scope::new();
    scope.declare(id(1), Some(num(1)), false, VarType::Var);
    scope.declare(id(2), Some(num(2)), false, VarType::Var);
    scope.add_read(id(1));
    scope.enter(ScopeKind::Fn { named: false });
    scope.store_inline_barrier(Phase::Analysis);
    scope.declare(id(3), Some(num(3)), false, VarType::Let);
    for sym in 1..=2 {
        let v = scope.find_binding(id(sym)).unwrap();
        assert!(v.past_barrier);
        assert!(!v.inline_prevented);
    }
    assert!(!scope.find_binding(id(3)).unwrap().past_barrier);
    scope.add_read(id(2));
    scope.add_read(id(3));
    assert!(!scope.find_binding(id(1)).unwrap().inline_prevented);
    assert!(scope.find_binding(id(2)).unwrap().inline_prevented);
    assert!(!scope.find_binding(id(3)).unwrap().inline_prevented);
    assert!(scope.var_prevented(id(2)));
    assert!(!scope.var_prevented(id(4)));
}

#[test]
fn barrier_of_the_rewriting_walk_leaves_the_records_alone() {
    let mut scope = Scope::new();
    scope.declare(id(1), Some(num(1)), false, VarType::Var);
    scope.store_inline_barrier(Phase::Inlining);
    scope.add_read(id(1));
    let v = scope.find_binding(id(1)).unwrap();
    assert!(!v.past_barrier);
    assert!(!v.inline_prevented);
}

#[test]
fn barrier_is_not_forgotten_when_a_binding_is_declared_again() {
    let mut scope = Scope::new();
    scope.declare(id(1), Some(num(1)), false, VarType::Var);
    scope.store_inline_barrier(Phase::Analysis);
    scope.declare(id(1), Some(num(2)), false, VarType::Var);
    scope.add_read(id(1));
    assert!(scope.find_binding(id(1)).unwrap().inline_prevented);
}

#[test]
fn called_binding_with_a_member_value_is_prevented() {
    let mut scope = Scope::new();
    scope.declare(id(1), None, false, VarType::Var);
    scope.declare(id(2), None, false, VarType::Var);
    scope.store_value(id(1), member(ident(9)));
    scope.store_value(id(2), member(ident(9)));
    scope.mark_this_sensitive(&ident(1));
    scope.mark_this_sensitive(&member(ident(2)));
    let v = scope.find_binding(id(1)).unwrap();
    assert!(v.this_sensitive);
    assert!(!v.inline_prevented);
    assert!(v.is_inline_prevented());
    assert!(scope.var_prevented(id(1)));
    let w = scope.find_binding(id(2)).unwrap();
    assert!(!w.this_sensitive);
    assert!(!w.is_inline_prevented());
}

#[test]
fn same_this_unless_a_called_binding_gets_a_member_or_this() {
    let mut scope = Scope::new();
    scope.declare(id(1), None, false, VarType::Var);
    scope.declare(id(2), None, false, VarType::Var);
    scope.mark_this_sensitive(&ident(1));
    let this = Node::leaf(Kind::This, NOWHERE);
    let sum = Node::new(Kind::Bin(BinaryOp::Add), NOWHERE, vec![num(1), Node::leaf(Kind::This, NOWHERE)]);
    assert!(scope.has_same_this(id(1), None));
    assert!(scope.has_same_this(id(1), Some(&num(1))));
    assert!(!scope.has_same_this(id(1), Some(&member(ident(9)))));
    assert!(!scope.has_same_this(id(1), Some(&this)));
    assert!(!scope.has_same_this(id(1), Some(&sum)));
    assert!(scope.has_same_this(id(2), Some(&member(ident(9)))));
    assert!(scope.has_same_this(id(2), Some(&this)));
    assert!(scope.has_same_this(id(3), Some(&this)));
}

#[test]
fn expressions_that_may_be_moved() {
    let mut scope = Scope::new();
    scope.declare(id(1), None, false, VarType::Var);
    let neg = Node::new(Kind::Unary(UnaryOp::Minus), NOWHERE, vec![ident(1)]);
    let sum = Node::new(Kind::Bin(BinaryOp::Add), NOWHERE, vec![ident(1), num(1)]);
    let len = member(Node::leaf(Kind::Lit(Lit::Str(4)), NOWHERE));
    assert!(!scope.is_inline_prevented(&num(1)));
    assert!(!scope.is_inline_prevented(&ident(1)));
    assert!(!scope.is_inline_prevented(&ident(2)));
    assert!(!scope.is_inline_prevented(&neg));
    assert!(!scope.is_inline_prevented(&sum));
    assert!(!scope.is_inline_prevented(&len));
}

#[test]
fn expressions_that_must_stay() {
    let mut scope = Scope::new();
    scope.declare(id(1), None, false, VarType::Var);
    scope.prevent_inline(id(1));
    let sum = Node::new(Kind::Bin(BinaryOp::Add), NOWHERE, vec![num(1), ident(1)]);
    let delete = Node::new(Kind::Unary(UnaryOp::Delete), NOWHERE, vec![member(ident(2))]);
    let call = Node::new(Kind::Call, NOWHERE, vec![ident(2)]);
    let new = Node::new(Kind::New, NOWHERE, vec![ident(2)]);
    let update =
        Node::new(Kind::Update { decrement: false, prefix: true }, NOWHERE, vec![ident(2)]);
    let paren = Node::new(Kind::Paren, NOWHERE, vec![num(1)]);
    let nested = Node::new(Kind::Unary(UnaryOp::Not), NOWHERE, vec![Node::new(
        Kind::Call,
        NOWHERE,
        vec![ident(2)],
    )]);
    assert!(scope.is_inline_prevented(&ident(1)));
    assert!(scope.is_inline_prevented(&sum));
    assert!(scope.is_inline_prevented(&delete));
    assert!(scope.is_inline_prevented(&call));
    assert!(scope.is_inline_prevented(&new));
    assert!(scope.is_inline_prevented(&update));
    assert!(scope.is_inline_prevented(&paren));
    assert!(scope.is_inline_prevented(&nested));
    assert!(scope.is_inline_prevented(&member(ident(2))));
    assert!(scope.is_inline_prevented(&Node::leaf(Kind::This, NOWHERE)));
    assert!(scope.is_inline_prevented(&Node::leaf(Kind::Other(7), NOWHERE)));
}

#[test]
fn mark_written_writes_every_identifier_but_property_names() {
    let mut scope = Scope::new();
    for sym in 1..=4 {
        scope.declare(id(sym), Some(num(sym)), false, VarType::Var);
    }
    // a[b].c, where 4 stands in the place of the name c
    let inner = Node::new(Kind::Member { computed: true }, NOWHERE, vec![ident(1), ident(2)]);
    let outer = Node::new(Kind::Member { computed: false }, NOWHERE, vec![inner, ident(4)]);
    scope.mark_written(&outer);
    assert!(scope.find_binding(id(1)).unwrap().inline_prevented);
    assert!(scope.find_binding(id(2)).unwrap().inline_prevented);
    assert!(!scope.find_binding(id(3)).unwrap().inline_prevented);
    assert!(!scope.find_binding(id(4)).unwrap().inline_prevented);
    assert_eq!(scope.find_binding(id(1)).unwrap().value, None);
    assert_eq!(scope.find_binding(id(1)).unwrap().write_count, 1);
}

#[test]
fn touch_pattern_reaches_bound_names_and_skips_expressions() {
    let mut scope = Scope::new();
    for sym in 1..=6 {
        scope.declare(id(sym), Some(num(sym)), false, VarType::Var);
    }
    let name = |sym: u64| Node::leaf(Kind::BindingIdent(id(sym)), NOWHERE);
    // [a, {k: b}, c = e, ...d] with the key k written as identifier 6
    let pattern = Node::new(
        Kind::ArrayPat,
        NOWHERE,
        vec![
            name(1),
            Node::new(
                Kind::ObjectPat,
                NOWHERE,
                vec![Node::new(Kind::KeyValuePat, NOWHERE, vec![ident(6), name(2)])],
            ),
            Node::new(Kind::AssignPat, NOWHERE, vec![name(3), ident(5)]),
            Node::new(Kind::RestPat, NOWHERE, vec![name(4)]),
        ],
    );
    scope.touch_pattern(&pattern, true);
    for sym in 1..=4 {
        assert!(scope.find_binding(id(sym)).unwrap().inline_prevented);
    }
    assert!(!scope.find_binding(id(5)).unwrap().inline_prevented);
    assert!(!scope.find_binding(id(6)).unwrap().inline_prevented);
}

#[test]
fn touch_target_writes_without_marking() {
    let mut scope = Scope::new();
    scope.declare(id(1), Some(num(1)), false, VarType::Var);
    scope.declare(id(2), Some(num(2)), false, VarType::Var);
    scope.touch_target(&ident(1), false);
    scope.touch_target(&Node::leaf(Kind::BindingIdent(id(2)), NOWHERE), true);
    let v = scope.find_binding(id(1)).unwrap();
    assert_eq!(v.write_count, 1);
    assert_eq!(v.value, None);
    assert!(!v.inline_prevented);
    let w = scope.find_binding(id(2)).unwrap();
    assert_eq!(w.write_count, 0);
    assert!(w.inline_prevented);
}

#[test]
fn constants_are_found_through_chains() {
    let mut scope = Scope::new();
    scope.insert_constant(id(1), Some(num(1)));
    scope.insert_constant(id(2), Some(ident(1)));
    scope.insert_constant(id(3), Some(ident(2)));
    scope.insert_constant(id(4), Some(ident(9)));
    scope.insert_constant(id(5), None);
    scope.insert_constant(id(6), Some(ident(5)));
    assert_eq!(scope.find_constant(id(1)), Some(num(1)));
    assert_eq!(scope.find_constant(id(2)), Some(num(1)));
    assert_eq!(scope.find_constant(id(3)), Some(num(1)));
    // A chain ends at a name that is no inlineable constant.
    assert_eq!(scope.find_constant(id(4)), Some(ident(9)));
    assert_eq!(scope.find_constant(id(6)), Some(ident(5)));
    assert_eq!(scope.find_constant(id(5)), None);
    assert_eq!(scope.find_constant(id(9)), None);
    assert!(scope.has_constant(id(5)));
    assert!(!scope.has_constant(id(9)));
}

#[test]
fn constant_recorded_again_takes_the_new_value() {
    let mut scope = Scope::new();
    scope.insert_constant(id(1), Some(num(1)));
    scope.insert_constant(id(1), Some(num(2)));
    assert_eq!(scope.find_constant(id(1)), Some(num(2)));
}

#[test]
fn circle_of_constants_is_left() {
    let mut scope = Scope::new();
    scope.insert_constant(id(1), Some(ident(2)));
    scope.insert_constant(id(2), Some(ident(1)));
    // Two constants, so two steps: 1 -> 2 -> 1, and the value of 1 is 2.
    assert_eq!(scope.find_constant(id(1)), Some(ident(2)));
    assert_eq!(scope.find_constant(id(2)), Some(ident(1)));
    scope.insert_constant(id(3), Some(ident(3)));
    assert_eq!(scope.find_constant(id(3)), Some(ident(3)));
}
