//! What holds of the pass whatever the program.
//!
//! Each law is a proof about the functions that say what the pass does:
//! [`analyze`], [`rewrite`] and the operations of [`ScopeV`].

use crate::analysis::{analyze, analyze_declarator, analyze_range, guard, note_declarator};
use crate::ast::{contains_this, Id, Kind, NodeV, UnaryOp};
use crate::keeps::{law_analysis_keeps, law_rewriting_keeps};
use crate::pass::{InliningV, PatFoldingMode};
use crate::rewrite::{rewrite, rewrite_declarator};
use crate::scope::{Phase, ScopeKind, ScopeV, VarInfoV, VarType};
use vstd::prelude::*;

verus! {

/// A read of a binding whose reads must be left alone is left alone, unless
/// the first run knows the identifier as a constant.
pub proof fn law_prevented_read_stays(st: InliningV, n: NodeV, id: Id)
    requires
        n.kind == Kind::Ident(id),
        st.scope.var_prevented(id),
        !(st.is_first_run && st.scope.find_constant(id) is Some),
    ensures
        rewrite(st, n) == (st, n),
{
}

/// In the first run a read of a constant becomes the value of the
/// constant, however often the constant is read.
pub proof fn law_constant_read(st: InliningV, n: NodeV, id: Id, value: NodeV)
    requires
        n.kind == Kind::Ident(id),
        st.is_first_run,
        st.scope.find_constant(id) == Some(value),
    ensures
        rewrite(st, n) == (st, value),
{
}

/// A `const` declared with a literal is known, after its analysis in the
/// first run, as a constant with that literal for its value; and the
/// rewriting leaves the declaration as it is.
pub proof fn law_literal_constant(st: InliningV, decl: NodeV, id: Id)
    requires
        st.is_first_run,
        st.var_decl_kind is Const,
        decl.kind is Declarator,
        decl.kids.len() == 2,
        decl.kids[0].kind == Kind::BindingIdent(id),
        decl.kids[1].kind is Lit,
        decl.kids[1].kids.len() == 0,
    ensures
        analyze(st, decl).scope.find_constant(id) == Some(decl.kids[1]),
        rewrite(analyze(st, decl), decl).1 == decl,
{
    let lit = decl.kids[1];
    let after = st.scope.insert_constant(id, Some(lit));
    assert(analyze(st, lit) == st) by {
        reveal_with_fuel(analyze, 2);
        reveal_with_fuel(analyze_range, 2);
    }
    assert(analyze(st, decl) == analyze_declarator(st, decl)) by {
        reveal_with_fuel(analyze, 2);
    }
    after.lemma_constant_inserted(st.scope, id, Some(lit));
    assert(rewrite(analyze(st, decl), decl) == rewrite_declarator(analyze(st, decl), decl)) by {
        reveal_with_fuel(rewrite, 2);
    }
}

/// A `var` or `let` declared without a value is undefined until something
/// is assigned to it: a read that comes right after the declaration becomes
/// a reference to `undefined`.
pub proof fn law_read_of_undefined(st: InliningV, decl: NodeV, read: NodeV, id: Id)
    requires
        !(st.var_decl_kind is Const),
        decl.kind is Declarator,
        decl.kids.len() == 1,
        decl.kids[0].kind == Kind::BindingIdent(id),
        read.kind == Kind::Ident(id),
        !st.scope.var_prevented(id),
        !(st.is_first_run && st.scope.find_constant(id) is Some),
    ensures
        rewrite(rewrite(st, decl).0, read).1 == NodeV::undefined(read.span),
{
    let s1 = rewrite(st, decl).0;
    assert(rewrite(st, decl) == rewrite_declarator(st, decl)) by {
        reveal_with_fuel(rewrite, 2);
    }
    st.scope.lemma_declared(id, None, true, VarType::spec_of(st.var_decl_kind));
    s1.scope.lemma_same_constants(st.scope, id);
}

/// An identifier under `++`, `--` or `delete` is marked by both walks:
/// where a binding of it is visible, no read of that binding is replaced
/// from then on.
pub proof fn law_update_prevents(st: InliningV, n: NodeV, id: Id)
    requires
        n.kind is Update || n.kind == Kind::Unary(UnaryOp::Delete),
        ScopeV::mentions(n, id),
        st.scope.find(id) is Some,
    ensures
        analyze(st, n).scope.find(id) == st.scope.find(id),
        analyze(st, n).scope.var_prevented(id),
        rewrite(st, n).0.scope.var_prevented(id),
        rewrite(st, n).1 == n,
{
    st.scope.lemma_mark_written_marks(n, id);
}

/// An identifier that the block or the finalizer of a `try` mentions is
/// marked by both walks before anything else of the `try` is walked; and
/// the rewriting leaves the block and the finalizer as they are.
pub proof fn law_try_prevents(st: InliningV, n: NodeV, id: Id)
    requires
        n.kind is Try,
        n.kids.len() == 3,
        ScopeV::mentions(n.kids[0], id) || ScopeV::mentions(n.kids[2], id),
        st.scope.find(id) is Some,
    ensures
        analyze(st, n).scope.vars[st.scope.find(id)->0].id == id,
        analyze(st, n).scope.vars[st.scope.find(id)->0].inline_prevented,
        rewrite(st, n).0.scope.vars[st.scope.find(id)->0].inline_prevented,
        rewrite(st, n).1.kids[0] == n.kids[0],
        rewrite(st, n).1.kids[2] == n.kids[2],
{
    let first = st.scope.mark_written(n.kids[0]);
    let marked = st.with_scope(guard(st.scope, n));
    st.scope.lemma_find(id);
    st.scope.lemma_mark_written_same(n.kids[0]);
    first.lemma_mark_written_same(n.kids[2]);
    first.lemma_find_same_ids(st.scope, id, st.scope.vars.len() as int);
    if ScopeV::mentions(n.kids[0], id) {
        st.scope.lemma_mark_written_marks(n.kids[0], id);
    } else {
        first.lemma_mark_written_marks(n.kids[2], id);
    }
    law_analysis_keeps(marked, n.kids[1]);
    law_rewriting_keeps(marked, n.kids[1]);
}

/// A binding that is marked stays marked, under its identifier and in its
/// place, whatever either walk passes.
pub proof fn law_marks_are_final(st: InliningV, n: NodeV, j: int)
    requires
        0 <= j < st.scope.vars.len(),
        st.scope.vars[j].inline_prevented,
    ensures
        analyze(st, n).scope.vars[j].inline_prevented,
        analyze(st, n).scope.vars[j].id == st.scope.vars[j].id,
        rewrite(st, n).0.scope.vars[j].inline_prevented,
        rewrite(st, n).0.scope.vars[j].id == st.scope.vars[j].id,
        analyze(st, n).scope.frames == st.scope.frames,
        rewrite(st, n).0.scope.frames == st.scope.frames,
{
    law_analysis_keeps(st, n);
    law_rewriting_keeps(st, n);
}

/// The body of a loop is walked inside a loop scope, and so is whatever
/// scope is opened inside it.
pub proof fn law_loop_body_is_in_loop(scope: ScopeV, kind: ScopeKind)
    ensures
        scope.enter(ScopeKind::Loop).in_loop(),
        scope.in_loop() ==> scope.enter(kind).in_loop(),
{
    let inner = scope.enter(kind);
    assert(inner.loop_below(scope.frames.len() as int) == scope.in_loop()) by {
        lemma_loop_below(scope, inner, scope.frames.len() as int);
    }
}

proof fn lemma_loop_below(scope: ScopeV, inner: ScopeV, n: int)
    requires
        inner.frames.len() >= scope.frames.len(),
        forall|i: int| 0 <= i < scope.frames.len() ==> inner.frames[i] == scope.frames[i],
        n <= scope.frames.len(),
    ensures
        inner.loop_below(n) == scope.loop_below(n),
    decreases n,
{
    if n > 0 {
        lemma_loop_below(scope, inner, n - 1);
    }
}

/// A write made inside a loop body marks the binding that it writes.
pub proof fn law_write_in_loop_prevents(scope: ScopeV, id: Id, from_child: bool)
    requires
        scope.in_loop(),
        scope.find(id) is Some,
    ensures
        scope.add_write(id, from_child).var_prevented(id),
{
    scope.lemma_written(id, from_child);
}

/// A write that reaches a binding from another function, branch or loop
/// body than the one that declares it marks the binding.
pub proof fn law_write_across_scopes_prevents(scope: ScopeV, id: Id, from_child: bool)
    requires
        scope.find(id) matches Some(j) && scope.crosses(j),
    ensures
        scope.add_write(id, from_child).var_prevented(id),
{
    scope.lemma_written(id, from_child);
}

/// A `var` or `let` whose value mentions `this` is marked by the analysis
/// of its declarator: no read of it is replaced, in whatever function the
/// read stands.
pub proof fn law_this_value_prevents(st: InliningV, decl: NodeV, id: Id)
    requires
        !(st.var_decl_kind is Const),
        decl.kind is Declarator,
        decl.kids.len() == 2,
        decl.kids[0].kind == Kind::BindingIdent(id),
        !decl.kids[1].is_cheap(),
        contains_this(decl.kids[1]),
    ensures
        analyze(st, decl).scope.var_prevented(id),
{
    let init = decl.kids[1];
    let s1 = analyze(st, init).with_pat_mode(PatFoldingMode::VarDecl).with_var_decl_kind(
        st.var_decl_kind,
    );
    assert(analyze(st, decl) == note_declarator(s1, id, Some(init))) by {
        reveal_with_fuel(analyze, 2);
    }
    let kind = VarType::spec_of(s1.var_decl_kind);
    s1.scope.lemma_declared(id, None, false, kind);
    let s2 = s1.scope.declare(id, None, false, kind);
    s2.lemma_find(id);
    s2.lemma_find_set_var(
        s2.find(id)->0,
        VarInfoV { inline_prevented: true, ..s2.vars[s2.find(id)->0] },
        id,
    );
}

/// A binding that the analysis sees read after a barrier is marked: no
/// read of it is replaced, before the barrier or after.
pub proof fn law_read_past_barrier_prevents(scope: ScopeV, id: Id)
    requires
        scope.find(id) is Some,
    ensures
        scope.store_inline_barrier(Phase::Analysis).add_read(id).var_prevented(id),
        scope.store_inline_barrier(Phase::Analysis).var_prevented(id) == scope.var_prevented(id),
        scope.store_inline_barrier(Phase::Inlining) == scope,
{
    let after = scope.store_inline_barrier(Phase::Analysis);
    after.lemma_find_same_ids(scope, id, scope.vars.len() as int);
    scope.lemma_find(id);
    after.lemma_find_set_var(scope.find(id)->0, after.add_read(id).vars[scope.find(id)->0], id);
}

/// A scope that is opened and closed again leaves the chain as it was.
pub proof fn law_enter_exit(scope: ScopeV, kind: ScopeKind)
    ensures
        scope.enter(kind).exit() == scope,
{
}

/// A run that returns the program that it was given does not raise the
/// flag; one that returns another program does.
pub proof fn law_changed_is_exact(st: InliningV, program: NodeV)
    ensures
        st.fold(program).0.changed == (st.changed || st.fold(program).1 != program),
        !st.changed && st.fold(program).1 == program ==> !st.fold(program).0.changed,
{
}

/// Once a run after the first returns the program that it was given, so
/// does every run after it: the driver that stops when the flag stays down
/// has reached a program that the pass leaves alone.
pub proof fn law_unchanged_program_is_fixed(st: InliningV, program: NodeV)
    requires
        !st.is_first_run,
        st.fold(program).1 == program,
    ensures
        st.fold(program).0.reset().fold(program).1 == program,
        !st.fold(program).0.reset().fold(program).0.changed,
{
    let start = st.start();
    law_analysis_keeps(start, program);
    law_rewriting_keeps(analyze(start, program), program);
}

} // verus!
