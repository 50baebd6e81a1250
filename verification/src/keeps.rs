//! Nothing that a walk does takes a binding away or clears a mark.
//!
//! The two laws at the end say so of the whole of each walk; what stands
//! before them says it of each part.

use crate::analysis::{
    analyze, analyze_assign, analyze_call, analyze_catch, analyze_declarator, analyze_for,
    analyze_for_in, analyze_function, analyze_ident, analyze_if, analyze_range, analyze_while,
    bind_ident, empty_head, guard, note_assign, note_declarator, note_member_target,
};
use crate::ast::{AssignOp, Id, Kind, NodeV, Span};
use crate::pass::{InliningV, PatFoldingMode};
use crate::rewrite::{
    first_assignment, redeclare_cheap, redeclare_undefined, relist, rewrite, rewrite_assign,
    rewrite_call, rewrite_case, rewrite_catch, rewrite_declarator, rewrite_for, rewrite_for_in,
    rewrite_function, rewrite_if, rewrite_kids, rewrite_range, rewrite_while, settle_declarator,
};
use crate::scope::{Phase, ScopeKind, ScopeV, VarType};
use vstd::prelude::*;

verus! {

/// What a walk did inside a scope is kept when it leaves the scope.
proof fn lemma_leave(inner: InliningV, outer: InliningV, kind: ScopeKind)
    requires
        inner.scope.keeps(outer.scope.enter(kind)),
        inner.is_first_run == outer.is_first_run,
        inner.changed == outer.changed,
        outer.is_first_run || inner.scope.constants == outer.scope.constants,
    ensures
        inner.leave(outer).follows(outer),
{
    inner.scope.lemma_exit_keeps(outer.scope, kind);
}

proof fn lemma_ident_keeps(st: InliningV, id: Id, span: Span)
    ensures
        analyze_ident(st, id).follows(st),
        bind_ident(st, id, span).follows(st),
{
    st.scope.lemma_steps_keep(id, Some(NodeV::ident(id, span)), NodeV::ident(id, span), false);
}

proof fn lemma_note_declarator_keeps(st: InliningV, id: Id, init: Option<NodeV>)
    ensures
        note_declarator(st, id, init).follows(st),
{
    let kind = VarType::spec_of(st.var_decl_kind);
    match init {
        None => {
            st.scope.lemma_steps_keep(id, None, NodeV::ident(id, Span { lo: 0, hi: 0 }), true);
        },
        Some(e) => {
            st.scope.lemma_steps_keep(id, Some(e), e, false);
            st.scope.lemma_steps_keep(id, None, e, false);
            let cheap = st.scope.declare(id, Some(e), false, kind);
            cheap.lemma_steps_keep(id, None, e, false);
            let other = st.scope.declare(id, None, false, kind);
            other.lemma_steps_keep(id, None, e, false);
        },
    }
}

proof fn lemma_note_member_target_keeps(scope: ScopeV, left: NodeV, right: NodeV)
    ensures
        note_member_target(scope, left, right).keeps(scope),
        note_member_target(scope, left, right).constants == scope.constants,
{
    scope.lemma_mark_written_keeps(left);
    scope.mark_written(left).lemma_mark_written_keeps(right);
}

proof fn lemma_note_assign_keeps(scope: ScopeV, op: AssignOp, left: NodeV, right: NodeV)
    ensures
        note_assign(scope, op, left, right).keeps(scope),
        note_assign(scope, op, left, right).constants == scope.constants,
{
    lemma_note_member_target_keeps(scope, left, right);
    scope.lemma_mark_written_keeps(left);
    scope.mark_written(left).lemma_mark_written_keeps(right);
    let s1 = if op is Assign {
        scope
    } else {
        scope.mark_written(left).mark_written(right)
    };
    s1.lemma_touch_pattern_keeps(left, true);
    s1.lemma_touch_pattern_keeps(left, false);
    match left.target_id() {
        Some(id) => {
            s1.lemma_steps_keep(id, None, right, false);
            s1.add_write(id, false).lemma_steps_keep(id, None, right, false);
        },
        None => {},
    }
}

/// The analysis of a node takes no binding away and clears no mark.
pub proof fn law_analysis_keeps(st: InliningV, n: NodeV)
    ensures
        analyze(st, n).follows(st),
    decreases n, 2nat,
{
    let len = n.kids.len();
    match n.kind {
        Kind::Ident(id) => {
            lemma_ident_keeps(st, id, n.span);
        },
        Kind::BindingIdent(id) => {
            lemma_ident_keeps(st, id, n.span);
        },
        Kind::VarDecl(kind) => {
            lemma_analyze_range_keeps(st.with_var_decl_kind(kind), n.kids, 0, len);
        },
        Kind::Declarator => {
            lemma_analyze_declarator_keeps(st, n);
        },
        Kind::FnDecl(id) => {
            st.scope.lemma_steps_keep(id, None, n, false);
            let s1 = st.with_scope(st.scope.declare(id, None, false, VarType::Var));
            if len == 1 && n.kids[0].kind is Function {
                lemma_analyze_function_keeps(s1, n.kids[0], true);
            } else {
                lemma_analyze_range_keeps(s1, n.kids, 0, len);
            }
        },
        Kind::Function => {
            lemma_analyze_function_keeps(st, n, false);
        },
        Kind::FnExpr(name) => {
            match name {
                Some(id) => {
                    st.scope.lemma_steps_keep(id, None, n, true);
                    lemma_analyze_range_keeps(
                        st.with_scope(st.scope.add_write(id, true)),
                        n.kids,
                        0,
                        len,
                    );
                },
                None => {
                    lemma_analyze_range_keeps(st, n.kids, 0, len);
                },
            }
        },
        Kind::Arrow => {
            let kind = ScopeKind::Fn { named: false };
            let inner = st.enter(kind).with_pat_mode(PatFoldingMode::Param);
            lemma_analyze_range_keeps(inner, n.kids, 0, len);
            lemma_leave(analyze_range(inner, n.kids, 0, len), st, kind);
        },
        Kind::Block => {
            let inner = st.enter(ScopeKind::Block);
            lemma_analyze_range_keeps(inner, n.kids, 0, len);
            lemma_leave(analyze_range(inner, n.kids, 0, len), st, ScopeKind::Block);
        },
        Kind::Case => {
            let inner = st.enter(ScopeKind::Block);
            lemma_analyze_range_keeps(inner, n.kids, 0, len);
            lemma_leave(analyze_range(inner, n.kids, 0, len), st, ScopeKind::Block);
        },
        Kind::If => {
            lemma_analyze_if_keeps(st, n);
        },
        Kind::Catch => {
            lemma_analyze_catch_keeps(st, n);
        },
        Kind::Call => {
            lemma_analyze_call_keeps(st, n);
        },
        Kind::New => {
            lemma_analyze_call_keeps(st, n);
        },
        Kind::Assign(op) => {
            lemma_analyze_assign_keeps(st, n, op);
        },
        Kind::Member { computed } => {
            if len == 2 && !computed {
                law_analysis_keeps(st, n.kids[0]);
            } else {
                lemma_analyze_range_keeps(st, n.kids, 0, len);
            }
        },
        Kind::Update { .. } => {
            st.scope.lemma_mark_written_keeps(n);
        },
        Kind::Unary(op) => {
            if op is Delete {
                st.scope.lemma_mark_written_keeps(n);
            } else {
                lemma_analyze_range_keeps(st, n.kids, 0, len);
            }
        },
        Kind::ForIn => {
            lemma_analyze_for_in_keeps(st, n);
        },
        Kind::ForOf => {
            lemma_analyze_for_in_keeps(st, n);
        },
        Kind::For => {
            lemma_analyze_for_keeps(st, n);
        },
        Kind::While => {
            lemma_analyze_while_keeps(st, n);
        },
        Kind::DoWhile => {
            lemma_analyze_while_keeps(st, n);
        },
        Kind::Bin(op) => {
            if len == 2 && (op is LogicalAnd || op is LogicalOr) {
                law_analysis_keeps(st, n.kids[0]);
            } else {
                lemma_analyze_range_keeps(st, n.kids, 0, len);
            }
        },
        Kind::Try => {
            if len == 3 {
                st.scope.lemma_mark_written_keeps(n.kids[0]);
                st.scope.mark_written(n.kids[0]).lemma_mark_written_keeps(n.kids[2]);
                law_analysis_keeps(st.with_scope(guard(st.scope, n)), n.kids[1]);
            } else {
                lemma_analyze_range_keeps(st, n.kids, 0, len);
            }
        },
        _ => {
            lemma_analyze_range_keeps(st, n.kids, 0, len);
        },
    }
}

proof fn lemma_analyze_range_keeps(st: InliningV, s: Seq<NodeV>, lo: nat, hi: nat)
    ensures
        analyze_range(st, s, lo, hi).follows(st),
    decreases s, hi,
{
    if hi <= lo || hi > s.len() {
    } else {
        lemma_analyze_range_keeps(st, s, lo, (hi - 1) as nat);
        law_analysis_keeps(analyze_range(st, s, lo, (hi - 1) as nat), s[hi - 1]);
    }
}

/// The analysis of `n` in a scope of its own.
proof fn lemma_analyze_scoped_keeps(st: InliningV, n: NodeV, kind: ScopeKind)
    ensures
        analyze(st.enter(kind), n).leave(st).follows(st),
    decreases n, 3nat,
{
    law_analysis_keeps(st.enter(kind), n);
    lemma_leave(analyze(st.enter(kind), n), st, kind);
}

proof fn lemma_analyze_declarator_keeps(st: InliningV, n: NodeV)
    ensures
        analyze_declarator(st, n).follows(st),
    decreases n, 1nat,
{
    if n.kids.len() == 1 || n.kids.len() == 2 {
        let s0 = if n.kids.len() == 2 {
            law_analysis_keeps(st, n.kids[1]);
            analyze(st, n.kids[1])
        } else {
            st
        };
        let s1 = s0.with_pat_mode(PatFoldingMode::VarDecl).with_var_decl_kind(
            st.var_decl_kind,
        );
        match n.kids[0].kind {
            Kind::BindingIdent(id) => {
                lemma_note_declarator_keeps(
                    s1,
                    id,
                    if n.kids.len() == 2 {
                        Some(n.kids[1])
                    } else {
                        None
                    },
                );
            },
            _ => {
                law_analysis_keeps(s1, n.kids[0]);
            },
        }
    } else {
        lemma_analyze_range_keeps(st, n.kids, 0, n.kids.len());
    }
}

proof fn lemma_analyze_function_keeps(st: InliningV, f: NodeV, named: bool)
    ensures
        analyze_function(st, f, named).follows(st),
    decreases f, 1nat,
{
    let kind = ScopeKind::Fn { named };
    let inner = st.enter(kind).with_pat_mode(PatFoldingMode::Param);
    if f.kids.len() == 2 && f.kids[1].kind is Block {
        law_analysis_keeps(inner, f.kids[0]);
        let s1 = analyze(inner, f.kids[0]);
        lemma_analyze_range_keeps(s1, f.kids[1].kids, 0, f.kids[1].kids.len());
        lemma_leave(analyze_range(s1, f.kids[1].kids, 0, f.kids[1].kids.len()), st, kind);
    } else {
        lemma_analyze_range_keeps(inner, f.kids, 0, f.kids.len());
        lemma_leave(analyze_range(inner, f.kids, 0, f.kids.len()), st, kind);
    }
}

proof fn lemma_analyze_if_keeps(st: InliningV, n: NodeV)
    ensures
        analyze_if(st, n).follows(st),
    decreases n, 1nat,
{
    if n.kids.len() == 2 || n.kids.len() == 3 {
        law_analysis_keeps(st, n.kids[0]);
        let s1 = analyze(st, n.kids[0]);
        lemma_analyze_scoped_keeps(s1, n.kids[1], ScopeKind::Cond);
        let s2 = analyze(s1.enter(ScopeKind::Cond), n.kids[1]).leave(s1);
        if n.kids.len() == 3 {
            lemma_analyze_scoped_keeps(s2, n.kids[2], ScopeKind::Cond);
        }
    } else {
        lemma_analyze_range_keeps(st, n.kids, 0, n.kids.len());
    }
}

proof fn lemma_analyze_catch_keeps(st: InliningV, n: NodeV)
    ensures
        analyze_catch(st, n).follows(st),
    decreases n, 1nat,
{
    if n.kids.len() == 2 {
        let c0 = st.enter(ScopeKind::Block).with_pat_mode(PatFoldingMode::CatchParam);
        law_analysis_keeps(c0, n.kids[0]);
        let c1 = analyze(c0, n.kids[0]);
        c1.scope.lemma_touch_pattern_keeps(n.kids[0], true);
        let c2 = c1.with_scope(c1.scope.touch_pattern(n.kids[0], true));
        law_analysis_keeps(c2, n.kids[1]);
        lemma_leave(analyze(c2, n.kids[1]), st, ScopeKind::Block);
    } else {
        lemma_analyze_range_keeps(st, n.kids, 0, n.kids.len());
    }
}

proof fn lemma_analyze_call_keeps(st: InliningV, n: NodeV)
    ensures
        analyze_call(st, n).follows(st),
    decreases n, 1nat,
{
    if n.kids.len() == 0 {
        st.scope.lemma_steps_keep(Id { sym: 0, tag: 0 }, None, n, false);
    } else {
        law_analysis_keeps(st, n.kids[0]);
        let s1 = analyze(st, n.kids[0]);
        s1.scope.lemma_steps_keep(Id { sym: 0, tag: 0 }, None, n.kids[0], false);
        let s2 = s1.with_scope(s1.scope.mark_this_sensitive(n.kids[0]));
        lemma_analyze_range_keeps(s2, n.kids, 1, n.kids.len());
        let s3 = analyze_range(s2, n.kids, 1, n.kids.len());
        s3.scope.lemma_steps_keep(Id { sym: 0, tag: 0 }, None, n, false);
    }
}

proof fn lemma_analyze_assign_keeps(st: InliningV, n: NodeV, op: AssignOp)
    ensures
        analyze_assign(st, n, op).follows(st),
    decreases n, 1nat,
{
    if n.kids.len() == 2 {
        let left = n.kids[0];
        let right = n.kids[1];
        let s0 = st.with_pat_mode(PatFoldingMode::Assign);
        let s1 = if left.is_pattern() {
            law_analysis_keeps(s0, left);
            analyze(s0, left)
        } else {
            lemma_note_member_target_keeps(s0.scope, left, right);
            s0.with_scope(note_member_target(s0.scope, left, right))
        };
        law_analysis_keeps(s1, right);
        let s2 = analyze(s1, right);
        lemma_note_assign_keeps(s2.scope, op, left, right);
    } else {
        lemma_analyze_range_keeps(st, n.kids, 0, n.kids.len());
    }
}

proof fn lemma_analyze_for_in_keeps(st: InliningV, n: NodeV)
    ensures
        analyze_for_in(st, n).follows(st),
    decreases n, 1nat,
{
    if n.kids.len() == 3 {
        let s0 = st.with_pat_mode(PatFoldingMode::Param);
        law_analysis_keeps(s0, n.kids[0]);
        let s1 = analyze(s0, n.kids[0]);
        s1.scope.lemma_mark_written_keeps(n.kids[0]);
        s1.scope.mark_written(n.kids[0]).lemma_mark_written_keeps(n.kids[1]);
        let s2 = s1.with_scope(s1.scope.mark_written(n.kids[0]).mark_written(n.kids[1]));
        law_analysis_keeps(s2, n.kids[1]);
        let s3 = analyze(s2, n.kids[1]);
        lemma_analyze_scoped_keeps(s3, n.kids[2], ScopeKind::Loop);
    } else {
        lemma_analyze_range_keeps(st, n.kids, 0, n.kids.len());
    }
}

proof fn lemma_analyze_for_keeps(st: InliningV, n: NodeV)
    ensures
        analyze_for(st, n).follows(st),
    decreases n, 1nat,
{
    if n.kids.len() == 4 {
        law_analysis_keeps(st, n.kids[0]);
        let s1 = analyze(st, n.kids[0]);
        let m1 = s1.scope.mark_written(n.kids[0]);
        let m2 = m1.mark_written(n.kids[1]);
        s1.scope.lemma_mark_written_keeps(n.kids[0]);
        m1.lemma_mark_written_keeps(n.kids[1]);
        m2.lemma_mark_written_keeps(n.kids[2]);
        let s2 = s1.with_scope(m2.mark_written(n.kids[2]));
        law_analysis_keeps(s2, n.kids[1]);
        let s3 = analyze(s2, n.kids[1]);
        law_analysis_keeps(s3, n.kids[2]);
        let s4 = analyze(s3, n.kids[2]);
        s4.scope.lemma_steps_keep(Id { sym: 0, tag: 0 }, None, n, false);
        let s5 = if empty_head(n) {
            s4.with_scope(s4.scope.store_inline_barrier(Phase::Analysis))
        } else {
            s4
        };
        lemma_analyze_scoped_keeps(s5, n.kids[3], ScopeKind::Loop);
    } else {
        lemma_analyze_range_keeps(st, n.kids, 0, n.kids.len());
    }
}

proof fn lemma_analyze_while_keeps(st: InliningV, n: NodeV)
    ensures
        analyze_while(st, n).follows(st),
    decreases n, 1nat,
{
    if n.kids.len() == 2 {
        st.scope.lemma_mark_written_keeps(n.kids[0]);
        let s0 = st.with_scope(st.scope.mark_written(n.kids[0]));
        law_analysis_keeps(s0, n.kids[0]);
        let s1 = analyze(s0, n.kids[0]);
        lemma_analyze_scoped_keeps(s1, n.kids[1], ScopeKind::Loop);
    } else {
        lemma_analyze_range_keeps(st, n.kids, 0, n.kids.len());
    }
}

proof fn lemma_redeclare_keeps(scope: ScopeV, id: Id, init: NodeV, kind: VarType)
    ensures
        redeclare_undefined(scope, id, kind).keeps(scope),
        redeclare_cheap(scope, id, init, kind).keeps(scope),
        settle_declarator(scope, id, init, kind).0.keeps(scope),
{
    scope.lemma_steps_keep(id, None, init, true);
    scope.lemma_steps_keep(id, None, init, false);
    scope.lemma_steps_keep(id, Some(init), init, false);
    scope.declare(id, Some(init), false, kind).lemma_steps_keep(id, None, init, false);
}

/// The rewriting of a node takes no binding away and clears no mark.
pub proof fn law_rewriting_keeps(st: InliningV, n: NodeV)
    ensures
        rewrite(st, n).0.follows(st),
    decreases n, 2nat,
{
    let len = n.kids.len();
    match n.kind {
        Kind::Ident(_) => {},
        Kind::BindingIdent(id) => {
            lemma_ident_keeps(st, id, n.span);
        },
        Kind::VarDecl(kind) => {
            lemma_rewrite_kids_keeps(st.with_var_decl_kind(kind), n);
        },
        Kind::Declarator => {
            lemma_rewrite_declarator_keeps(st, n);
        },
        Kind::FnDecl(_) => {
            if len == 1 && n.kids[0].kind is Function {
                lemma_rewrite_function_keeps(st, n.kids[0], true);
            } else {
                lemma_rewrite_kids_keeps(st, n);
            }
        },
        Kind::Function => {
            lemma_rewrite_function_keeps(st, n, false);
        },
        Kind::FnExpr(name) => {
            match name {
                Some(id) => {
                    st.scope.lemma_steps_keep(id, None, n, true);
                    lemma_rewrite_kids_keeps(st.with_scope(st.scope.add_write(id, true)), n);
                },
                None => {
                    lemma_rewrite_kids_keeps(st, n);
                },
            }
        },
        Kind::Arrow => {
            let kind = ScopeKind::Fn { named: false };
            let inner = st.enter(kind).with_pat_mode(PatFoldingMode::Param);
            lemma_rewrite_kids_keeps(inner, n);
            lemma_leave(rewrite_kids(inner, n).0, st, kind);
        },
        Kind::Block => {
            let inner = st.enter(ScopeKind::Block);
            lemma_relist_keeps(inner, n.kids, 0, len);
            lemma_leave(relist(inner, n.kids, 0, len).0, st, ScopeKind::Block);
        },
        Kind::Case => {
            lemma_rewrite_case_keeps(st, n);
        },
        Kind::If => {
            lemma_rewrite_if_keeps(st, n);
        },
        Kind::Catch => {
            lemma_rewrite_catch_keeps(st, n);
        },
        Kind::Call => {
            lemma_rewrite_call_keeps(st, n);
        },
        Kind::New => {
            lemma_rewrite_call_keeps(st, n);
        },
        Kind::Assign(op) => {
            lemma_rewrite_assign_keeps(st, n, op);
        },
        Kind::Member { computed } => {
            if len == 2 && !computed {
                law_rewriting_keeps(st, n.kids[0]);
            } else {
                lemma_rewrite_kids_keeps(st, n);
            }
        },
        Kind::Update { .. } => {
            st.scope.lemma_mark_written_keeps(n);
        },
        Kind::Unary(op) => {
            if op is Delete {
                st.scope.lemma_mark_written_keeps(n);
            } else {
                lemma_rewrite_kids_keeps(st, n);
            }
        },
        Kind::ForIn => {
            lemma_rewrite_for_in_keeps(st, n);
        },
        Kind::ForOf => {
            lemma_rewrite_for_in_keeps(st, n);
        },
        Kind::For => {
            lemma_rewrite_for_keeps(st, n);
        },
        Kind::While => {
            lemma_rewrite_while_keeps(st, n);
        },
        Kind::DoWhile => {
            lemma_rewrite_while_keeps(st, n);
        },
        Kind::Try => {
            if len == 3 {
                st.scope.lemma_mark_written_keeps(n.kids[0]);
                st.scope.mark_written(n.kids[0]).lemma_mark_written_keeps(n.kids[2]);
                law_rewriting_keeps(st.with_scope(guard(st.scope, n)), n.kids[1]);
            } else {
                lemma_rewrite_kids_keeps(st, n);
            }
        },
        _ => {
            lemma_rewrite_kids_keeps(st, n);
        },
    }
}

proof fn lemma_rewrite_range_keeps(st: InliningV, s: Seq<NodeV>, lo: nat, hi: nat)
    ensures
        rewrite_range(st, s, lo, hi).0.follows(st),
    decreases s, hi,
{
    if hi <= lo || hi > s.len() {
    } else {
        lemma_rewrite_range_keeps(st, s, lo, (hi - 1) as nat);
        law_rewriting_keeps(rewrite_range(st, s, lo, (hi - 1) as nat).0, s[hi - 1]);
    }
}

proof fn lemma_rewrite_kids_keeps(st: InliningV, n: NodeV)
    ensures
        rewrite_kids(st, n).0.follows(st),
    decreases n, 0nat,
{
    lemma_rewrite_range_keeps(st, n.kids, 0, n.kids.len());
}

proof fn lemma_relist_keeps(st: InliningV, s: Seq<NodeV>, lo: nat, hi: nat)
    ensures
        relist(st, s, lo, hi).0.follows(st),
    decreases s, hi + 1,
{
    lemma_analyze_range_keeps(st, s, lo, hi);
    lemma_rewrite_range_keeps(analyze_range(st, s, lo, hi), s, lo, hi);
}

/// The rewriting of `n` in a scope of its own.
proof fn lemma_rewrite_scoped_keeps(st: InliningV, n: NodeV, kind: ScopeKind)
    ensures
        rewrite(st.enter(kind), n).0.leave(st).follows(st),
    decreases n, 3nat,
{
    law_rewriting_keeps(st.enter(kind), n);
    lemma_leave(rewrite(st.enter(kind), n).0, st, kind);
}

proof fn lemma_rewrite_declarator_keeps(st: InliningV, n: NodeV)
    ensures
        rewrite_declarator(st, n).0.follows(st),
    decreases n, 1nat,
{
    if n.kids.len() == 1 || n.kids.len() == 2 {
        let name = n.kids[0];
        let has_init = n.kids.len() == 2;
        let kind = VarType::spec_of(st.var_decl_kind);
        if has_init && n.kids[1].is_cheap() {
            match name.kind {
                Kind::BindingIdent(id) => {
                    lemma_redeclare_keeps(st.scope, id, n.kids[1], kind);
                },
                _ => {
                    law_rewriting_keeps(st.with_pat_mode(PatFoldingMode::VarDecl), name);
                },
            }
        } else if has_init {
            law_rewriting_keeps(st, n.kids[1]);
            let (s1, init) = rewrite(st, n.kids[1]);
            let s2 = s1.with_pat_mode(PatFoldingMode::VarDecl).with_var_decl_kind(
                st.var_decl_kind,
            );
            match name.kind {
                Kind::BindingIdent(id) => {
                    lemma_redeclare_keeps(s2.scope, id, init, kind);
                },
                _ => {
                    law_rewriting_keeps(s2, name);
                },
            }
        } else {
            let s2 = st.with_pat_mode(PatFoldingMode::VarDecl);
            match name.kind {
                Kind::BindingIdent(id) => {
                    lemma_redeclare_keeps(s2.scope, id, name, kind);
                },
                _ => {
                    law_rewriting_keeps(s2, name);
                },
            }
        }
    } else {
        lemma_rewrite_kids_keeps(st, n);
    }
}

proof fn lemma_rewrite_function_keeps(st: InliningV, f: NodeV, named: bool)
    ensures
        rewrite_function(st, f, named).0.follows(st),
    decreases f, 1nat,
{
    let kind = ScopeKind::Fn { named };
    let inner = st.enter(kind).with_pat_mode(PatFoldingMode::Param);
    if f.kids.len() == 2 && f.kids[1].kind is Block {
        law_rewriting_keeps(inner, f.kids[0]);
        let s1 = rewrite(inner, f.kids[0]).0;
        lemma_relist_keeps(s1, f.kids[1].kids, 0, f.kids[1].kids.len());
        lemma_leave(relist(s1, f.kids[1].kids, 0, f.kids[1].kids.len()).0, st, kind);
    } else {
        lemma_rewrite_range_keeps(inner, f.kids, 0, f.kids.len());
        lemma_leave(rewrite_range(inner, f.kids, 0, f.kids.len()).0, st, kind);
    }
}

proof fn lemma_rewrite_case_keeps(st: InliningV, n: NodeV)
    ensures
        rewrite_case(st, n).0.follows(st),
    decreases n, 1nat,
{
    if n.kids.len() >= 1 {
        let inner = st.enter(ScopeKind::Block);
        law_rewriting_keeps(inner, n.kids[0]);
        let s1 = rewrite(inner, n.kids[0]).0;
        lemma_relist_keeps(s1, n.kids, 1, n.kids.len());
        lemma_leave(relist(s1, n.kids, 1, n.kids.len()).0, st, ScopeKind::Block);
    } else {
        lemma_rewrite_kids_keeps(st, n);
    }
}

proof fn lemma_rewrite_if_keeps(st: InliningV, n: NodeV)
    ensures
        rewrite_if(st, n).0.follows(st),
    decreases n, 1nat,
{
    if n.kids.len() == 2 || n.kids.len() == 3 {
        law_rewriting_keeps(st, n.kids[0]);
        let s1 = rewrite(st, n.kids[0]).0;
        lemma_rewrite_scoped_keeps(s1, n.kids[1], ScopeKind::Cond);
        let s2 = rewrite(s1.enter(ScopeKind::Cond), n.kids[1]).0.leave(s1);
        if n.kids.len() == 3 {
            lemma_rewrite_scoped_keeps(s2, n.kids[2], ScopeKind::Cond);
        }
    } else {
        lemma_rewrite_kids_keeps(st, n);
    }
}

proof fn lemma_rewrite_catch_keeps(st: InliningV, n: NodeV)
    ensures
        rewrite_catch(st, n).0.follows(st),
    decreases n, 1nat,
{
    if n.kids.len() == 2 {
        let c0 = st.enter(ScopeKind::Block).with_pat_mode(PatFoldingMode::CatchParam);
        law_rewriting_keeps(c0, n.kids[0]);
        let c1 = rewrite(c0, n.kids[0]).0;
        c1.scope.lemma_touch_pattern_keeps(n.kids[0], true);
        let c2 = c1.with_scope(c1.scope.touch_pattern(n.kids[0], true));
        law_rewriting_keeps(c2, n.kids[1]);
        lemma_leave(rewrite(c2, n.kids[1]).0, st, ScopeKind::Block);
    } else {
        lemma_rewrite_kids_keeps(st, n);
    }
}

proof fn lemma_rewrite_call_keeps(st: InliningV, n: NodeV)
    ensures
        rewrite_call(st, n).0.follows(st),
    decreases n, 1nat,
{
    if n.kids.len() == 0 {
        st.scope.lemma_steps_keep(Id { sym: 0, tag: 0 }, None, n, false);
    } else {
        law_rewriting_keeps(st, n.kids[0]);
        let s1 = rewrite(st, n.kids[0]).0;
        lemma_rewrite_range_keeps(s1, n.kids, 1, n.kids.len());
        let s2 = rewrite_range(s1, n.kids, 1, n.kids.len()).0;
        s2.scope.lemma_steps_keep(Id { sym: 0, tag: 0 }, None, n, false);
    }
}

proof fn lemma_rewrite_assign_keeps(st: InliningV, n: NodeV, op: AssignOp)
    ensures
        rewrite_assign(st, n, op).0.follows(st),
    decreases n, 1nat,
{
    if n.kids.len() == 2 {
        let left = n.kids[0];
        let s0 = st.with_pat_mode(PatFoldingMode::Assign);
        let s1 = if left.is_pattern() {
            law_rewriting_keeps(s0, left);
            rewrite(s0, left).0
        } else {
            lemma_note_member_target_keeps(s0.scope, left, n.kids[1]);
            s0.with_scope(note_member_target(s0.scope, left, n.kids[1]))
        };
        law_rewriting_keeps(s1, n.kids[1]);
        let (s2, right) = rewrite(s1, n.kids[1]);
        match first_assignment(s2.scope, op, left, right) {
            Some(id) => {
                s2.scope.lemma_steps_keep(id, None, right, false);
            },
            None => {
                lemma_note_assign_keeps(s2.scope, op, left, right);
            },
        }
    } else {
        lemma_rewrite_kids_keeps(st, n);
    }
}

proof fn lemma_rewrite_for_in_keeps(st: InliningV, n: NodeV)
    ensures
        rewrite_for_in(st, n).0.follows(st),
    decreases n, 1nat,
{
    if n.kids.len() == 3 {
        let s0 = st.with_pat_mode(PatFoldingMode::Param);
        law_rewriting_keeps(s0, n.kids[0]);
        let s1 = rewrite(s0, n.kids[0]).0;
        s1.scope.lemma_mark_written_keeps(n.kids[0]);
        s1.scope.mark_written(n.kids[0]).lemma_mark_written_keeps(n.kids[1]);
        let s2 = s1.with_scope(s1.scope.mark_written(n.kids[0]).mark_written(n.kids[1]));
        law_rewriting_keeps(s2, n.kids[1]);
        let s3 = rewrite(s2, n.kids[1]).0;
        lemma_rewrite_scoped_keeps(s3, n.kids[2], ScopeKind::Loop);
    } else {
        lemma_rewrite_kids_keeps(st, n);
    }
}

proof fn lemma_rewrite_for_keeps(st: InliningV, n: NodeV)
    ensures
        rewrite_for(st, n).0.follows(st),
    decreases n, 1nat,
{
    if n.kids.len() == 4 {
        law_rewriting_keeps(st, n.kids[0]);
        let s1 = rewrite(st, n.kids[0]).0;
        let m1 = s1.scope.mark_written(n.kids[0]);
        let m2 = m1.mark_written(n.kids[1]);
        s1.scope.lemma_mark_written_keeps(n.kids[0]);
        m1.lemma_mark_written_keeps(n.kids[1]);
        m2.lemma_mark_written_keeps(n.kids[2]);
        let s2 = s1.with_scope(m2.mark_written(n.kids[2]));
        law_rewriting_keeps(s2, n.kids[1]);
        let s3 = rewrite(s2, n.kids[1]).0;
        law_rewriting_keeps(s3, n.kids[2]);
        let s4 = rewrite(s3, n.kids[2]).0;
        s4.scope.lemma_steps_keep(Id { sym: 0, tag: 0 }, None, n, false);
        let s5 = if empty_head(n) {
            s4.with_scope(s4.scope.store_inline_barrier(Phase::Inlining))
        } else {
            s4
        };
        lemma_rewrite_scoped_keeps(s5, n.kids[3], ScopeKind::Loop);
    } else {
        lemma_rewrite_kids_keeps(st, n);
    }
}

proof fn lemma_rewrite_while_keeps(st: InliningV, n: NodeV)
    ensures
        rewrite_while(st, n).0.follows(st),
    decreases n, 1nat,
{
    if n.kids.len() == 2 {
        st.scope.lemma_mark_written_keeps(n.kids[0]);
        let s0 = st.with_scope(st.scope.mark_written(n.kids[0]));
        law_rewriting_keeps(s0, n.kids[0]);
        let s1 = rewrite(s0, n.kids[0]).0;
        lemma_rewrite_scoped_keeps(s1, n.kids[1], ScopeKind::Loop);
    } else {
        lemma_rewrite_kids_keeps(st, n);
    }
}

} // verus!
