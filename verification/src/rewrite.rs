//! The second walk: it replaces reads by what the bindings are known to
//! hold, and assignments that only give an undefined variable its value by
//! that value.
//!
//! [`rewrite`] says what the walk returns and what it does to the state of
//! the pass; [`Inlining::rewrite`] does it. Wherever the walk comes to a
//! list of statements with a scope of its own, it analyses the list before
//! it rewrites it, so that the reads and writes inside are counted afresh.

use crate::analysis::{
    analyze_range, bind_ident, empty_head, guard, has_empty_head, note_assign,
    note_member_target,
};
use crate::ast::{
    kids1, kids2, kids3, lemma_view, lemma_views_push, views, AssignOp, Id, Kind, Node, NodeV,
    UnaryOp, VarDeclKind,
};
use crate::pass::{Inlining, InliningV, PatFoldingMode};
use crate::scope::{Phase, ScopeKind, ScopeV, VarType};
use vstd::prelude::*;

verus! {

/// What a read of `id`, written as the node `n`, is replaced by.
///
/// - In the first run a constant is replaced by its value.
/// - Else, a binding whose reads may be replaced is replaced by the value
///   that it holds; where it holds none and is undefined, by a reference to
///   `undefined`.
/// - Anything else stays as it is.
pub open spec fn rewrite_ident(st: InliningV, n: NodeV, id: Id) -> NodeV {
    if st.is_first_run && st.scope.find_constant(id) is Some {
        st.scope.find_constant(id)->0
    } else {
        match st.scope.binding(id) {
            Some(v) => if v.is_inline_prevented() {
                n
            } else {
                match v.value {
                    Some(e) => e,
                    None => if v.is_undefined {
                        NodeV::undefined(n.span)
                    } else {
                        n
                    },
                }
            },
            None => n,
        }
    }
}

/// A declarator without a value declares its name anew as undefined,
/// unless the reads of the name must be left alone.
pub open spec fn redeclare_undefined(scope: ScopeV, id: Id, kind: VarType) -> ScopeV {
    if scope.var_prevented(id) {
        scope
    } else {
        scope.declare(id, None, true, kind)
    }
}

/// A declarator with a cheap value declares its name anew with that value,
/// unless the reads of the name must be left alone; the name is marked
/// where the value itself must not be moved.
pub open spec fn redeclare_cheap(scope: ScopeV, id: Id, init: NodeV, kind: VarType) -> ScopeV {
    if scope.var_prevented(id) || !scope.has_same_this(id, Some(init)) {
        scope
    } else {
        let s1 = scope.declare(id, Some(init), false, kind);
        if s1.is_inline_prevented(init) {
            s1.prevent_inline(id)
        } else {
            s1
        }
    }
}

/// What becomes of a declarator whose value `init`, already rewritten, is
/// not cheap: the records after it, and whether it keeps its value.
///
/// - Where the reads of the name must be left alone, nothing happens.
/// - Where `init` must not be moved, the name is marked.
/// - Where the name is read exactly once, it is declared anew with `init`
///   and the declarator loses its value: the one read will take it.
/// - Else the name is declared anew without a value.
pub open spec fn settle_declarator(scope: ScopeV, id: Id, init: NodeV, kind: VarType) -> (
    ScopeV,
    bool,
) {
    if scope.var_prevented(id) || !scope.has_same_this(id, Some(init)) {
        (scope, true)
    } else if scope.is_inline_prevented(init) {
        (scope.prevent_inline(id), true)
    } else if scope.read_cnt(id) == Some(1u64) {
        (scope.declare(id, Some(init), false, kind), false)
    } else {
        (scope.declare(id, None, false, kind), true)
    }
}

/// The identifier that a plain assignment gives its first value: the
/// target is one identifier that the innermost scope binds, undefined so
/// far, and neither its reads nor the value `right` must be left alone.
pub open spec fn first_assignment(scope: ScopeV, op: AssignOp, left: NodeV, right: NodeV)
    -> Option<Id> {
    if op is Assign {
        match left.target_id() {
            Some(id) => if scope.holds_undefined(id) && !scope.is_inline_prevented(right) {
                Some(id)
            } else {
                None
            },
            None => None,
        }
    } else {
        None
    }
}

/// The state of the pass after the rewriting of `n`, and what `n` becomes.
///
/// The walk goes the way of the analysis and opens the same scopes. It
/// differs in this:
///
/// - a read is replaced as [`rewrite_ident`] says, and nothing is counted;
/// - a function declaration declares nothing;
/// - the statements of a block, of a case and of a function body are
///   analysed before they are rewritten;
/// - both sides of `&&` and `||` are walked;
/// - what is not walked stays as it is.
pub open spec fn rewrite(st: InliningV, n: NodeV) -> (InliningV, NodeV)
    decreases n, 2nat,
{
    let len = n.kids.len();
    match n.kind {
        Kind::Ident(id) => (st, rewrite_ident(st, n, id)),
        Kind::BindingIdent(id) => (bind_ident(st, id, n.span), n),
        Kind::VarDecl(kind) => rewrite_kids(st.with_var_decl_kind(kind), n),
        Kind::Declarator => rewrite_declarator(st, n),
        Kind::FnDecl(_) => if len == 1 && n.kids[0].kind is Function {
            let (s1, f) = rewrite_function(st, n.kids[0], true);
            (s1, n.with_kids(seq![f]))
        } else {
            rewrite_kids(st, n)
        },
        Kind::Function => rewrite_function(st, n, false),
        Kind::FnExpr(name) => rewrite_kids(
            match name {
                Some(id) => st.with_scope(st.scope.add_write(id, true)),
                None => st,
            },
            n,
        ),
        Kind::Arrow => {
            let (s1, out) = rewrite_kids(
                st.enter(ScopeKind::Fn { named: false }).with_pat_mode(PatFoldingMode::Param),
                n,
            );
            (s1.leave(st), out)
        },
        Kind::Block => {
            let (s1, kids) = relist(st.enter(ScopeKind::Block), n.kids, 0, len);
            (s1.leave(st), n.with_kids(kids))
        },
        Kind::Case => rewrite_case(st, n),
        Kind::If => rewrite_if(st, n),
        Kind::Catch => rewrite_catch(st, n),
        Kind::Call => rewrite_call(st, n),
        Kind::New => rewrite_call(st, n),
        Kind::Assign(op) => rewrite_assign(st, n, op),
        Kind::Member { computed } => if len == 2 && !computed {
            let (s1, obj) = rewrite(st, n.kids[0]);
            (s1, n.with_kids(seq![obj, n.kids[1]]))
        } else {
            rewrite_kids(st, n)
        },
        Kind::Update { .. } => (st.with_scope(st.scope.mark_written(n)), n),
        Kind::Unary(op) => if op is Delete {
            (st.with_scope(st.scope.mark_written(n)), n)
        } else {
            rewrite_kids(st, n)
        },
        Kind::ForIn => rewrite_for_in(st, n),
        Kind::ForOf => rewrite_for_in(st, n),
        Kind::For => rewrite_for(st, n),
        Kind::While => rewrite_while(st, n),
        Kind::DoWhile => rewrite_while(st, n),
        Kind::Try => if len == 3 {
            let (s1, handler) = rewrite(st.with_scope(guard(st.scope, n)), n.kids[1]);
            (s1, n.with_kids(seq![n.kids[0], handler, n.kids[2]]))
        } else {
            rewrite_kids(st, n)
        },
        _ => rewrite_kids(st, n),
    }
}

/// The state after the rewriting of the nodes `lo..hi` of `s`, in order,
/// and what they become.
pub open spec fn rewrite_range(st: InliningV, s: Seq<NodeV>, lo: nat, hi: nat) -> (
    InliningV,
    Seq<NodeV>,
)
    decreases s, hi,
{
    if hi <= lo || hi > s.len() {
        (st, Seq::empty())
    } else {
        let (s1, out) = rewrite_range(st, s, lo, (hi - 1) as nat);
        let (s2, x) = rewrite(s1, s[hi - 1]);
        (s2, out.push(x))
    }
}

/// `n` with all its children rewritten, in order.
pub open spec fn rewrite_kids(st: InliningV, n: NodeV) -> (InliningV, NodeV)
    decreases n, 0nat,
{
    let (s1, kids) = rewrite_range(st, n.kids, 0, n.kids.len());
    (s1, n.with_kids(kids))
}

/// A list of statements: it is analysed, then rewritten.
pub open spec fn relist(st: InliningV, s: Seq<NodeV>, lo: nat, hi: nat) -> (
    InliningV,
    Seq<NodeV>,
)
    decreases s, hi + 1,
{
    rewrite_range(analyze_range(st, s, lo, hi), s, lo, hi)
}

/// A declarator.
///
/// One whose value is cheap is the record of that value and stays as it is
/// written. Of the others the value is rewritten; a `var` or `let` that
/// names one identifier is then settled as [`settle_declarator`] says.
pub open spec fn rewrite_declarator(st: InliningV, n: NodeV) -> (InliningV, NodeV)
    decreases n, 1nat,
{
    if n.kids.len() == 1 || n.kids.len() == 2 {
        let name = n.kids[0];
        let has_init = n.kids.len() == 2;
        let kind = VarType::spec_of(st.var_decl_kind);
        if has_init && n.kids[1].is_cheap() {
            match name.kind {
                Kind::BindingIdent(id) => if st.var_decl_kind is Const {
                    (st.with_pat_mode(PatFoldingMode::VarDecl), n)
                } else {
                    (
                        st.with_scope(
                            redeclare_cheap(st.scope, id, n.kids[1], kind),
                        ).with_pat_mode(PatFoldingMode::VarDecl),
                        n,
                    )
                },
                _ => {
                    let (s1, p) = rewrite(st.with_pat_mode(PatFoldingMode::VarDecl), name);
                    (s1, n.with_kids(seq![p, n.kids[1]]))
                },
            }
        } else if has_init {
            let (s1, init) = rewrite(st, n.kids[1]);
            let s2 = s1.with_pat_mode(PatFoldingMode::VarDecl).with_var_decl_kind(
                st.var_decl_kind,
            );
            match name.kind {
                Kind::BindingIdent(id) => if st.var_decl_kind is Const {
                    (s2, n.with_kids(seq![name, init]))
                } else {
                    let (scope, keep) = settle_declarator(s2.scope, id, init, kind);
                    (
                        s2.with_scope(scope),
                        if keep {
                            n.with_kids(seq![name, init])
                        } else {
                            n.with_kids(seq![name])
                        },
                    )
                },
                _ => {
                    let (s3, p) = rewrite(s2, name);
                    (s3, n.with_kids(seq![p, init]))
                },
            }
        } else {
            let s2 = st.with_pat_mode(PatFoldingMode::VarDecl);
            match name.kind {
                Kind::BindingIdent(id) => if st.var_decl_kind is Const {
                    (s2, n)
                } else {
                    (s2.with_scope(redeclare_undefined(s2.scope, id, kind)), n)
                },
                _ => {
                    let (s3, p) = rewrite(s2, name);
                    (s3, n.with_kids(seq![p]))
                },
            }
        }
    } else {
        rewrite_kids(st, n)
    }
}

/// A function: the parameters are declared, the body is a list of
/// statements in the same scope.
pub open spec fn rewrite_function(st: InliningV, f: NodeV, named: bool) -> (InliningV, NodeV)
    decreases f, 1nat,
{
    let inner = st.enter(ScopeKind::Fn { named }).with_pat_mode(PatFoldingMode::Param);
    if f.kids.len() == 2 && f.kids[1].kind is Block {
        let (s1, params) = rewrite(inner, f.kids[0]);
        let (s2, body) = relist(s1, f.kids[1].kids, 0, f.kids[1].kids.len());
        (s2.leave(st), f.with_kids(seq![params, f.kids[1].with_kids(body)]))
    } else {
        let (s1, kids) = rewrite_range(inner, f.kids, 0, f.kids.len());
        (s1.leave(st), f.with_kids(kids))
    }
}

/// A case of a `switch`: the test is rewritten, the statements are a list
/// of statements, all in one scope.
pub open spec fn rewrite_case(st: InliningV, n: NodeV) -> (InliningV, NodeV)
    decreases n, 1nat,
{
    if n.kids.len() >= 1 {
        let (s1, test) = rewrite(st.enter(ScopeKind::Block), n.kids[0]);
        let (s2, body) = relist(s1, n.kids, 1, n.kids.len());
        (s2.leave(st), n.with_kids(seq![test] + body))
    } else {
        rewrite_kids(st, n)
    }
}

pub open spec fn rewrite_if(st: InliningV, n: NodeV) -> (InliningV, NodeV)
    decreases n, 1nat,
{
    if n.kids.len() == 2 || n.kids.len() == 3 {
        let (s1, test) = rewrite(st, n.kids[0]);
        let (c1, cons) = rewrite(s1.enter(ScopeKind::Cond), n.kids[1]);
        let s2 = c1.leave(s1);
        if n.kids.len() == 3 {
            let (c2, alt) = rewrite(s2.enter(ScopeKind::Cond), n.kids[2]);
            (c2.leave(s2), n.with_kids(seq![test, cons, alt]))
        } else {
            (s2, n.with_kids(seq![test, cons]))
        }
    } else {
        rewrite_kids(st, n)
    }
}

pub open spec fn rewrite_catch(st: InliningV, n: NodeV) -> (InliningV, NodeV)
    decreases n, 1nat,
{
    if n.kids.len() == 2 {
        let c0 = st.enter(ScopeKind::Block).with_pat_mode(PatFoldingMode::CatchParam);
        let (c1, param) = rewrite(c0, n.kids[0]);
        let c2 = c1.with_scope(c1.scope.touch_pattern(n.kids[0], true));
        let (c3, body) = rewrite(c2, n.kids[1]);
        (c3.leave(st), n.with_kids(seq![param, body]))
    } else {
        rewrite_kids(st, n)
    }
}

/// A call or a construction: after the arguments control passes a barrier.
pub open spec fn rewrite_call(st: InliningV, n: NodeV) -> (InliningV, NodeV)
    decreases n, 1nat,
{
    if n.kids.len() == 0 {
        (st.with_scope(st.scope.store_inline_barrier(Phase::Inlining)), n)
    } else {
        let (s1, callee) = rewrite(st, n.kids[0]);
        let (s2, args) = rewrite_range(s1, n.kids, 1, n.kids.len());
        (
            s2.with_scope(s2.scope.store_inline_barrier(Phase::Inlining)),
            n.with_kids(seq![callee] + args),
        )
    }
}

/// An assignment. One that gives an undefined variable its first value
/// (see [`first_assignment`]) is replaced by that value, which the
/// variable holds from then on; any other is recorded as the analysis
/// records it.
pub open spec fn rewrite_assign(st: InliningV, n: NodeV, op: AssignOp) -> (InliningV, NodeV)
    decreases n, 1nat,
{
    if n.kids.len() == 2 {
        let left = n.kids[0];
        let s0 = st.with_pat_mode(PatFoldingMode::Assign);
        let (s1, target) = if left.is_pattern() {
            rewrite(s0, left)
        } else {
            (s0.with_scope(note_member_target(s0.scope, left, n.kids[1])), left)
        };
        let (s2, right) = rewrite(s1, n.kids[1]);
        match first_assignment(s2.scope, op, left, right) {
            Some(id) => (s2.with_scope(s2.scope.assign_value(id, right)), right),
            None => (
                s2.with_scope(note_assign(s2.scope, op, left, right)),
                n.with_kids(seq![target, right]),
            ),
        }
    } else {
        rewrite_kids(st, n)
    }
}

pub open spec fn rewrite_for_in(st: InliningV, n: NodeV) -> (InliningV, NodeV)
    decreases n, 1nat,
{
    if n.kids.len() == 3 {
        let (s1, left) = rewrite(st.with_pat_mode(PatFoldingMode::Param), n.kids[0]);
        let s2 = s1.with_scope(s1.scope.mark_written(n.kids[0]).mark_written(n.kids[1]));
        let (s3, right) = rewrite(s2, n.kids[1]);
        let (c, body) = rewrite(s3.enter(ScopeKind::Loop), n.kids[2]);
        (c.leave(s3), n.with_kids(seq![left, right, body]))
    } else {
        rewrite_kids(st, n)
    }
}

/// A `for` loop. One with nothing in its head is a barrier before its
/// body.
pub open spec fn rewrite_for(st: InliningV, n: NodeV) -> (InliningV, NodeV)
    decreases n, 1nat,
{
    if n.kids.len() == 4 {
        let (s1, init) = rewrite(st, n.kids[0]);
        let s2 = s1.with_scope(
            s1.scope.mark_written(n.kids[0]).mark_written(n.kids[1]).mark_written(n.kids[2]),
        );
        let (s3, test) = rewrite(s2, n.kids[1]);
        let (s4, update) = rewrite(s3, n.kids[2]);
        let s5 = if empty_head(n) {
            s4.with_scope(s4.scope.store_inline_barrier(Phase::Inlining))
        } else {
            s4
        };
        let (c, body) = rewrite(s5.enter(ScopeKind::Loop), n.kids[3]);
        (c.leave(s5), n.with_kids(seq![init, test, update, body]))
    } else {
        rewrite_kids(st, n)
    }
}

pub open spec fn rewrite_while(st: InliningV, n: NodeV) -> (InliningV, NodeV)
    decreases n, 1nat,
{
    if n.kids.len() == 2 {
        let (s1, test) = rewrite(st.with_scope(st.scope.mark_written(n.kids[0])), n.kids[0]);
        let (c, body) = rewrite(s1.enter(ScopeKind::Loop), n.kids[1]);
        (c.leave(s1), n.with_kids(seq![test, body]))
    } else {
        rewrite_kids(st, n)
    }
}

impl Inlining {
    fn rewrite_ident(&self, n: &Node, id: Id) -> (out: Node)
        ensures
            out@ == rewrite_ident(self@, n@, id),
    {
        if self.is_first_run {
            match self.scope.find_constant(id) {
                Some(v) => {
                    return v;
                },
                None => {},
            }
        }
        match self.scope.find_binding(id) {
            Some(v) => {
                if v.is_inline_prevented() {
                    n.deep_copy()
                } else {
                    match &v.value {
                        Some(e) => e.deep_copy(),
                        None => if v.is_undefined {
                            Node::undefined(n.span)
                        } else {
                            n.deep_copy()
                        },
                    }
                }
            },
            None => n.deep_copy(),
        }
    }

    fn redeclare_undefined(&mut self, id: Id, kind: VarType)
        ensures
            final(self)@ == old(self)@.with_scope(
                redeclare_undefined(old(self)@.scope, id, kind),
            ),
            final(self)@.follows(old(self)@),
    {
        if !self.scope.var_prevented(id) {
            self.scope.declare(id, None, true, kind);
        }
    }

    fn redeclare_cheap(&mut self, id: Id, init: &Node, kind: VarType)
        ensures
            final(self)@ == old(self)@.with_scope(
                redeclare_cheap(old(self)@.scope, id, init@, kind),
            ),
            final(self)@.follows(old(self)@),
    {
        if !self.scope.var_prevented(id) && self.scope.has_same_this(id, Some(init)) {
            self.scope.declare(id, Some(init.deep_copy()), false, kind);
            if self.scope.is_inline_prevented(init) {
                self.scope.prevent_inline(id);
            }
        }
    }

    /// Settles a declarator whose value is not cheap; the value comes back
    /// where the declarator keeps it.
    fn settle_declarator(&mut self, id: Id, init: Node, kind: VarType) -> (kept: Option<Node>)
        ensures
            final(self)@ == old(self)@.with_scope(
                settle_declarator(old(self)@.scope, id, init@, kind).0,
            ),
            final(self)@.follows(old(self)@),
            match kept {
                Some(e) => e@ == init@ && settle_declarator(old(self)@.scope, id, init@, kind).1,
                None => !settle_declarator(old(self)@.scope, id, init@, kind).1,
            },
    {
        if self.scope.var_prevented(id) || !self.scope.has_same_this(id, Some(&init)) {
            Some(init)
        } else if self.scope.is_inline_prevented(&init) {
            self.scope.prevent_inline(id);
            Some(init)
        } else {
            let once = match self.scope.read_cnt(id) {
                Some(c) => c == 1,
                None => false,
            };
            if once {
                self.scope.declare(id, Some(init), false, kind);
                None
            } else {
                self.scope.declare(id, None, false, kind);
                Some(init)
            }
        }
    }

    fn first_assignment(&self, op: AssignOp, left: &Node, right: &Node) -> (r: Option<Id>)
        ensures
            r == first_assignment(self@.scope, op, left@, right@),
    {
        match op {
            AssignOp::Assign => match left.target_id() {
                Some(id) => {
                    if self.scope.holds_undefined(id) && !self.scope.is_inline_prevented(right) {
                        Some(id)
                    } else {
                        None
                    }
                },
                None => None,
            },
            _ => None,
        }
    }

    /// Rewrites `n`: returns what `n` becomes, and records in the state of
    /// the pass what the walk passes.
    pub fn rewrite(&mut self, n: &Node) -> (out: Node)
        ensures
            (final(self)@, out@) == rewrite(old(self)@, n@),
            final(self)@.follows(old(self)@),
        decreases n, 3nat,
    {
        proof {
            lemma_view(*n);
        }
        let len = n.kids.len();
        match n.kind {
            Kind::Ident(id) => self.rewrite_ident(n, id),
            Kind::BindingIdent(id) => {
                self.bind_ident(id, n.span);
                n.deep_copy()
            },
            Kind::VarDecl(kind) => {
                self.var_decl_kind = kind;
                self.rewrite_kids(n)
            },
            Kind::Declarator => self.rewrite_declarator(n),
            Kind::FnDecl(_) => {
                let plain = len == 1 && match n.kids[0].kind {
                    Kind::Function => true,
                    _ => false,
                };
                if plain {
                    let f = self.rewrite_function(&n.kids[0], true);
                    n.with_kids(kids1(f))
                } else {
                    self.rewrite_kids(n)
                }
            },
            Kind::Function => self.rewrite_function(n, false),
            Kind::FnExpr(name) => {
                match name {
                    Some(id) => self.scope.add_write(id, true),
                    None => {},
                }
                self.rewrite_kids(n)
            },
            Kind::Arrow => {
                let saved = self.enter(ScopeKind::Fn { named: false });
                self.pat_mode = PatFoldingMode::Param;
                let out = self.rewrite_kids(n);
                proof {
                    self@.scope.lemma_exit_keeps(
                        old(self)@.scope,
                        ScopeKind::Fn { named: false },
                    );
                }
                self.leave(saved);
                out
            },
            Kind::Block => {
                let saved = self.enter(ScopeKind::Block);
                let mut kids: Vec<Node> = Vec::new();
                self.relist_into(n, 0, len, &mut kids);
                proof {
                    self@.scope.lemma_exit_keeps(old(self)@.scope, ScopeKind::Block);
                }
                self.leave(saved);
                n.with_kids(kids)
            },
            Kind::Case => self.rewrite_case(n),
            Kind::If => self.rewrite_if(n),
            Kind::Catch => self.rewrite_catch(n),
            Kind::Call => self.rewrite_call(n),
            Kind::New => self.rewrite_call(n),
            Kind::Assign(op) => self.rewrite_assign(n, op),
            Kind::Member { computed } => {
                if len == 2 && !computed {
                    let obj = self.rewrite(&n.kids[0]);
                    n.with_kids(kids2(obj, n.kids[1].deep_copy()))
                } else {
                    self.rewrite_kids(n)
                }
            },
            Kind::Update { .. } => {
                self.scope.mark_written(n);
                n.deep_copy()
            },
            Kind::Unary(UnaryOp::Delete) => {
                self.scope.mark_written(n);
                n.deep_copy()
            },
            Kind::ForIn => self.rewrite_for_in(n),
            Kind::ForOf => self.rewrite_for_in(n),
            Kind::For => self.rewrite_for(n),
            Kind::While => self.rewrite_while(n),
            Kind::DoWhile => self.rewrite_while(n),
            Kind::Try => {
                if len == 3 {
                    self.guard(n);
                    let handler = self.rewrite(&n.kids[1]);
                    n.with_kids(kids3(n.kids[0].deep_copy(), handler, n.kids[2].deep_copy()))
                } else {
                    self.rewrite_kids(n)
                }
            },
            _ => self.rewrite_kids(n),
        }
    }

    /// Rewrites the children `lo..hi` of `n`, in order, and adds what they
    /// become to `out`.
    fn rewrite_into(&mut self, n: &Node, lo: usize, hi: usize, out: &mut Vec<Node>)
        requires
            hi <= n.kids.len(),
        ensures
            final(self)@ == rewrite_range(old(self)@, n@.kids, lo as nat, hi as nat).0,
            views(final(out)@) == views(old(out)@) + rewrite_range(
                old(self)@,
                n@.kids,
                lo as nat,
                hi as nat,
            ).1,
            final(self)@.follows(old(self)@),
        decreases n, 0nat,
    {
        proof {
            lemma_view(*n);
        }
        if lo >= hi {
            return ;
        }
        let mut i: usize = lo;
        while i < hi
            invariant
                lo <= i <= hi <= n.kids.len(),
                n@.kids.len() == n.kids.len(),
                forall|k: int| 0 <= k < n.kids.len() ==> #[trigger] n@.kids[k] == n.kids[k]@,
                self@ == rewrite_range(old(self)@, n@.kids, lo as nat, i as nat).0,
                views(out@) == views(old(out)@) + rewrite_range(
                    old(self)@,
                    n@.kids,
                    lo as nat,
                    i as nat,
                ).1,
                self@.follows(old(self)@),
            decreases hi - i,
        {
            let ghost before = rewrite_range(old(self)@, n@.kids, lo as nat, i as nat).1;
            let x = self.rewrite(&n.kids[i]);
            proof {
                assert((views(old(out)@) + before).push(x@) =~= views(old(out)@) + before.push(
                    x@,
                ));
            }
            out.push(x);
            i = i + 1;
        }
    }

    /// Analyses the children `lo..hi` of `n`, then rewrites them, and adds
    /// what they become to `out`.
    fn relist_into(&mut self, n: &Node, lo: usize, hi: usize, out: &mut Vec<Node>)
        requires
            hi <= n.kids.len(),
        ensures
            final(self)@ == relist(old(self)@, n@.kids, lo as nat, hi as nat).0,
            views(final(out)@) == views(old(out)@) + relist(
                old(self)@,
                n@.kids,
                lo as nat,
                hi as nat,
            ).1,
            final(self)@.follows(old(self)@),
        decreases n, 1nat,
    {
        self.analyze_range(n, lo, hi);
        self.rewrite_into(n, lo, hi, out);
    }

    fn rewrite_kids(&mut self, n: &Node) -> (out: Node)
        ensures
            (final(self)@, out@) == rewrite_kids(old(self)@, n@),
            final(self)@.follows(old(self)@),
        decreases n, 1nat,
    {
        proof {
            lemma_view(*n);
        }
        let mut kids: Vec<Node> = Vec::new();
        self.rewrite_into(n, 0, n.kids.len(), &mut kids);
        n.with_kids(kids)
    }

    fn rewrite_declarator(&mut self, n: &Node) -> (out: Node)
        ensures
            (final(self)@, out@) == rewrite_declarator(old(self)@, n@),
            final(self)@.follows(old(self)@),
        decreases n, 2nat,
    {
        proof {
            lemma_view(*n);
        }
        if !(n.kids.len() == 1 || n.kids.len() == 2) {
            return self.rewrite_kids(n);
        }
        let has_init = n.kids.len() == 2;
        let kind = VarType::of(self.var_decl_kind);
        let is_const = match self.var_decl_kind {
            VarDeclKind::Const => true,
            _ => false,
        };
        let name = match n.kids[0].kind {
            Kind::BindingIdent(id) => Some(id),
            _ => None,
        };
        if has_init && n.kids[1].is_cheap() {
            match name {
                Some(id) => {
                    if !is_const {
                        self.redeclare_cheap(id, &n.kids[1], kind);
                    }
                    self.pat_mode = PatFoldingMode::VarDecl;
                    n.deep_copy()
                },
                None => {
                    self.pat_mode = PatFoldingMode::VarDecl;
                    let p = self.rewrite(&n.kids[0]);
                    n.with_kids(kids2(p, n.kids[1].deep_copy()))
                },
            }
        } else if has_init {
            let declared = self.var_decl_kind;
            let init = self.rewrite(&n.kids[1]);
            self.pat_mode = PatFoldingMode::VarDecl;
            self.var_decl_kind = declared;
            match name {
                Some(id) => {
                    if is_const {
                        n.with_kids(kids2(n.kids[0].deep_copy(), init))
                    } else {
                        match self.settle_declarator(id, init, kind) {
                            Some(kept) => n.with_kids(kids2(n.kids[0].deep_copy(), kept)),
                            None => n.with_kids(kids1(n.kids[0].deep_copy())),
                        }
                    }
                },
                None => {
                    let p = self.rewrite(&n.kids[0]);
                    n.with_kids(kids2(p, init))
                },
            }
        } else {
            self.pat_mode = PatFoldingMode::VarDecl;
            match name {
                Some(id) => {
                    if !is_const {
                        self.redeclare_undefined(id, kind);
                    }
                    n.deep_copy()
                },
                None => {
                    let p = self.rewrite(&n.kids[0]);
                    n.with_kids(kids1(p))
                },
            }
        }
    }

    fn rewrite_function(&mut self, f: &Node, named: bool) -> (out: Node)
        ensures
            (final(self)@, out@) == rewrite_function(old(self)@, f@, named),
            final(self)@.follows(old(self)@),
        decreases f, 2nat,
    {
        proof {
            lemma_view(*f);
        }
        let saved = self.enter(ScopeKind::Fn { named });
        self.pat_mode = PatFoldingMode::Param;
        let plain = f.kids.len() == 2 && match f.kids[1].kind {
            Kind::Block => true,
            _ => false,
        };
        let out = if plain {
            proof {
                lemma_view(f.kids[1]);
            }
            let params = self.rewrite(&f.kids[0]);
            let mut body: Vec<Node> = Vec::new();
            self.relist_into(&f.kids[1], 0, f.kids[1].kids.len(), &mut body);
            f.with_kids(kids2(params, f.kids[1].with_kids(body)))
        } else {
            let mut kids: Vec<Node> = Vec::new();
            self.rewrite_into(f, 0, f.kids.len(), &mut kids);
            f.with_kids(kids)
        };
        proof {
            self@.scope.lemma_exit_keeps(old(self)@.scope, ScopeKind::Fn { named });
        }
        self.leave(saved);
        out
    }

    fn rewrite_case(&mut self, n: &Node) -> (out: Node)
        ensures
            (final(self)@, out@) == rewrite_case(old(self)@, n@),
            final(self)@.follows(old(self)@),
        decreases n, 2nat,
    {
        proof {
            lemma_view(*n);
        }
        if n.kids.len() == 0 {
            return self.rewrite_kids(n);
        }
        let saved = self.enter(ScopeKind::Block);
        let test = self.rewrite(&n.kids[0]);
        let mut kids = kids1(test);
        self.relist_into(n, 1, n.kids.len(), &mut kids);
        proof {
            self@.scope.lemma_exit_keeps(old(self)@.scope, ScopeKind::Block);
        }
        self.leave(saved);
        n.with_kids(kids)
    }

    /// Rewrites `n` in a scope of its own.
    fn rewrite_scoped(&mut self, n: &Node, kind: ScopeKind) -> (out: Node)
        ensures
            final(self)@ == rewrite(old(self)@.enter(kind), n@).0.leave(old(self)@),
            out@ == rewrite(old(self)@.enter(kind), n@).1,
            final(self)@.follows(old(self)@),
        decreases n, 4nat,
    {
        let saved = self.enter(kind);
        let out = self.rewrite(n);
        proof {
            self@.scope.lemma_exit_keeps(old(self)@.scope, kind);
        }
        self.leave(saved);
        out
    }

    fn rewrite_if(&mut self, n: &Node) -> (out: Node)
        ensures
            (final(self)@, out@) == rewrite_if(old(self)@, n@),
            final(self)@.follows(old(self)@),
        decreases n, 2nat,
    {
        proof {
            lemma_view(*n);
        }
        if !(n.kids.len() == 2 || n.kids.len() == 3) {
            return self.rewrite_kids(n);
        }
        let test = self.rewrite(&n.kids[0]);
        let cons = self.rewrite_scoped(&n.kids[1], ScopeKind::Cond);
        if n.kids.len() == 3 {
            let alt = self.rewrite_scoped(&n.kids[2], ScopeKind::Cond);
            n.with_kids(kids3(test, cons, alt))
        } else {
            n.with_kids(kids2(test, cons))
        }
    }

    fn rewrite_catch(&mut self, n: &Node) -> (out: Node)
        ensures
            (final(self)@, out@) == rewrite_catch(old(self)@, n@),
            final(self)@.follows(old(self)@),
        decreases n, 2nat,
    {
        proof {
            lemma_view(*n);
        }
        if n.kids.len() != 2 {
            return self.rewrite_kids(n);
        }
        let saved = self.enter(ScopeKind::Block);
        self.pat_mode = PatFoldingMode::CatchParam;
        let param = self.rewrite(&n.kids[0]);
        self.scope.touch_pattern(&n.kids[0], true);
        let body = self.rewrite(&n.kids[1]);
        proof {
            self@.scope.lemma_exit_keeps(old(self)@.scope, ScopeKind::Block);
        }
        self.leave(saved);
        n.with_kids(kids2(param, body))
    }

    fn rewrite_call(&mut self, n: &Node) -> (out: Node)
        ensures
            (final(self)@, out@) == rewrite_call(old(self)@, n@),
            final(self)@.follows(old(self)@),
        decreases n, 2nat,
    {
        proof {
            lemma_view(*n);
        }
        if n.kids.len() == 0 {
            self.scope.store_inline_barrier(Phase::Inlining);
            return n.deep_copy();
        }
        let callee = self.rewrite(&n.kids[0]);
        let mut kids = kids1(callee);
        self.rewrite_into(n, 1, n.kids.len(), &mut kids);
        self.scope.store_inline_barrier(Phase::Inlining);
        n.with_kids(kids)
    }

    fn rewrite_assign(&mut self, n: &Node, op: AssignOp) -> (out: Node)
        ensures
            (final(self)@, out@) == rewrite_assign(old(self)@, n@, op),
            final(self)@.follows(old(self)@),
        decreases n, 2nat,
    {
        proof {
            lemma_view(*n);
        }
        if n.kids.len() != 2 {
            return self.rewrite_kids(n);
        }
        self.pat_mode = PatFoldingMode::Assign;
        let target = if n.kids[0].is_pattern() {
            self.rewrite(&n.kids[0])
        } else {
            self.note_member_target(&n.kids[0], &n.kids[1]);
            n.kids[0].deep_copy()
        };
        let right = self.rewrite(&n.kids[1]);
        match self.first_assignment(op, &n.kids[0], &right) {
            Some(id) => {
                self.scope.assign_value(id, right.deep_copy());
                right
            },
            None => {
                self.note_assign(op, &n.kids[0], &right);
                n.with_kids(kids2(target, right))
            },
        }
    }

    fn rewrite_for_in(&mut self, n: &Node) -> (out: Node)
        ensures
            (final(self)@, out@) == rewrite_for_in(old(self)@, n@),
            final(self)@.follows(old(self)@),
        decreases n, 2nat,
    {
        proof {
            lemma_view(*n);
        }
        if n.kids.len() != 3 {
            return self.rewrite_kids(n);
        }
        self.pat_mode = PatFoldingMode::Param;
        let left = self.rewrite(&n.kids[0]);
        self.scope.mark_written(&n.kids[0]);
        self.scope.mark_written(&n.kids[1]);
        let right = self.rewrite(&n.kids[1]);
        let body = self.rewrite_scoped(&n.kids[2], ScopeKind::Loop);
        n.with_kids(kids3(left, right, body))
    }

    fn rewrite_for(&mut self, n: &Node) -> (out: Node)
        ensures
            (final(self)@, out@) == rewrite_for(old(self)@, n@),
            final(self)@.follows(old(self)@),
        decreases n, 2nat,
    {
        proof {
            lemma_view(*n);
        }
        if n.kids.len() != 4 {
            return self.rewrite_kids(n);
        }
        let init = self.rewrite(&n.kids[0]);
        self.scope.mark_written(&n.kids[0]);
        self.scope.mark_written(&n.kids[1]);
        self.scope.mark_written(&n.kids[2]);
        let test = self.rewrite(&n.kids[1]);
        let update = self.rewrite(&n.kids[2]);
        if has_empty_head(n) {
            self.scope.store_inline_barrier(Phase::Inlining);
        }
        let body = self.rewrite_scoped(&n.kids[3], ScopeKind::Loop);
        let mut kids = kids3(init, test, update);
        proof {
            lemma_views_push(kids@, body);
            assert(seq![init@, test@, update@].push(body@) =~= seq![
                init@,
                test@,
                update@,
                body@,
            ]);
        }
        kids.push(body);
        n.with_kids(kids)
    }

    fn rewrite_while(&mut self, n: &Node) -> (out: Node)
        ensures
            (final(self)@, out@) == rewrite_while(old(self)@, n@),
            final(self)@.follows(old(self)@),
        decreases n, 2nat,
    {
        proof {
            lemma_view(*n);
        }
        if n.kids.len() != 2 {
            return self.rewrite_kids(n);
        }
        self.scope.mark_written(&n.kids[0]);
        let test = self.rewrite(&n.kids[0]);
        let body = self.rewrite_scoped(&n.kids[1], ScopeKind::Loop);
        n.with_kids(kids2(test, body))
    }
}

} // verus!
