//! The first walk: it records what the program does to each binding and
//! leaves the program alone.
//!
//! [`analyze`] says what the walk does to the state of the pass;
//! [`Inlining::analyze`] does it.

use crate::ast::{
    contains_this, lemma_view, AssignOp, BinaryOp, Id, Kind, Node, NodeV, Span, UnaryOp,
    VarDeclKind,
};
use crate::pass::{Inlining, InliningV, PatFoldingMode};
use crate::scope::{Phase, ScopeKind, ScopeV, VarType};
use vstd::prelude::*;

verus! {

/// A reference to `id` is read, unless the first run knows it as a constant
/// to inline.
pub open spec fn analyze_ident(st: InliningV, id: Id) -> InliningV {
    if st.is_first_run && st.scope.find_constant(id) is Some {
        st
    } else {
        st.with_scope(st.scope.add_read(id))
    }
}

/// An identifier in binding position: parameters are declared as holding
/// themselves, the target of an assignment that the innermost scope does not
/// bind is written, the name of a declarator is left to its declarator.
pub open spec fn bind_ident(st: InliningV, id: Id, span: Span) -> InliningV {
    match st.pat_mode {
        PatFoldingMode::Param => st.with_scope(
            st.scope.declare(id, Some(NodeV::ident(id, span)), false, VarType::Param),
        ),
        PatFoldingMode::CatchParam => st.with_scope(
            st.scope.declare(id, Some(NodeV::ident(id, span)), false, VarType::CatchParam),
        ),
        PatFoldingMode::VarDecl => st,
        PatFoldingMode::Assign => if st.scope.find_in_current(id) is None {
            st.with_scope(st.scope.add_write(id, false))
        } else {
            st
        },
    }
}

/// What the analysis records of a declarator that names `id`.
///
/// - Without a value, a `var` or `let` is declared as undefined.
/// - A `const` is entered in the table of constants during the first run,
///   with its value where that is cheap.
/// - A `var` or `let` with a cheap value is declared with it, and marked
///   where the value itself must not be moved.
/// - A `var` or `let` with another value is declared without one, and
///   marked where the value mentions `this`.
pub open spec fn note_declarator(st: InliningV, id: Id, init: Option<NodeV>) -> InliningV {
    let kind = st.var_decl_kind;
    match init {
        None => if kind is Const {
            st
        } else {
            st.with_scope(st.scope.declare(id, None, true, VarType::spec_of(kind)))
        },
        Some(e) => if kind is Const {
            if st.is_first_run {
                st.with_scope(
                    st.scope.insert_constant(
                        id,
                        if e.is_cheap() {
                            Some(e)
                        } else {
                            None
                        },
                    ),
                )
            } else {
                st
            }
        } else if e.is_cheap() {
            let s1 = st.scope.declare(id, Some(e), false, VarType::spec_of(kind));
            st.with_scope(
                if s1.is_inline_prevented(e) {
                    s1.prevent_inline(id)
                } else {
                    s1
                },
            )
        } else {
            let s1 = st.scope.declare(id, None, false, VarType::spec_of(kind));
            st.with_scope(
                if contains_this(e) {
                    s1.prevent_inline(id)
                } else {
                    s1
                },
            )
        },
    }
}

/// What an assignment of `right` to `left` does to the records, once both
/// sides have been walked.
///
/// - A compound assignment writes every identifier on both sides from where
///   no value can be followed.
/// - Where `right` must not be moved, the identifiers that `left` binds are
///   marked.
/// - Else, where `right` is cheap and `left` one identifier, the binding is
///   written and holds `right` from now on.
/// - Else the identifiers that `left` binds are written.
pub open spec fn note_assign(scope: ScopeV, op: AssignOp, left: NodeV, right: NodeV) -> ScopeV {
    let s1 = if op is Assign {
        scope
    } else {
        scope.mark_written(left).mark_written(right)
    };
    if s1.is_inline_prevented(right) {
        s1.touch_target(left, true)
    } else {
        match left.target_id() {
            Some(id) => if right.is_cheap() {
                s1.add_write(id, false).store_value(id, right)
            } else {
                s1.touch_target(left, false)
            },
            None => s1.touch_target(left, false),
        }
    }
}

/// What the target of an assignment does to the records before the value
/// is walked: a member access writes every identifier on both sides from
/// where no value can be followed.
pub open spec fn note_member_target(scope: ScopeV, left: NodeV, right: NodeV) -> ScopeV {
    if left.kind is Member {
        scope.mark_written(left).mark_written(right)
    } else {
        scope
    }
}

/// What a `try` does to the records before its handler is walked: every
/// identifier that the block or the finalizer mentions is written from
/// where no value can be followed. Neither of the two is walked.
pub open spec fn guard(scope: ScopeV, n: NodeV) -> ScopeV
    recommends
        n.kids.len() == 3,
{
    scope.mark_written(n.kids[0]).mark_written(n.kids[2])
}

/// The state of the pass after the analysis of `n`.
///
/// What is not said here of a kind is said of the function that the kind is
/// handed to.
///
/// - A declaration sets the kind of declaration for its declarators.
/// - A function declaration declares its name, without a value and not as
///   undefined, in the scope that it stands in.
/// - The name of a function expression is written from where no value can
///   be followed.
/// - An arrow function is a function scope in which its parameters are
///   declared; a block or a case of a `switch` is a block scope.
/// - Of a member access with a name after the dot the object alone is
///   walked; of `&&` and `||` the left side alone, for the right side may
///   not be reached.
/// - `++`, `--` and `delete` write every identifier of their operand from
///   where no value can be followed, and the operand is not walked.
/// - Of a `try` the handler alone is walked, after the rest is guarded.
/// - Of any other node the children are walked in order, and so are those of
///   a node that has not the children that its kind asks for.
pub open spec fn analyze(st: InliningV, n: NodeV) -> InliningV
    decreases n, 1nat,
{
    let len = n.kids.len();
    match n.kind {
        Kind::Ident(id) => analyze_ident(st, id),
        Kind::BindingIdent(id) => bind_ident(st, id, n.span),
        Kind::VarDecl(kind) => analyze_range(st.with_var_decl_kind(kind), n.kids, 0, len),
        Kind::Declarator => analyze_declarator(st, n),
        Kind::FnDecl(id) => {
            let s1 = st.with_scope(st.scope.declare(id, None, false, VarType::Var));
            if len == 1 && n.kids[0].kind is Function {
                analyze_function(s1, n.kids[0], true)
            } else {
                analyze_range(s1, n.kids, 0, len)
            }
        },
        Kind::Function => analyze_function(st, n, false),
        Kind::FnExpr(name) => analyze_range(
            match name {
                Some(id) => st.with_scope(st.scope.add_write(id, true)),
                None => st,
            },
            n.kids,
            0,
            len,
        ),
        Kind::Arrow => analyze_range(
            st.enter(ScopeKind::Fn { named: false }).with_pat_mode(PatFoldingMode::Param),
            n.kids,
            0,
            len,
        ).leave(st),
        Kind::Block => analyze_range(st.enter(ScopeKind::Block), n.kids, 0, len).leave(st),
        Kind::Case => analyze_range(st.enter(ScopeKind::Block), n.kids, 0, len).leave(st),
        Kind::If => analyze_if(st, n),
        Kind::Catch => analyze_catch(st, n),
        Kind::Call => analyze_call(st, n),
        Kind::New => analyze_call(st, n),
        Kind::Assign(op) => analyze_assign(st, n, op),
        Kind::Member { computed } => if len == 2 && !computed {
            analyze(st, n.kids[0])
        } else {
            analyze_range(st, n.kids, 0, len)
        },
        Kind::Update { .. } => st.with_scope(st.scope.mark_written(n)),
        Kind::Unary(op) => if op is Delete {
            st.with_scope(st.scope.mark_written(n))
        } else {
            analyze_range(st, n.kids, 0, len)
        },
        Kind::ForIn => analyze_for_in(st, n),
        Kind::ForOf => analyze_for_in(st, n),
        Kind::For => analyze_for(st, n),
        Kind::While => analyze_while(st, n),
        Kind::DoWhile => analyze_while(st, n),
        Kind::Bin(op) => if len == 2 && (op is LogicalAnd || op is LogicalOr) {
            analyze(st, n.kids[0])
        } else {
            analyze_range(st, n.kids, 0, len)
        },
        Kind::Try => if len == 3 {
            analyze(st.with_scope(guard(st.scope, n)), n.kids[1])
        } else {
            analyze_range(st, n.kids, 0, len)
        },
        _ => analyze_range(st, n.kids, 0, len),
    }
}

/// The state after the analysis of the nodes `lo..hi` of `s`, in order.
pub open spec fn analyze_range(st: InliningV, s: Seq<NodeV>, lo: nat, hi: nat) -> InliningV
    decreases s, hi,
{
    if hi <= lo || hi > s.len() {
        st
    } else {
        analyze(analyze_range(st, s, lo, (hi - 1) as nat), s[hi - 1])
    }
}

/// A declarator: the value is walked, then the name is recorded under the
/// kind of the declaration that the declarator stands in.
pub open spec fn analyze_declarator(st: InliningV, n: NodeV) -> InliningV
    decreases n, 0nat,
{
    if n.kids.len() == 1 || n.kids.len() == 2 {
        let name = n.kids[0];
        let s1 = if n.kids.len() == 2 {
            analyze(st, n.kids[1])
        } else {
            st
        }.with_pat_mode(PatFoldingMode::VarDecl).with_var_decl_kind(st.var_decl_kind);
        match name.kind {
            Kind::BindingIdent(id) => note_declarator(
                s1,
                id,
                if n.kids.len() == 2 {
                    Some(n.kids[1])
                } else {
                    None
                },
            ),
            _ => analyze(s1, name),
        }
    } else {
        analyze_range(st, n.kids, 0, n.kids.len())
    }
}

/// A function: parameters and body share one scope.
pub open spec fn analyze_function(st: InliningV, f: NodeV, named: bool) -> InliningV
    decreases f, 0nat,
{
    let inner = st.enter(ScopeKind::Fn { named }).with_pat_mode(PatFoldingMode::Param);
    if f.kids.len() == 2 && f.kids[1].kind is Block {
        analyze_range(analyze(inner, f.kids[0]), f.kids[1].kids, 0, f.kids[1].kids.len()).leave(
            st,
        )
    } else {
        analyze_range(inner, f.kids, 0, f.kids.len()).leave(st)
    }
}

/// An `if`: each branch is a scope of its own.
pub open spec fn analyze_if(st: InliningV, n: NodeV) -> InliningV
    decreases n, 0nat,
{
    if n.kids.len() == 2 || n.kids.len() == 3 {
        let s1 = analyze(st, n.kids[0]);
        let s2 = analyze(s1.enter(ScopeKind::Cond), n.kids[1]).leave(s1);
        if n.kids.len() == 3 {
            analyze(s2.enter(ScopeKind::Cond), n.kids[2]).leave(s2)
        } else {
            s2
        }
    } else {
        analyze_range(st, n.kids, 0, n.kids.len())
    }
}

/// A `catch` clause: what the parameter binds is declared and marked at
/// once, for nothing is known of what was thrown.
pub open spec fn analyze_catch(st: InliningV, n: NodeV) -> InliningV
    decreases n, 0nat,
{
    if n.kids.len() == 2 {
        let c0 = st.enter(ScopeKind::Block).with_pat_mode(PatFoldingMode::CatchParam);
        let c1 = analyze(c0, n.kids[0]);
        let c2 = c1.with_scope(c1.scope.touch_pattern(n.kids[0], true));
        analyze(c2, n.kids[1]).leave(st)
    } else {
        analyze_range(st, n.kids, 0, n.kids.len())
    }
}

/// A call or a construction: the callee is marked as called, and after the
/// arguments control passes a barrier.
pub open spec fn analyze_call(st: InliningV, n: NodeV) -> InliningV
    decreases n, 0nat,
{
    if n.kids.len() == 0 {
        st.with_scope(st.scope.store_inline_barrier(Phase::Analysis))
    } else {
        let s1 = analyze(st, n.kids[0]);
        let s2 = s1.with_scope(s1.scope.mark_this_sensitive(n.kids[0]));
        let s3 = analyze_range(s2, n.kids, 1, n.kids.len());
        s3.with_scope(s3.scope.store_inline_barrier(Phase::Analysis))
    }
}

/// An assignment: a target that is a pattern is walked, one that is an
/// expression is not; then the value is walked and the assignment recorded.
pub open spec fn analyze_assign(st: InliningV, n: NodeV, op: AssignOp) -> InliningV
    decreases n, 0nat,
{
    if n.kids.len() == 2 {
        let left = n.kids[0];
        let right = n.kids[1];
        let s0 = st.with_pat_mode(PatFoldingMode::Assign);
        let s1 = if left.is_pattern() {
            analyze(s0, left)
        } else {
            s0.with_scope(note_member_target(s0.scope, left, right))
        };
        let s2 = analyze(s1, right);
        s2.with_scope(note_assign(s2.scope, op, left, right))
    } else {
        analyze_range(st, n.kids, 0, n.kids.len())
    }
}

/// A `for`-`in` or `for`-`of` loop: both heads are written from where no
/// value can be followed; the body is a loop scope.
pub open spec fn analyze_for_in(st: InliningV, n: NodeV) -> InliningV
    decreases n, 0nat,
{
    if n.kids.len() == 3 {
        let s1 = analyze(st.with_pat_mode(PatFoldingMode::Param), n.kids[0]);
        let s2 = s1.with_scope(s1.scope.mark_written(n.kids[0]).mark_written(n.kids[1]));
        let s3 = analyze(s2, n.kids[1]);
        analyze(s3.enter(ScopeKind::Loop), n.kids[2]).leave(s3)
    } else {
        analyze_range(st, n.kids, 0, n.kids.len())
    }
}

/// Whether a `for` loop has nothing in its head.
pub open spec fn empty_head(n: NodeV) -> bool
    recommends
        n.kids.len() == 4,
{
    n.kids[0].kind is Empty && n.kids[1].kind is Empty && n.kids[2].kind is Empty
}

/// A `for` loop: the three heads are written from where no value can be
/// followed; a loop with nothing in its head is a barrier before its body;
/// the body is a loop scope.
pub open spec fn analyze_for(st: InliningV, n: NodeV) -> InliningV
    decreases n, 0nat,
{
    if n.kids.len() == 4 {
        let s1 = analyze(st, n.kids[0]);
        let s2 = s1.with_scope(
            s1.scope.mark_written(n.kids[0]).mark_written(n.kids[1]).mark_written(n.kids[2]),
        );
        let s3 = analyze(s2, n.kids[1]);
        let s4 = analyze(s3, n.kids[2]);
        let s5 = if empty_head(n) {
            s4.with_scope(s4.scope.store_inline_barrier(Phase::Analysis))
        } else {
            s4
        };
        analyze(s5.enter(ScopeKind::Loop), n.kids[3]).leave(s5)
    } else {
        analyze_range(st, n.kids, 0, n.kids.len())
    }
}

/// A `while` or `do` loop: the test is written from where no value can be
/// followed; the body is a loop scope.
pub open spec fn analyze_while(st: InliningV, n: NodeV) -> InliningV
    decreases n, 0nat,
{
    if n.kids.len() == 2 {
        let s1 = analyze(st.with_scope(st.scope.mark_written(n.kids[0])), n.kids[0]);
        analyze(s1.enter(ScopeKind::Loop), n.kids[1]).leave(s1)
    } else {
        analyze_range(st, n.kids, 0, n.kids.len())
    }
}

impl Inlining {
    pub(crate) fn analyze_ident(&mut self, id: Id)
        ensures
            final(self)@ == analyze_ident(old(self)@, id),
            final(self)@.follows(old(self)@),
    {
        if self.is_first_run && self.scope.inlines_constant(id) {
            return ;
        }
        self.scope.add_read(id);
    }

    pub(crate) fn bind_ident(&mut self, id: Id, span: Span)
        ensures
            final(self)@ == bind_ident(old(self)@, id, span),
            final(self)@.follows(old(self)@),
    {
        match self.pat_mode {
            PatFoldingMode::Param => {
                let value = Node::leaf(Kind::Ident(id), span);
                self.scope.declare(id, Some(value), false, VarType::Param);
            },
            PatFoldingMode::CatchParam => {
                let value = Node::leaf(Kind::Ident(id), span);
                self.scope.declare(id, Some(value), false, VarType::CatchParam);
            },
            PatFoldingMode::VarDecl => {},
            PatFoldingMode::Assign => {
                if self.scope.find_binding_from_current(id).is_none() {
                    self.scope.add_write(id, false);
                }
            },
        }
    }

    fn note_declarator(&mut self, id: Id, init: Option<&Node>)
        ensures
            final(self)@ == note_declarator(
                old(self)@,
                id,
                match init {
                    Some(e) => Some(e@),
                    None => None,
                },
            ),
            final(self)@.follows(old(self)@),
    {
        let kind = self.var_decl_kind;
        let is_const = match kind {
            VarDeclKind::Const => true,
            _ => false,
        };
        match init {
            None => {
                if !is_const {
                    self.scope.declare(id, None, true, VarType::of(kind));
                }
            },
            Some(e) => {
                if is_const {
                    if self.is_first_run {
                        let value = if e.is_cheap() {
                            Some(e.deep_copy())
                        } else {
                            None
                        };
                        self.scope.insert_constant(id, value);
                    }
                } else if e.is_cheap() {
                    self.scope.declare(id, Some(e.deep_copy()), false, VarType::of(kind));
                    if self.scope.is_inline_prevented(e) {
                        self.scope.prevent_inline(id);
                    }
                } else {
                    self.scope.declare(id, None, false, VarType::of(kind));
                    if e.contains_this() {
                        self.scope.prevent_inline(id);
                    }
                }
            },
        }
    }

    pub(crate) fn note_assign(&mut self, op: AssignOp, left: &Node, right: &Node)
        ensures
            final(self)@ == old(self)@.with_scope(
                note_assign(old(self)@.scope, op, left@, right@),
            ),
            final(self)@.follows(old(self)@),
    {
        match op {
            AssignOp::Assign => {},
            _ => {
                self.scope.mark_written(left);
                self.scope.mark_written(right);
            },
        }
        if self.scope.is_inline_prevented(right) {
            self.scope.touch_target(left, true);
        } else {
            match left.target_id() {
                Some(id) => {
                    if right.is_cheap() {
                        self.scope.add_write(id, false);
                        self.scope.store_value(id, right.deep_copy());
                    } else {
                        self.scope.touch_target(left, false);
                    }
                },
                None => {
                    self.scope.touch_target(left, false);
                },
            }
        }
    }

    pub(crate) fn note_member_target(&mut self, left: &Node, right: &Node)
        ensures
            final(self)@ == old(self)@.with_scope(
                note_member_target(old(self)@.scope, left@, right@),
            ),
            final(self)@.follows(old(self)@),
    {
        match left.kind {
            Kind::Member { .. } => {
                self.scope.mark_written(left);
                self.scope.mark_written(right);
            },
            _ => {},
        }
    }

    pub(crate) fn guard(&mut self, n: &Node)
        requires
            n.kids.len() == 3,
        ensures
            final(self)@ == old(self)@.with_scope(guard(old(self)@.scope, n@)),
            final(self)@.follows(old(self)@),
    {
        proof {
            lemma_view(*n);
        }
        self.scope.mark_written(&n.kids[0]);
        self.scope.mark_written(&n.kids[2]);
    }

    /// Analyses `n`: records in the state of the pass what `n` does to
    /// each binding.
    pub fn analyze(&mut self, n: &Node)
        ensures
            final(self)@ == analyze(old(self)@, n@),
            final(self)@.follows(old(self)@),
        decreases n, 2nat,
    {
        proof {
            lemma_view(*n);
        }
        let len = n.kids.len();
        match n.kind {
            Kind::Ident(id) => self.analyze_ident(id),
            Kind::BindingIdent(id) => self.bind_ident(id, n.span),
            Kind::VarDecl(kind) => {
                self.var_decl_kind = kind;
                self.analyze_range(n, 0, len);
            },
            Kind::Declarator => self.analyze_declarator(n),
            Kind::FnDecl(id) => {
                self.scope.declare(id, None, false, VarType::Var);
                let plain = len == 1 && match n.kids[0].kind {
                    Kind::Function => true,
                    _ => false,
                };
                if plain {
                    self.analyze_function(&n.kids[0], true);
                } else {
                    self.analyze_range(n, 0, len);
                }
            },
            Kind::Function => self.analyze_function(n, false),
            Kind::FnExpr(name) => {
                match name {
                    Some(id) => self.scope.add_write(id, true),
                    None => {},
                }
                self.analyze_range(n, 0, len);
            },
            Kind::Arrow => {
                let saved = self.enter(ScopeKind::Fn { named: false });
                self.pat_mode = PatFoldingMode::Param;
                self.analyze_range(n, 0, len);
                proof {
                    self@.scope.lemma_exit_keeps(
                        old(self)@.scope,
                        ScopeKind::Fn { named: false },
                    );
                }
                self.leave(saved);
            },
            Kind::Block => self.analyze_in_block(n),
            Kind::Case => self.analyze_in_block(n),
            Kind::If => self.analyze_if(n),
            Kind::Catch => self.analyze_catch(n),
            Kind::Call => self.analyze_call(n),
            Kind::New => self.analyze_call(n),
            Kind::Assign(op) => self.analyze_assign(n, op),
            Kind::Member { computed } => {
                if len == 2 && !computed {
                    self.analyze(&n.kids[0]);
                } else {
                    self.analyze_range(n, 0, len);
                }
            },
            Kind::Update { .. } => self.scope.mark_written(n),
            Kind::Unary(UnaryOp::Delete) => self.scope.mark_written(n),
            Kind::ForIn => self.analyze_for_in(n),
            Kind::ForOf => self.analyze_for_in(n),
            Kind::For => self.analyze_for(n),
            Kind::While => self.analyze_while(n),
            Kind::DoWhile => self.analyze_while(n),
            Kind::Bin(op) => {
                let lazy = match op {
                    BinaryOp::LogicalAnd => true,
                    BinaryOp::LogicalOr => true,
                    _ => false,
                };
                if len == 2 && lazy {
                    self.analyze(&n.kids[0]);
                } else {
                    self.analyze_range(n, 0, len);
                }
            },
            Kind::Try => {
                if len == 3 {
                    self.guard(n);
                    self.analyze(&n.kids[1]);
                } else {
                    self.analyze_range(n, 0, len);
                }
            },
            _ => self.analyze_range(n, 0, len),
        }
    }

    /// Analyses the children `lo..hi` of `n`, in order.
    pub(crate) fn analyze_range(&mut self, n: &Node, lo: usize, hi: usize)
        requires
            hi <= n.kids.len(),
        ensures
            final(self)@ == analyze_range(old(self)@, n@.kids, lo as nat, hi as nat),
            final(self)@.follows(old(self)@),
        decreases n, 0nat,
    {
        proof {
            lemma_view(*n);
        }
        if lo >= hi {
            return ;
        }
        let mut i: usize = lo;
        while i < hi
            invariant
                lo <= i <= hi <= n.kids.len(),
                n@.kids.len() == n.kids.len(),
                forall|k: int| 0 <= k < n.kids.len() ==> #[trigger] n@.kids[k] == n.kids[k]@,
                self@ == analyze_range(old(self)@, n@.kids, lo as nat, i as nat),
                self@.follows(old(self)@),
            decreases hi - i,
        {
            self.analyze(&n.kids[i]);
            i = i + 1;
        }
    }

    fn analyze_in_block(&mut self, n: &Node)
        ensures
            final(self)@ == analyze_range(
                old(self)@.enter(ScopeKind::Block),
                n@.kids,
                0,
                n@.kids.len(),
            ).leave(old(self)@),
            final(self)@.follows(old(self)@),
        decreases n, 1nat,
    {
        proof {
            lemma_view(*n);
        }
        let saved = self.enter(ScopeKind::Block);
        self.analyze_range(n, 0, n.kids.len());
        proof {
            self@.scope.lemma_exit_keeps(old(self)@.scope, ScopeKind::Block);
        }
        self.leave(saved);
    }

    fn analyze_declarator(&mut self, n: &Node)
        ensures
            final(self)@ == analyze_declarator(old(self)@, n@),
            final(self)@.follows(old(self)@),
        decreases n, 1nat,
    {
        proof {
            lemma_view(*n);
        }
        if !(n.kids.len() == 1 || n.kids.len() == 2) {
            self.analyze_range(n, 0, n.kids.len());
            return ;
        }
        let has_init = n.kids.len() == 2;
        let kind = self.var_decl_kind;
        if has_init {
            self.analyze(&n.kids[1]);
        }
        self.pat_mode = PatFoldingMode::VarDecl;
        self.var_decl_kind = kind;
        match n.kids[0].kind {
            Kind::BindingIdent(id) => {
                if has_init {
                    self.note_declarator(id, Some(&n.kids[1]));
                } else {
                    self.note_declarator(id, None);
                }
            },
            _ => self.analyze(&n.kids[0]),
        }
    }

    fn analyze_function(&mut self, f: &Node, named: bool)
        ensures
            final(self)@ == analyze_function(old(self)@, f@, named),
            final(self)@.follows(old(self)@),
        decreases f, 1nat,
    {
        proof {
            lemma_view(*f);
        }
        let saved = self.enter(ScopeKind::Fn { named });
        self.pat_mode = PatFoldingMode::Param;
        let plain = f.kids.len() == 2 && match f.kids[1].kind {
            Kind::Block => true,
            _ => false,
        };
        if plain {
            proof {
                lemma_view(f.kids[1]);
            }
            self.analyze(&f.kids[0]);
            self.analyze_range(&f.kids[1], 0, f.kids[1].kids.len());
        } else {
            self.analyze_range(f, 0, f.kids.len());
        }
        proof {
            self@.scope.lemma_exit_keeps(old(self)@.scope, ScopeKind::Fn { named });
        }
        self.leave(saved);
    }

    /// Analyses `n` in a scope of its own.
    fn analyze_scoped(&mut self, n: &Node, kind: ScopeKind)
        ensures
            final(self)@ == analyze(old(self)@.enter(kind), n@).leave(old(self)@),
            final(self)@.follows(old(self)@),
        decreases n, 3nat,
    {
        let saved = self.enter(kind);
        self.analyze(n);
        proof {
            self@.scope.lemma_exit_keeps(old(self)@.scope, kind);
        }
        self.leave(saved);
    }

    fn analyze_if(&mut self, n: &Node)
        ensures
            final(self)@ == analyze_if(old(self)@, n@),
            final(self)@.follows(old(self)@),
        decreases n, 1nat,
    {
        proof {
            lemma_view(*n);
        }
        if !(n.kids.len() == 2 || n.kids.len() == 3) {
            self.analyze_range(n, 0, n.kids.len());
            return ;
        }
        self.analyze(&n.kids[0]);
        self.analyze_scoped(&n.kids[1], ScopeKind::Cond);
        if n.kids.len() == 3 {
            self.analyze_scoped(&n.kids[2], ScopeKind::Cond);
        }
    }

    fn analyze_catch(&mut self, n: &Node)
        ensures
            final(self)@ == analyze_catch(old(self)@, n@),
            final(self)@.follows(old(self)@),
        decreases n, 1nat,
    {
        proof {
            lemma_view(*n);
        }
        if !(n.kids.len() == 2) {
            self.analyze_range(n, 0, n.kids.len());
            return ;
        }
        let saved = self.enter(ScopeKind::Block);
        self.pat_mode = PatFoldingMode::CatchParam;
        self.analyze(&n.kids[0]);
        self.scope.touch_pattern(&n.kids[0], true);
        self.analyze(&n.kids[1]);
        proof {
            self@.scope.lemma_exit_keeps(old(self)@.scope, ScopeKind::Block);
        }
        self.leave(saved);
    }

    fn analyze_call(&mut self, n: &Node)
        ensures
            final(self)@ == analyze_call(old(self)@, n@),
            final(self)@.follows(old(self)@),
        decreases n, 1nat,
    {
        proof {
            lemma_view(*n);
        }
        if n.kids.len() > 0 {
            self.analyze(&n.kids[0]);
            self.scope.mark_this_sensitive(&n.kids[0]);
            self.analyze_range(n, 1, n.kids.len());
        }
        self.scope.store_inline_barrier(Phase::Analysis);
    }

    fn analyze_assign(&mut self, n: &Node, op: AssignOp)
        ensures
            final(self)@ == analyze_assign(old(self)@, n@, op),
            final(self)@.follows(old(self)@),
        decreases n, 1nat,
    {
        proof {
            lemma_view(*n);
        }
        if !(n.kids.len() == 2) {
            self.analyze_range(n, 0, n.kids.len());
            return ;
        }
        self.pat_mode = PatFoldingMode::Assign;
        if n.kids[0].is_pattern() {
            self.analyze(&n.kids[0]);
        } else {
            self.note_member_target(&n.kids[0], &n.kids[1]);
        }
        self.analyze(&n.kids[1]);
        self.note_assign(op, &n.kids[0], &n.kids[1]);
    }

    fn analyze_for_in(&mut self, n: &Node)
        ensures
            final(self)@ == analyze_for_in(old(self)@, n@),
            final(self)@.follows(old(self)@),
        decreases n, 1nat,
    {
        proof {
            lemma_view(*n);
        }
        if !(n.kids.len() == 3) {
            self.analyze_range(n, 0, n.kids.len());
            return ;
        }
        self.pat_mode = PatFoldingMode::Param;
        self.analyze(&n.kids[0]);
        self.scope.mark_written(&n.kids[0]);
        self.scope.mark_written(&n.kids[1]);
        self.analyze(&n.kids[1]);
        self.analyze_scoped(&n.kids[2], ScopeKind::Loop);
    }

    fn analyze_for(&mut self, n: &Node)
        ensures
            final(self)@ == analyze_for(old(self)@, n@),
            final(self)@.follows(old(self)@),
        decreases n, 1nat,
    {
        proof {
            lemma_view(*n);
        }
        if !(n.kids.len() == 4) {
            self.analyze_range(n, 0, n.kids.len());
            return ;
        }
        self.analyze(&n.kids[0]);
        self.scope.mark_written(&n.kids[0]);
        self.scope.mark_written(&n.kids[1]);
        self.scope.mark_written(&n.kids[2]);
        self.analyze(&n.kids[1]);
        self.analyze(&n.kids[2]);
        if has_empty_head(n) {
            self.scope.store_inline_barrier(Phase::Analysis);
        }
        self.analyze_scoped(&n.kids[3], ScopeKind::Loop);
    }

    fn analyze_while(&mut self, n: &Node)
        ensures
            final(self)@ == analyze_while(old(self)@, n@),
            final(self)@.follows(old(self)@),
        decreases n, 1nat,
    {
        proof {
            lemma_view(*n);
        }
        if !(n.kids.len() == 2) {
            self.analyze_range(n, 0, n.kids.len());
            return ;
        }
        self.scope.mark_written(&n.kids[0]);
        self.analyze(&n.kids[0]);
        self.analyze_scoped(&n.kids[1], ScopeKind::Loop);
    }
}

/// Whether a `for` loop has nothing in its head.
pub(crate) fn has_empty_head(n: &Node) -> (r: bool)
    requires
        n.kids.len() == 4,
    ensures
        r == empty_head(n@),
{
    proof {
        lemma_view(*n);
    }
    let a = match n.kids[0].kind {
        Kind::Empty => true,
        _ => false,
    };
    let b = match n.kids[1].kind {
        Kind::Empty => true,
        _ => false,
    };
    let c = match n.kids[2].kind {
        Kind::Empty => true,
        _ => false,
    };
    a && b && c
}

} // verus!
