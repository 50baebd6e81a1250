//! Lexical scopes and the record kept for each binding.
//!
//! A [`Scope`] is the whole chain of scopes from the module down to the place
//! where the walk stands. Its value, [`ScopeV`], lists the bindings in the
//! order in which they were declared, so the bindings of an inner scope come
//! after those of the scopes around it, and one [`Frame`] per open scope says
//! where that scope's bindings begin. The binding that an identifier denotes
//! is the last one in the list with its [`Id`].
//!
//! Beside the chain stands the table of constants, which is not scoped:
//! resolved identifiers are unique across the program.

use crate::ast::{contains_this, opt_view, Id, Kind, Node, NodeV, UnaryOp, VarDeclKind};
use crate::ast::lemma_view;
use vstd::prelude::*;

verus! {

/// How a binding came to be.
#[derive(Clone, Copy, Debug, PartialEq, Eq, Structural)]
pub enum VarType {
    Var,
    Let,
    Const,
    Param,
    CatchParam,
}

impl VarType {
    pub open spec fn spec_of(kind: VarDeclKind) -> VarType {
        match kind {
            VarDeclKind::Var => VarType::Var,
            VarDeclKind::Let => VarType::Let,
            VarDeclKind::Const => VarType::Const,
        }
    }

    /// The binding kind that a declaration of the given kind makes.
    #[verifier::when_used_as_spec(spec_of)]
    pub fn of(kind: VarDeclKind) -> (r: VarType)
        ensures
            r == VarType::spec_of(kind),
    {
        match kind {
            VarDeclKind::Var => VarType::Var,
            VarDeclKind::Let => VarType::Let,
            VarDeclKind::Const => VarType::Const,
        }
    }
}

/// What opened a scope.
#[derive(Clone, Copy, Debug, PartialEq, Eq, Structural)]
pub enum ScopeKind {
    Module,
    Fn { named: bool },
    Block,
    /// A branch of an `if`.
    Cond,
    /// The body of a loop.
    Loop,
}

/// Which of the two walks is under way.
#[derive(Clone, Copy, Debug, PartialEq, Eq, Structural)]
pub enum Phase {
    Analysis,
    Inlining,
}

/// The record of one binding.
#[derive(Debug)]
pub struct VarInfo {
    pub id: Id,
    pub kind: VarType,
    /// The expression that the binding is known to hold, if any.
    pub value: Option<Node>,
    /// Reads seen by the analysis; it stops counting at `u64::MAX`.
    pub read_count: u64,
    /// Writes seen after the declaration; it stops counting at `u64::MAX`.
    pub write_count: u64,
    /// The binding was declared without a value and nothing was assigned
    /// since.
    pub is_undefined: bool,
    /// No read of the binding may be replaced. Never cleared.
    pub inline_prevented: bool,
    /// The binding was called, so replacing it by a member access would give
    /// the callee another `this`.
    pub this_sensitive: bool,
    /// The analysis has passed a barrier since the binding was declared.
    pub past_barrier: bool,
}

/// The mathematical value of a [`VarInfo`].
#[verifier::ext_equal]
pub struct VarInfoV {
    pub id: Id,
    pub kind: VarType,
    pub value: Option<NodeV>,
    pub read_count: u64,
    pub write_count: u64,
    pub is_undefined: bool,
    pub inline_prevented: bool,
    pub this_sensitive: bool,
    pub past_barrier: bool,
}

impl View for VarInfo {
    type V = VarInfoV;

    open spec fn view(&self) -> VarInfoV {
        VarInfoV {
            id: self.id,
            kind: self.kind,
            value: opt_view(self.value),
            read_count: self.read_count,
            write_count: self.write_count,
            is_undefined: self.is_undefined,
            inline_prevented: self.inline_prevented,
            this_sensitive: self.this_sensitive,
            past_barrier: self.past_barrier,
        }
    }
}

impl VarInfoV {
    /// A binding that was just declared.
    pub open spec fn fresh(id: Id, value: Option<NodeV>, is_undefined: bool, kind: VarType)
        -> VarInfoV {
        VarInfoV {
            id,
            kind,
            value,
            read_count: 0,
            write_count: 0,
            is_undefined,
            inline_prevented: false,
            this_sensitive: false,
            past_barrier: false,
        }
    }

    /// Whether reads of the binding must be left alone: it is marked so, or
    /// it was called and holds a member access.
    pub open spec fn is_inline_prevented(self) -> bool {
        self.inline_prevented || (self.this_sensitive && match self.value {
            Some(v) => v.kind is Member,
            None => false,
        })
    }
}

impl VarInfo {
    pub fn is_inline_prevented(&self) -> (r: bool)
        ensures
            r == self@.is_inline_prevented(),
    {
        if self.inline_prevented {
            return true;
        }
        if self.this_sensitive {
            match &self.value {
                Some(v) => match v.kind {
                    Kind::Member { .. } => true,
                    _ => false,
                },
                None => false,
            }
        } else {
            false
        }
    }
}

/// One open scope: what opened it and where its bindings begin.
#[derive(Clone, Copy, Debug, PartialEq, Eq, Structural)]
pub struct Frame {
    pub kind: ScopeKind,
    pub start: usize,
}

/// The mathematical value of a [`Frame`].
pub struct FrameV {
    pub kind: ScopeKind,
    pub start: nat,
}

impl View for Frame {
    type V = FrameV;

    open spec fn view(&self) -> FrameV {
        FrameV { kind: self.kind, start: self.start as nat }
    }
}

/// An entry of the table of constants: the value is absent where the
/// constant is known but cannot be inlined.
#[derive(Debug)]
pub struct Constant {
    pub id: Id,
    pub value: Option<Node>,
}

#[verifier::ext_equal]
pub struct ConstantV {
    pub id: Id,
    pub value: Option<NodeV>,
}

impl View for Constant {
    type V = ConstantV;

    open spec fn view(&self) -> ConstantV {
        ConstantV { id: self.id, value: opt_view(self.value) }
    }
}

pub open spec fn var_views(s: Seq<VarInfo>) -> Seq<VarInfoV> {
    Seq::new(s.len(), |i: int| s[i]@)
}

pub open spec fn frame_views(s: Seq<Frame>) -> Seq<FrameV> {
    Seq::new(s.len(), |i: int| s[i]@)
}

pub open spec fn constant_views(s: Seq<Constant>) -> Seq<ConstantV> {
    Seq::new(s.len(), |i: int| s[i]@)
}

/// A counter one step on, unless it stands at its limit.
pub open spec fn bump(c: u64) -> u64 {
    if c < u64::MAX {
        (c + 1) as u64
    } else {
        c
    }
}

fn bumped(c: u64) -> (r: u64)
    ensures
        r == bump(c),
{
    if c < u64::MAX {
        c + 1
    } else {
        c
    }
}

/// The mathematical value of a [`Scope`].
#[verifier::ext_equal]
pub struct ScopeV {
    /// The bindings of all open scopes, outermost scope first.
    pub vars: Seq<VarInfoV>,
    /// The scopes that are open inside the module scope, outermost first.
    pub frames: Seq<FrameV>,
    pub constants: Seq<ConstantV>,
}

impl ScopeV {
    /// The module scope alone, with nothing declared.
    pub open spec fn new() -> ScopeV {
        ScopeV { vars: Seq::empty(), frames: Seq::empty(), constants: Seq::empty() }
    }

    /// The module scope alone, with nothing declared; the constants stay.
    pub open spec fn restart(self) -> ScopeV {
        ScopeV { vars: Seq::empty(), frames: Seq::empty(), constants: self.constants }
    }

    /// Whether `self` can come after `before` in one walk: the same scopes
    /// are open, every binding that `before` has is still there under its
    /// identifier, and none that was marked as not to be inlined has lost
    /// the mark.
    pub open spec fn keeps(self, before: ScopeV) -> bool {
        &&& self.frames == before.frames
        &&& before.vars.len() <= self.vars.len()
        &&& forall|j: int|
            0 <= j < before.vars.len() ==> (#[trigger] self.vars[j]).id == before.vars[j].id
                && (before.vars[j].inline_prevented ==> self.vars[j].inline_prevented)
    }

    /// Where the bindings of the innermost scope begin.
    pub open spec fn top_start(self) -> int {
        if self.frames.len() == 0 {
            0
        } else {
            self.frames.last().start as int
        }
    }

    /// The last binding of `id` among the first `n`.
    pub open spec fn find_below(self, id: Id, n: int) -> Option<int>
        decreases n,
    {
        if n <= 0 || n > self.vars.len() {
            None
        } else if self.vars[n - 1].id == id {
            Some(n - 1)
        } else {
            self.find_below(id, n - 1)
        }
    }

    /// The innermost binding of `id` that is visible.
    pub open spec fn find(self, id: Id) -> Option<int> {
        self.find_below(id, self.vars.len() as int)
    }

    /// The binding of `id` in the innermost scope.
    pub open spec fn find_in_current(self, id: Id) -> Option<int> {
        match self.find(id) {
            Some(j) => if j >= self.top_start() {
                Some(j)
            } else {
                None
            },
            None => None,
        }
    }

    /// The record of the innermost visible binding of `id`.
    pub open spec fn binding(self, id: Id) -> Option<VarInfoV> {
        match self.find(id) {
            Some(j) => Some(self.vars[j]),
            None => None,
        }
    }

    pub open spec fn binding_in_current(self, id: Id) -> Option<VarInfoV> {
        match self.find_in_current(id) {
            Some(j) => Some(self.vars[j]),
            None => None,
        }
    }

    pub open spec fn set_var(self, j: int, v: VarInfoV) -> ScopeV {
        ScopeV { vars: self.vars.update(j, v), ..self }
    }

    /// A new innermost scope.
    pub open spec fn enter(self, kind: ScopeKind) -> ScopeV {
        ScopeV {
            frames: self.frames.push(FrameV { kind, start: self.vars.len() }),
            ..self
        }
    }

    /// The innermost scope is closed and its bindings are gone. The module
    /// scope stays.
    pub open spec fn exit(self) -> ScopeV {
        if self.frames.len() == 0 {
            self
        } else {
            ScopeV {
                vars: if self.top_start() <= self.vars.len() {
                    self.vars.take(self.top_start())
                } else {
                    self.vars
                },
                frames: self.frames.drop_last(),
                ..self
            }
        }
    }

    /// A binding is declared in the innermost scope. Where the scope has one
    /// already, that one takes the new value and counts a write.
    pub open spec fn declare(
        self,
        id: Id,
        value: Option<NodeV>,
        is_undefined: bool,
        kind: VarType,
    ) -> ScopeV {
        match self.find_in_current(id) {
            Some(j) => self.set_var(
                j,
                VarInfoV {
                    value,
                    is_undefined,
                    write_count: bump(self.vars[j].write_count),
                    ..self.vars[j]
                },
            ),
            None => ScopeV {
                vars: self.vars.push(VarInfoV::fresh(id, value, is_undefined, kind)),
                ..self
            },
        }
    }

    /// A read of `id` is counted, and a binding that is read when the
    /// analysis has passed a barrier since its declaration is marked. A free
    /// variable leaves no trace.
    pub open spec fn add_read(self, id: Id) -> ScopeV {
        match self.find(id) {
            Some(j) => self.set_var(
                j,
                VarInfoV {
                    read_count: bump(self.vars[j].read_count),
                    inline_prevented: self.vars[j].inline_prevented
                        || self.vars[j].past_barrier,
                    ..self.vars[j]
                },
            ),
            None => self,
        }
    }

    /// Whether one of the first `n` open scopes is a loop body.
    pub open spec fn loop_below(self, n: int) -> bool
        decreases n,
    {
        if n <= 0 || n > self.frames.len() {
            false
        } else {
            self.frames[n - 1].kind is Loop || self.loop_below(n - 1)
        }
    }

    /// Whether the walk stands inside a loop body.
    pub open spec fn in_loop(self) -> bool {
        self.loop_below(self.frames.len() as int)
    }

    /// Whether one of the first `n` open scopes was opened after binding `j`
    /// was declared and is a function, a branch or a loop body.
    pub open spec fn crossed_below(self, j: int, n: int) -> bool
        decreases n,
    {
        if n <= 0 || n > self.frames.len() {
            false
        } else {
            (self.frames[n - 1].start > j && !(self.frames[n - 1].kind is Block)
                && !(self.frames[n - 1].kind is Module)) || self.crossed_below(j, n - 1)
        }
    }

    /// Whether a function, a branch or a loop body lies between the scope of
    /// binding `j` and the place where the walk stands.
    pub open spec fn crosses(self, j: int) -> bool {
        self.crossed_below(j, self.frames.len() as int)
    }

    /// Whether a write to binding `j`, made where the walk stands, rules out
    /// inlining: it is forced, it comes from a loop, or it reaches the
    /// binding from another function, branch or loop body.
    pub open spec fn write_prevents(self, j: int, from_child: bool) -> bool {
        from_child || self.in_loop() || self.crosses(j)
    }

    /// A write to `id` is recorded: the binding counts it and no longer
    /// holds a known value, and it is marked where the write rules out
    /// inlining. A free variable leaves no trace.
    pub open spec fn add_write(self, id: Id, from_child: bool) -> ScopeV {
        match self.find(id) {
            Some(j) => self.set_var(
                j,
                VarInfoV {
                    write_count: bump(self.vars[j].write_count),
                    is_undefined: false,
                    value: None,
                    inline_prevented: self.vars[j].inline_prevented || self.write_prevents(
                        j,
                        from_child,
                    ),
                    ..self.vars[j]
                },
            ),
            None => self,
        }
    }

    /// The innermost visible binding of `id` is marked.
    pub open spec fn prevent_inline(self, id: Id) -> ScopeV {
        match self.find(id) {
            Some(j) => self.set_var(j, VarInfoV { inline_prevented: true, ..self.vars[j] }),
            None => self,
        }
    }

    /// The innermost visible binding of `id` takes `value` as what it holds
    /// now, unless its reads must be left alone.
    pub open spec fn store_value(self, id: Id, value: NodeV) -> ScopeV {
        match self.find(id) {
            Some(j) => if self.vars[j].is_inline_prevented() {
                self
            } else {
                self.set_var(j, VarInfoV { value: Some(value), ..self.vars[j] })
            },
            None => self,
        }
    }

    /// Whether the innermost scope binds `id`, the binding holds no value
    /// yet, and its reads may be replaced.
    pub open spec fn holds_undefined(self, id: Id) -> bool {
        match self.binding_in_current(id) {
            Some(v) => v.is_undefined && !v.is_inline_prevented(),
            None => false,
        }
    }

    /// The binding of `id` in the innermost scope takes `value` and is no
    /// longer undefined.
    pub open spec fn assign_value(self, id: Id, value: NodeV) -> ScopeV {
        match self.find_in_current(id) {
            Some(j) => self.set_var(
                j,
                VarInfoV { value: Some(value), is_undefined: false, ..self.vars[j] },
            ),
            None => self,
        }
    }

    /// Every identifier that `n` mentions is written from where no value
    /// can be followed. The name after the dot of a member access is no
    /// identifier.
    pub open spec fn mark_written(self, n: NodeV) -> ScopeV
        decreases n, 0nat,
    {
        match n.kind {
            Kind::Ident(id) => self.add_write(id, true),
            Kind::BindingIdent(id) => self.add_write(id, true),
            Kind::Member { computed: false } => if n.kids.len() == 0 {
                self
            } else {
                self.mark_written(n.kids[0])
            },
            _ => self.mark_written_first(n.kids, n.kids.len()),
        }
    }

    /// `mark_written` for the first `n` nodes of `s`, in order.
    pub open spec fn mark_written_first(self, s: Seq<NodeV>, n: nat) -> ScopeV
        decreases s, n,
    {
        if n == 0 || n > s.len() {
            self
        } else {
            self.mark_written_first(s, (n - 1) as nat).mark_written(s[n - 1])
        }
    }

    /// Whether `id` is among the identifiers that `mark_written` writes for
    /// `n`.
    pub open spec fn mentions(n: NodeV, id: Id) -> bool
        decreases n, 0nat,
    {
        match n.kind {
            Kind::Ident(i) => i == id,
            Kind::BindingIdent(i) => i == id,
            Kind::Member { computed: false } => n.kids.len() > 0 && ScopeV::mentions(
                n.kids[0],
                id,
            ),
            _ => ScopeV::mentions_first(n.kids, n.kids.len(), id),
        }
    }

    /// Whether `id` is mentioned by one of the first `n` nodes of `s`.
    pub open spec fn mentions_first(s: Seq<NodeV>, n: nat, id: Id) -> bool
        decreases s, n,
    {
        if n == 0 || n > s.len() {
            false
        } else {
            ScopeV::mentions_first(s, (n - 1) as nat, id) || ScopeV::mentions(s[n - 1], id)
        }
    }

    /// Whether `self` has the bindings of `before`, no more and no fewer,
    /// with no mark cleared.
    pub open spec fn same_bindings(self, before: ScopeV) -> bool {
        self.keeps(before) && self.vars.len() == before.vars.len()
    }

    /// What happens to one bound identifier of a target.
    pub open spec fn touch(self, id: Id, prevent: bool) -> ScopeV {
        if prevent {
            self.prevent_inline(id)
        } else {
            self.add_write(id, false)
        }
    }

    /// Every identifier that the pattern `p` binds is marked as not to be
    /// inlined (`prevent`) or written. Default values and computed keys are
    /// expressions and bind nothing.
    pub open spec fn touch_pattern(self, p: NodeV, prevent: bool) -> ScopeV
        decreases p, 0nat,
    {
        match p.kind {
            Kind::BindingIdent(id) => self.touch(id, prevent),
            Kind::ArrayPat | Kind::ObjectPat | Kind::RestPat => self.touch_patterns(
                p.kids,
                p.kids.len(),
                prevent,
            ),
            Kind::AssignPat => if p.kids.len() == 0 {
                self
            } else {
                self.touch_pattern(p.kids[0], prevent)
            },
            Kind::KeyValuePat => if p.kids.len() == 0 {
                self
            } else {
                self.touch_pattern(p.kids.last(), prevent)
            },
            _ => self,
        }
    }

    pub open spec fn touch_patterns(self, s: Seq<NodeV>, n: nat, prevent: bool) -> ScopeV
        decreases s, n,
    {
        if n == 0 || n > s.len() {
            self
        } else {
            self.touch_patterns(s, (n - 1) as nat, prevent).touch_pattern(s[n - 1], prevent)
        }
    }

    /// `touch_pattern` for the target of an assignment, which may also be a
    /// plain identifier.
    pub open spec fn touch_target(self, target: NodeV, prevent: bool) -> ScopeV {
        match target.kind {
            Kind::Ident(id) => self.touch(id, prevent),
            _ => self.touch_pattern(target, prevent),
        }
    }

    /// A callee that is an identifier has its binding marked as called.
    pub open spec fn mark_this_sensitive(self, callee: NodeV) -> ScopeV {
        match callee.kind {
            Kind::Ident(id) => match self.find(id) {
                Some(j) => self.set_var(j, VarInfoV { this_sensitive: true, ..self.vars[j] }),
                None => self,
            },
            _ => self,
        }
    }

    /// Whether putting `init` where `id` is read leaves every `this` as it
    /// was: not so where the binding was called and `init` is a member
    /// access or mentions `this`.
    pub open spec fn has_same_this(self, id: Id, init: Option<NodeV>) -> bool {
        match self.binding(id) {
            Some(v) => !(v.this_sensitive && match init {
                Some(e) => e.kind is Member || contains_this(e),
                None => false,
            }),
            None => true,
        }
    }

    /// Whether `e` must not be moved to where a binding is read: it reads a
    /// binding whose reads must be left alone, or it is, or holds, a form
    /// that is not known to be free of effects. Literals, identifiers, unary
    /// operators other than `delete`, binary operators and member accesses
    /// on a literal are the forms that are; the name after the dot of a
    /// member access is no expression.
    pub open spec fn is_inline_prevented(self, e: NodeV) -> bool
        decreases e, 0nat,
    {
        match e.kind {
            Kind::Ident(id) => match self.binding(id) {
                Some(v) => v.is_inline_prevented(),
                None => false,
            },
            Kind::Lit(_) => false,
            Kind::Unary(op) => op is Delete || self.any_inline_prevented(e.kids, e.kids.len()),
            Kind::Bin(_) => self.any_inline_prevented(e.kids, e.kids.len()),
            Kind::Member { computed } => e.kids.len() == 0 || !(e.kids[0].kind is Lit) || (
            computed && self.any_inline_prevented(e.kids, e.kids.len())),
            _ => true,
        }
    }

    pub open spec fn any_inline_prevented(self, s: Seq<NodeV>, n: nat) -> bool
        decreases s, n,
    {
        if n == 0 || n > s.len() {
            false
        } else {
            self.any_inline_prevented(s, (n - 1) as nat) || self.is_inline_prevented(s[n - 1])
        }
    }

    /// Whether reads of `id` must be left alone.
    pub open spec fn var_prevented(self, id: Id) -> bool {
        match self.binding(id) {
            Some(v) => v.is_inline_prevented(),
            None => false,
        }
    }

    /// Control passes a point beyond which no value can be followed: from
    /// here on no binding that is visible now may be read for its value.
    ///
    /// The analysis cannot mark the bindings at once, for the reads that
    /// came before the barrier may be replaced if none comes after. It
    /// notes of each visible binding that a barrier was passed, and
    /// `add_read` marks those that are read again. The rewriting walk, which
    /// begins when the analysis is done, has nothing to add.
    pub open spec fn store_inline_barrier(self, phase: Phase) -> ScopeV {
        match phase {
            Phase::Analysis => ScopeV {
                vars: Seq::new(
                    self.vars.len(),
                    |j: int| VarInfoV { past_barrier: true, ..self.vars[j] },
                ),
                ..self
            },
            Phase::Inlining => self,
        }
    }

    /// How often the analysis saw `id` read.
    pub open spec fn read_cnt(self, id: Id) -> Option<u64> {
        match self.binding(id) {
            Some(v) => Some(v.read_count),
            None => None,
        }
    }

    /// The last entry for `id` among the first `n` constants.
    pub open spec fn constant_below(self, id: Id, n: int) -> Option<int>
        decreases n,
    {
        if n <= 0 || n > self.constants.len() {
            None
        } else if self.constants[n - 1].id == id {
            Some(n - 1)
        } else {
            self.constant_below(id, n - 1)
        }
    }

    pub open spec fn constant_entry(self, id: Id) -> Option<int> {
        self.constant_below(id, self.constants.len() as int)
    }

    /// Whether `id` is a known constant, inlineable or not.
    pub open spec fn has_constant(self, id: Id) -> bool {
        self.constant_entry(id) is Some
    }

    /// The value recorded for the constant `id`.
    pub open spec fn constant_value(self, id: Id) -> Option<NodeV> {
        match self.constant_entry(id) {
            Some(k) => self.constants[k].value,
            None => None,
        }
    }

    /// The constant `id` is recorded with `value`, in place of what was
    /// recorded for it before.
    pub open spec fn insert_constant(self, id: Id, value: Option<NodeV>) -> ScopeV {
        match self.constant_entry(id) {
            Some(k) => ScopeV {
                constants: self.constants.update(k, ConstantV { id, value }),
                ..self
            },
            None => ScopeV { constants: self.constants.push(ConstantV { id, value }), ..self },
        }
    }

    /// The value of the constant `id`, followed through constants that name
    /// other constants for at most `fuel` steps.
    pub open spec fn resolve_constant(self, id: Id, fuel: nat) -> Option<NodeV>
        decreases fuel,
    {
        match self.constant_value(id) {
            Some(v) => match v.kind {
                Kind::Ident(next) => if fuel > 0 && self.constant_value(next) is Some {
                    self.resolve_constant(next, (fuel - 1) as nat)
                } else {
                    Some(v)
                },
                _ => Some(v),
            },
            None => None,
        }
    }

    /// What a read of the constant `id` is replaced by: its value, with
    /// chains of constants followed to their end. A chain that runs in a
    /// circle is left after as many steps as there are constants.
    pub open spec fn find_constant(self, id: Id) -> Option<NodeV> {
        self.resolve_constant(id, self.constants.len())
    }
}

/// The chain of scopes at one point of a walk, and the table of constants.
#[derive(Debug)]
pub struct Scope {
    vars: Vec<VarInfo>,
    frames: Vec<Frame>,
    constants: Vec<Constant>,
}

impl View for Scope {
    type V = ScopeV;

    closed spec fn view(&self) -> ScopeV {
        ScopeV {
            vars: var_views(self.vars@),
            frames: frame_views(self.frames@),
            constants: constant_views(self.constants@),
        }
    }
}

fn same_id(a: Id, b: Id) -> (r: bool)
    ensures
        r == (a == b),
{
    a.sym == b.sym && a.tag == b.tag
}

impl Scope {
    /// The module scope alone, with nothing declared and no constant known.
    pub fn new() -> (r: Scope)
        ensures
            r@ == ScopeV::new(),
    {
        let r = Scope { vars: Vec::new(), frames: Vec::new(), constants: Vec::new() };
        r
    }

    /// Goes back to the module scope alone, with nothing declared. The
    /// constants stay.
    pub fn restart(&mut self)
        ensures
            final(self)@ == old(self)@.restart(),
    {
        self.vars.clear();
        self.frames.clear();
    }

    /// How many scopes are open inside the module scope.
    pub fn depth(&self) -> (r: usize)
        ensures
            r == self@.frames.len(),
    {
        self.frames.len()
    }

    fn top_start(&self) -> (r: usize)
        ensures
            r == self@.top_start(),
    {
        if self.frames.len() == 0 {
            0
        } else {
            self.frames[self.frames.len() - 1].start
        }
    }

    fn find_index(&self, id: Id) -> (r: Option<usize>)
        ensures
            match r {
                Some(j) => self@.find(id) == Some(j as int) && j < self@.vars.len()
                    && self@.vars[j as int].id == id,
                None => self@.find(id) is None,
            },
    {
        let mut n: usize = self.vars.len();
        while n > 0
            invariant
                n <= self.vars.len(),
                self@.find(id) == self@.find_below(id, n as int),
            decreases n,
        {
            if same_id(self.vars[n - 1].id, id) {
                return Some(n - 1);
            }
            n = n - 1;
        }
        None
    }

    fn find_in_current_index(&self, id: Id) -> (r: Option<usize>)
        ensures
            match r {
                Some(j) => self@.find_in_current(id) == Some(j as int) && j < self@.vars.len(),
                None => self@.find_in_current(id) is None,
            },
    {
        match self.find_index(id) {
            Some(j) => if j >= self.top_start() {
                Some(j)
            } else {
                None
            },
            None => None,
        }
    }

    /// The record of the innermost visible binding of `id`.
    pub fn find_binding(&self, id: Id) -> (r: Option<&VarInfo>)
        ensures
            match r {
                Some(v) => self@.binding(id) == Some(v@),
                None => self@.binding(id) is None,
            },
    {
        match self.find_index(id) {
            Some(j) => Some(&self.vars[j]),
            None => None,
        }
    }

    /// The record of the binding of `id` in the innermost scope.
    pub fn find_binding_from_current(&self, id: Id) -> (r: Option<&VarInfo>)
        ensures
            match r {
                Some(v) => self@.binding_in_current(id) == Some(v@),
                None => self@.binding_in_current(id) is None,
            },
    {
        match self.find_in_current_index(id) {
            Some(j) => Some(&self.vars[j]),
            None => None,
        }
    }

    /// Opens a scope inside the innermost one.
    pub fn enter(&mut self, kind: ScopeKind)
        ensures
            final(self)@ == old(self)@.enter(kind),
    {
        let start = self.vars.len();
        self.frames.push(Frame { kind, start });
    }

    /// Closes the innermost scope and drops its bindings. The module scope
    /// is never closed.
    pub fn exit(&mut self)
        ensures
            final(self)@ == old(self)@.exit(),
    {
        if self.frames.len() > 0 {
            let start = self.top_start();
            self.frames.pop();
            self.vars.truncate(start);
        }
    }

    /// Declares `id` in the innermost scope; a binding that the scope has
    /// already takes the new value and counts a write.
    pub fn declare(&mut self, id: Id, value: Option<Node>, is_undefined: bool, kind: VarType)
        ensures
            final(self)@.keeps(old(self)@),
            final(self)@ == old(self)@.declare(id, opt_view(value), is_undefined, kind),
    {
        match self.find_in_current_index(id) {
            Some(j) => {
                let count = bumped(self.vars[j].write_count);
                self.vars[j].value = value;
                self.vars[j].is_undefined = is_undefined;
                self.vars[j].write_count = count;
            },
            None => {
                self.vars.push(
                    VarInfo {
                        id,
                        kind,
                        value,
                        read_count: 0,
                        write_count: 0,
                        is_undefined,
                        inline_prevented: false,
                        this_sensitive: false,
                        past_barrier: false,
                    },
                );
            },
        }
    }

    /// Counts a read of `id`.
    pub fn add_read(&mut self, id: Id)
        ensures
            final(self)@.keeps(old(self)@),
            final(self)@ == old(self)@.add_read(id),
    {
        match self.find_index(id) {
            Some(j) => {
                let count = bumped(self.vars[j].read_count);
                self.vars[j].read_count = count;
                if self.vars[j].past_barrier {
                    self.vars[j].inline_prevented = true;
                }
            },
            None => {},
        }
    }

    fn in_loop(&self) -> (r: bool)
        ensures
            r == self@.in_loop(),
    {
        let mut found = false;
        let mut n: usize = 0;
        while n < self.frames.len()
            invariant
                n <= self.frames.len(),
                found == self@.loop_below(n as int),
            decreases self.frames.len() - n,
        {
            match self.frames[n].kind {
                ScopeKind::Loop => {
                    found = true;
                },
                _ => {},
            }
            n = n + 1;
        }
        found
    }

    fn crosses(&self, j: usize) -> (r: bool)
        ensures
            r == self@.crosses(j as int),
    {
        let mut found = false;
        let mut n: usize = 0;
        while n < self.frames.len()
            invariant
                n <= self.frames.len(),
                found == self@.crossed_below(j as int, n as int),
            decreases self.frames.len() - n,
        {
            if self.frames[n].start > j {
                match self.frames[n].kind {
                    ScopeKind::Block => {},
                    ScopeKind::Module => {},
                    _ => {
                        found = true;
                    },
                }
            }
            n = n + 1;
        }
        found
    }

    /// Records a write to `id`. With `from_child`, or where the write comes
    /// from a loop or reaches the binding from another function, branch or
    /// loop body, the binding is marked as not to be inlined.
    pub fn add_write(&mut self, id: Id, from_child: bool)
        ensures
            final(self)@.keeps(old(self)@),
            final(self)@ == old(self)@.add_write(id, from_child),
    {
        match self.find_index(id) {
            Some(j) => {
                let prevents = from_child || self.in_loop() || self.crosses(j);
                let count = bumped(self.vars[j].write_count);
                self.vars[j].write_count = count;
                self.vars[j].is_undefined = false;
                self.vars[j].value = None;
                if prevents {
                    self.vars[j].inline_prevented = true;
                }
            },
            None => {},
        }
    }

    /// Marks the innermost visible binding of `id` as not to be inlined.
    pub fn prevent_inline(&mut self, id: Id)
        ensures
            final(self)@.keeps(old(self)@),
            final(self)@ == old(self)@.prevent_inline(id),
    {
        match self.find_index(id) {
            Some(j) => {
                self.vars[j].inline_prevented = true;
            },
            None => {},
        }
    }

    /// Records `value` as what the binding of `id` holds now, unless its
    /// reads must be left alone.
    pub fn store_value(&mut self, id: Id, value: Node)
        ensures
            final(self)@.keeps(old(self)@),
            final(self)@ == old(self)@.store_value(id, value@),
    {
        match self.find_index(id) {
            Some(j) => {
                if !self.vars[j].is_inline_prevented() {
                    self.vars[j].value = Some(value);
                }
            },
            None => {},
        }
    }

    /// Marks the binding of a callee that is an identifier as called.
    pub fn mark_this_sensitive(&mut self, callee: &Node)
        ensures
            final(self)@.keeps(old(self)@),
            final(self)@ == old(self)@.mark_this_sensitive(callee@),
    {
        match callee.kind {
            Kind::Ident(id) => match self.find_index(id) {
                Some(j) => {
                    self.vars[j].this_sensitive = true;
                },
                None => {},
            },
            _ => {},
        }
    }

    /// Whether putting `init` where `id` is read leaves every `this` as it
    /// was.
    pub fn has_same_this(&self, id: Id, init: Option<&Node>) -> (r: bool)
        ensures
            r == self@.has_same_this(
                id,
                match init {
                    Some(e) => Some(e@),
                    None => None,
                },
            ),
    {
        match self.find_index(id) {
            Some(j) => {
                if self.vars[j].this_sensitive {
                    match init {
                        Some(e) => {
                            let member = match e.kind {
                                Kind::Member { .. } => true,
                                _ => false,
                            };
                            !(member || e.contains_this())
                        },
                        None => true,
                    }
                } else {
                    true
                }
            },
            None => true,
        }
    }

    /// Whether `e` must not be moved to where a binding is read.
    pub fn is_inline_prevented(&self, e: &Node) -> (r: bool)
        ensures
            r == self@.is_inline_prevented(e@),
        decreases e, 1nat,
    {
        match e.kind {
            Kind::Ident(id) => match self.find_index(id) {
                Some(j) => self.vars[j].is_inline_prevented(),
                None => false,
            },
            Kind::Lit(_) => false,
            Kind::Unary(UnaryOp::Delete) => true,
            Kind::Unary(_) => self.any_inline_prevented(e),
            Kind::Bin(_) => self.any_inline_prevented(e),
            Kind::Member { computed } => {
                proof {
                    lemma_view(*e);
                }
                if e.kids.len() == 0 {
                    return true;
                }
                match e.kids[0].kind {
                    Kind::Lit(_) => computed && self.any_inline_prevented(e),
                    _ => true,
                }
            },
            _ => true,
        }
    }

    fn any_inline_prevented(&self, e: &Node) -> (r: bool)
        ensures
            r == self@.any_inline_prevented(e@.kids, e@.kids.len()),
        decreases e, 0nat,
    {
        proof {
            lemma_view(*e);
        }
        let mut found = false;
        let mut i: usize = 0;
        while i < e.kids.len()
            invariant
                i <= e.kids.len(),
                e@.kids.len() == e.kids.len(),
                forall|k: int| 0 <= k < e.kids.len() ==> #[trigger] e@.kids[k] == e.kids[k]@,
                found == self@.any_inline_prevented(e@.kids, i as nat),
            decreases e.kids.len() - i,
        {
            let here = self.is_inline_prevented(&e.kids[i]);
            found = found || here;
            i = i + 1;
        }
        found
    }

    /// Whether reads of `id` must be left alone.
    pub fn var_prevented(&self, id: Id) -> (r: bool)
        ensures
            r == self@.var_prevented(id),
    {
        match self.find_index(id) {
            Some(j) => self.vars[j].is_inline_prevented(),
            None => false,
        }
    }

    /// Records that control passes a point beyond which no value can be
    /// followed.
    pub fn store_inline_barrier(&mut self, phase: Phase)
        ensures
            final(self)@.keeps(old(self)@),
            final(self)@ == old(self)@.store_inline_barrier(phase),
    {
        match phase {
            Phase::Analysis => {
                let mut j: usize = 0;
                while j < self.vars.len()
                    invariant
                        j <= self.vars.len(),
                        self.vars.len() == old(self).vars.len(),
                        self.frames == old(self).frames,
                        self.constants == old(self).constants,
                        forall|k: int|
                            0 <= k < j ==> #[trigger] self.vars[k]@ == (VarInfoV {
                                past_barrier: true,
                                ..old(self).vars[k]@
                            }),
                        forall|k: int|
                            j <= k < self.vars.len() ==> #[trigger] self.vars[k] == old(
                                self,
                            ).vars[k],
                    decreases self.vars.len() - j,
                {
                    self.vars[j].past_barrier = true;
                    j = j + 1;
                }
            },
            Phase::Inlining => {},
        }
    }

    /// Whether the innermost scope binds `id`, the binding holds no value
    /// yet, and its reads may be replaced.
    pub fn holds_undefined(&self, id: Id) -> (r: bool)
        ensures
            r == self@.holds_undefined(id),
    {
        match self.find_in_current_index(id) {
            Some(j) => self.vars[j].is_undefined && !self.vars[j].is_inline_prevented(),
            None => false,
        }
    }

    /// Records `value` as what the binding of `id` in the innermost scope
    /// holds, and that it is no longer undefined.
    pub fn assign_value(&mut self, id: Id, value: Node)
        ensures
            final(self)@.keeps(old(self)@),
            final(self)@ == old(self)@.assign_value(id, value@),
    {
        match self.find_in_current_index(id) {
            Some(j) => {
                self.vars[j].value = Some(value);
                self.vars[j].is_undefined = false;
            },
            None => {},
        }
    }

    /// Records a write, from where no value can be followed, to every
    /// identifier that `n` mentions.
    pub fn mark_written(&mut self, n: &Node)
        ensures
            final(self)@.keeps(old(self)@),
            final(self)@ == old(self)@.mark_written(n@),
            final(self)@.constants == old(self)@.constants,
        decreases n, 1nat,
    {
        proof {
            lemma_view(*n);
        }
        match n.kind {
            Kind::Ident(id) => self.add_write(id, true),
            Kind::BindingIdent(id) => self.add_write(id, true),
            Kind::Member { computed: false } => {
                if n.kids.len() > 0 {
                    self.mark_written(&n.kids[0]);
                }
            },
            _ => self.mark_written_kids(n),
        }
    }

    fn mark_written_kids(&mut self, n: &Node)
        ensures
            final(self)@.keeps(old(self)@),
            final(self)@ == old(self)@.mark_written_first(n@.kids, n@.kids.len()),
            final(self)@.constants == old(self)@.constants,
        decreases n, 0nat,
    {
        proof {
            lemma_view(*n);
        }
        let mut i: usize = 0;
        while i < n.kids.len()
            invariant
                i <= n.kids.len(),
                n@.kids.len() == n.kids.len(),
                forall|k: int| 0 <= k < n.kids.len() ==> #[trigger] n@.kids[k] == n.kids[k]@,
                self@.keeps(old(self)@),
                self@.constants == old(self)@.constants,
                self@ == old(self)@.mark_written_first(n@.kids, i as nat),
            decreases n.kids.len() - i,
        {
            self.mark_written(&n.kids[i]);
            i = i + 1;
        }
    }

    fn touch(&mut self, id: Id, prevent: bool)
        ensures
            final(self)@.keeps(old(self)@),
            final(self)@ == old(self)@.touch(id, prevent),
            final(self)@.constants == old(self)@.constants,
    {
        if prevent {
            self.prevent_inline(id);
        } else {
            self.add_write(id, false);
        }
    }

    /// Marks as not to be inlined (`prevent`), or as written, every
    /// identifier that the pattern `p` binds.
    pub fn touch_pattern(&mut self, p: &Node, prevent: bool)
        ensures
            final(self)@.keeps(old(self)@),
            final(self)@ == old(self)@.touch_pattern(p@, prevent),
            final(self)@.constants == old(self)@.constants,
        decreases p, 1nat,
    {
        proof {
            lemma_view(*p);
        }
        match p.kind {
            Kind::BindingIdent(id) => self.touch(id, prevent),
            Kind::ArrayPat => self.touch_patterns(p, prevent),
            Kind::ObjectPat => self.touch_patterns(p, prevent),
            Kind::RestPat => self.touch_patterns(p, prevent),
            Kind::AssignPat => {
                if p.kids.len() > 0 {
                    self.touch_pattern(&p.kids[0], prevent);
                }
            },
            Kind::KeyValuePat => {
                if p.kids.len() > 0 {
                    self.touch_pattern(&p.kids[p.kids.len() - 1], prevent);
                }
            },
            _ => {},
        }
    }

    fn touch_patterns(&mut self, p: &Node, prevent: bool)
        ensures
            final(self)@.keeps(old(self)@),
            final(self)@ == old(self)@.touch_patterns(p@.kids, p@.kids.len(), prevent),
            final(self)@.constants == old(self)@.constants,
        decreases p, 0nat,
    {
        proof {
            lemma_view(*p);
        }
        let mut i: usize = 0;
        while i < p.kids.len()
            invariant
                i <= p.kids.len(),
                p@.kids.len() == p.kids.len(),
                forall|k: int| 0 <= k < p.kids.len() ==> #[trigger] p@.kids[k] == p.kids[k]@,
                self@.keeps(old(self)@),
                self@.constants == old(self)@.constants,
                self@ == old(self)@.touch_patterns(p@.kids, i as nat, prevent),
            decreases p.kids.len() - i,
        {
            self.touch_pattern(&p.kids[i], prevent);
            i = i + 1;
        }
    }

    /// `touch_pattern` for the target of an assignment, which may also be a
    /// plain identifier.
    pub fn touch_target(&mut self, target: &Node, prevent: bool)
        ensures
            final(self)@.keeps(old(self)@),
            final(self)@ == old(self)@.touch_target(target@, prevent),
            final(self)@.constants == old(self)@.constants,
    {
        match target.kind {
            Kind::Ident(id) => self.touch(id, prevent),
            _ => self.touch_pattern(target, prevent),
        }
    }

    /// How often the analysis saw `id` read.
    pub fn read_cnt(&self, id: Id) -> (r: Option<u64>)
        ensures
            r == self@.read_cnt(id),
    {
        match self.find_index(id) {
            Some(j) => Some(self.vars[j].read_count),
            None => None,
        }
    }

    fn constant_index(&self, id: Id) -> (r: Option<usize>)
        ensures
            match r {
                Some(k) => self@.constant_entry(id) == Some(k as int) && k
                    < self@.constants.len() && self@.constants[k as int].id == id,
                None => self@.constant_entry(id) is None,
            },
    {
        let mut n: usize = self.constants.len();
        while n > 0
            invariant
                n <= self.constants.len(),
                self@.constant_entry(id) == self@.constant_below(id, n as int),
            decreases n,
        {
            if same_id(self.constants[n - 1].id, id) {
                return Some(n - 1);
            }
            n = n - 1;
        }
        None
    }

    /// Whether `id` is a known constant, inlineable or not.
    pub fn has_constant(&self, id: Id) -> (r: bool)
        ensures
            r == self@.has_constant(id),
    {
        self.constant_index(id).is_some()
    }

    /// Whether a read of `id` is replaced by the value of a constant.
    pub fn inlines_constant(&self, id: Id) -> (r: bool)
        ensures
            r == (self@.find_constant(id) is Some),
    {
        proof {
            self@.lemma_resolves(id, self@.constants.len());
        }
        match self.constant_index(id) {
            Some(k) => self.constants[k].value.is_some(),
            None => false,
        }
    }

    /// Records the constant `id` with `value`.
    pub fn insert_constant(&mut self, id: Id, value: Option<Node>)
        ensures
            final(self)@.keeps(old(self)@),
            final(self)@ == old(self)@.insert_constant(id, opt_view(value)),
    {
        match self.constant_index(id) {
            Some(k) => {
                self.constants[k].value = value;
            },
            None => {
                self.constants.push(Constant { id, value });
            },
        }
    }

    /// What a read of the constant `id` is replaced by.
    pub fn find_constant(&self, id: Id) -> (r: Option<Node>)
        ensures
            opt_view(r) == self@.find_constant(id),
    {
        let mut cur = id;
        let mut fuel: usize = self.constants.len();
        loop
            invariant
                fuel <= self.constants.len(),
                self@.find_constant(id) == self@.resolve_constant(cur, fuel as nat),
            decreases fuel,
        {
            match self.constant_index(cur) {
                Some(k) => match &self.constants[k].value {
                    Some(v) => {
                        match v.kind {
                            Kind::Ident(next) => {
                                if fuel > 0 {
                                    let follows = match self.constant_index(next) {
                                        Some(m) => self.constants[m].value.is_some(),
                                        None => false,
                                    };
                                    if follows {
                                        cur = next;
                                        fuel = fuel - 1;
                                        continue ;
                                    }
                                }
                            },
                            _ => {},
                        }
                        return Some(v.deep_copy());
                    },
                    None => {
                        return None;
                    },
                },
                None => {
                    return None;
                },
            }
        }
    }
}

} // verus!
