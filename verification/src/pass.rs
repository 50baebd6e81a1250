//! The pass itself: its state, and one run over a program.

use crate::analysis::analyze;
use crate::ast::{Node, NodeV, VarDeclKind};
use crate::rewrite::rewrite;
use crate::scope::{Scope, ScopeKind, ScopeV};
use vstd::prelude::*;

verus! {

/// The configuration of the pass. It has no options.
#[derive(Clone, Copy, Debug, Default, PartialEq, Eq)]
pub struct Config {}

/// What an identifier in binding position stands for where the walk is.
#[derive(Clone, Copy, Debug, PartialEq, Eq, Structural)]
pub enum PatFoldingMode {
    /// The target of an assignment.
    Assign,
    /// A parameter of a function, or the variable of a `for`-`in` loop.
    Param,
    /// The parameter of a `catch` clause.
    CatchParam,
    /// The name of a declarator.
    VarDecl,
}

/// The pass. It assumes that every identifier of the program is resolved.
///
/// A run is one call of [`Inlining::fold`]. The fields are the state of a
/// walk; between runs only `is_first_run`, `changed` and the constants of
/// `scope` matter.
#[derive(Debug)]
pub struct Inlining {
    /// No run has been completed and reset yet.
    pub is_first_run: bool,
    /// A run since the last reset returned another program than it was given.
    pub changed: bool,
    pub scope: Scope,
    /// The kind of the declaration that the walk is in.
    pub var_decl_kind: VarDeclKind,
    pub pat_mode: PatFoldingMode,
}

/// The mathematical value of an [`Inlining`].
#[verifier::ext_equal]
pub struct InliningV {
    pub is_first_run: bool,
    pub changed: bool,
    pub scope: ScopeV,
    pub var_decl_kind: VarDeclKind,
    pub pat_mode: PatFoldingMode,
}

impl View for Inlining {
    type V = InliningV;

    open spec fn view(&self) -> InliningV {
        InliningV {
            is_first_run: self.is_first_run,
            changed: self.changed,
            scope: self.scope@,
            var_decl_kind: self.var_decl_kind,
            pat_mode: self.pat_mode,
        }
    }
}

impl InliningV {
    /// The state of a pass that has not run yet.
    pub open spec fn new() -> InliningV {
        InliningV {
            is_first_run: true,
            changed: false,
            scope: ScopeV::new(),
            var_decl_kind: VarDeclKind::Var,
            pat_mode: PatFoldingMode::VarDecl,
        }
    }

    pub open spec fn with_scope(self, scope: ScopeV) -> InliningV {
        InliningV { scope, ..self }
    }

    pub open spec fn with_pat_mode(self, pat_mode: PatFoldingMode) -> InliningV {
        InliningV { pat_mode, ..self }
    }

    pub open spec fn with_var_decl_kind(self, var_decl_kind: VarDeclKind) -> InliningV {
        InliningV { var_decl_kind, ..self }
    }

    /// The walk goes into a scope of the given kind.
    pub open spec fn enter(self, kind: ScopeKind) -> InliningV {
        InliningV { scope: self.scope.enter(kind), var_decl_kind: VarDeclKind::Var, ..self }
    }

    /// The walk comes out of the scope that it went into from `outer`.
    pub open spec fn leave(self, outer: InliningV) -> InliningV {
        InliningV {
            scope: self.scope.exit(),
            var_decl_kind: outer.var_decl_kind,
            pat_mode: outer.pat_mode,
            ..self
        }
    }

    /// Whether `self` can come after `before` in one walk: see
    /// [`ScopeV::keeps`]. A walk leaves the two flags of the pass alone,
    /// and after the first run the constants too.
    pub open spec fn follows(self, before: InliningV) -> bool {
        &&& self.scope.keeps(before.scope)
        &&& self.is_first_run == before.is_first_run
        &&& self.changed == before.changed
        &&& before.is_first_run || self.scope.constants == before.scope.constants
    }

    /// The state in which a run begins: the module scope alone, with the
    /// constants that earlier runs recorded.
    pub open spec fn start(self) -> InliningV {
        InliningV {
            is_first_run: self.is_first_run,
            changed: false,
            scope: self.scope.restart(),
            var_decl_kind: VarDeclKind::Var,
            pat_mode: PatFoldingMode::VarDecl,
        }
    }

    /// One run over `program`: the whole program is analysed and then
    /// rewritten. The flag is raised exactly when the program that comes out
    /// is another than went in, and stays up if it was.
    pub open spec fn fold(self, program: NodeV) -> (InliningV, NodeV) {
        let (end, out) = rewrite(analyze(self.start(), program), program);
        (InliningV { changed: self.changed || out != program, ..end }, out)
    }

    /// The flag is cleared and the first run is over.
    pub open spec fn reset(self) -> InliningV {
        InliningV { changed: false, is_first_run: false, ..self }
    }
}

/// Makes the pass.
pub fn inlining(_config: Config) -> (r: Inlining)
    ensures
        r@ == InliningV::new(),
{
    Inlining {
        is_first_run: true,
        changed: false,
        scope: Scope::new(),
        var_decl_kind: VarDeclKind::Var,
        pat_mode: PatFoldingMode::VarDecl,
    }
}

impl Inlining {
    /// The name of the pass.
    pub fn name() -> (r: &'static str)
        ensures
            r@ == "inlining"@,
    {
        "inlining"
    }

    /// Whether a run since the last reset returned another program than it
    /// was given.
    pub fn changed(&self) -> (r: bool)
        ensures
            r == self@.changed,
    {
        self.changed
    }

    /// Clears the flag and ends the first run: constants are no longer
    /// recorded nor inlined.
    pub fn reset(&mut self)
        ensures
            final(self)@ == old(self)@.reset(),
    {
        self.changed = false;
        self.is_first_run = false;
    }

    /// Runs the pass once over `program` and returns the rewritten program.
    pub fn fold(&mut self, program: &Node) -> (out: Node)
        ensures
            (final(self)@, out@) == old(self)@.fold(program@),
            final(self)@.changed == (old(self)@.changed || out@ != program@),
    {
        let was_changed = self.changed;
        self.scope.restart();
        self.changed = false;
        self.var_decl_kind = VarDeclKind::Var;
        self.pat_mode = PatFoldingMode::VarDecl;
        self.analyze(program);
        let out = self.rewrite(program);
        self.changed = was_changed || !out.same(program);
        out
    }

    pub(crate) fn enter(&mut self, kind: ScopeKind) -> (saved: (VarDeclKind, PatFoldingMode))
        ensures
            final(self)@ == old(self)@.enter(kind),
            saved == (old(self)@.var_decl_kind, old(self)@.pat_mode),
    {
        let saved = (self.var_decl_kind, self.pat_mode);
        self.scope.enter(kind);
        self.var_decl_kind = VarDeclKind::Var;
        saved
    }

    pub(crate) fn leave(&mut self, saved: (VarDeclKind, PatFoldingMode))
        ensures
            final(self)@ == (InliningV {
                scope: old(self)@.scope.exit(),
                var_decl_kind: saved.0,
                pat_mode: saved.1,
                ..old(self)@
            }),
    {
        self.scope.exit();
        self.var_decl_kind = saved.0;
        self.pat_mode = saved.1;
    }
}

} // verus!
