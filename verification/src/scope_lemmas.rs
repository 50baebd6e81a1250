//! What follows from the definitions of [`ScopeV`], proved once for the
//! laws that lean on it.

use crate::ast::{Id, Kind, NodeV};
use crate::scope::{Phase, ScopeKind, ScopeV, VarInfoV, VarType};
use vstd::prelude::*;

verus! {

impl ScopeV {
    /// Where `find` finds a binding, the binding has the identifier.
    pub proof fn lemma_find(self, id: Id)
        ensures
            match self.find(id) {
                Some(j) => 0 <= j < self.vars.len() && self.vars[j].id == id,
                None => true,
            },
    {
        self.lemma_find_below(id, self.vars.len() as int);
    }

    pub proof fn lemma_find_below(self, id: Id, n: int)
        ensures
            match self.find_below(id, n) {
                Some(j) => 0 <= j < n && j < self.vars.len() && self.vars[j].id == id,
                None => true,
            },
        decreases n,
    {
        if n <= 0 || n > self.vars.len() {
        } else if self.vars[n - 1].id == id {
        } else {
            self.lemma_find_below(id, n - 1);
        }
    }

    /// Two chains that list the same identifiers find the same bindings.
    pub proof fn lemma_find_same_ids(self, other: ScopeV, id: Id, n: int)
        requires
            self.vars.len() == other.vars.len(),
            forall|j: int| 0 <= j < self.vars.len() ==> (#[trigger] self.vars[j]).id == other.vars[j].id,
        ensures
            self.find_below(id, n) == other.find_below(id, n),
        decreases n,
    {
        if n <= 0 || n > self.vars.len() {
        } else if self.vars[n - 1].id == id {
        } else {
            self.lemma_find_same_ids(other, id, n - 1);
        }
    }

    /// A record that is replaced under its own identifier is found where it
    /// was, and so is every other.
    pub proof fn lemma_find_set_var(self, j: int, v: VarInfoV, id: Id)
        requires
            0 <= j < self.vars.len(),
            v.id == self.vars[j].id,
        ensures
            self.set_var(j, v).find(id) == self.find(id),
    {
        self.set_var(j, v).lemma_find_same_ids(self, id, self.vars.len() as int);
    }

    /// After a declaration the identifier denotes a binding with the
    /// declared value, which is marked, or known as called, exactly if the
    /// innermost scope had a binding of the identifier that was.
    pub proof fn lemma_declared(
        self,
        id: Id,
        value: Option<NodeV>,
        is_undefined: bool,
        kind: VarType,
    )
        ensures
            match self.declare(id, value, is_undefined, kind).binding(id) {
                Some(v) => v.id == id && v.value == value && v.is_undefined == is_undefined
                    && v.inline_prevented == (match self.binding_in_current(id) {
                    Some(b) => b.inline_prevented,
                    None => false,
                }) && v.this_sensitive == (match self.binding_in_current(id) {
                    Some(b) => b.this_sensitive,
                    None => false,
                }),
                None => false,
            },
            self.declare(id, value, is_undefined, kind).constants == self.constants,
    {
        let after = self.declare(id, value, is_undefined, kind);
        self.lemma_find(id);
        match self.find_in_current(id) {
            Some(j) => {
                self.lemma_find_set_var(j, after.vars[j], id);
            },
            None => {},
        }
    }

    /// After a write the binding is marked wherever the write rules out
    /// inlining, and stays marked if it was.
    pub proof fn lemma_written(self, id: Id, from_child: bool)
        requires
            self.find(id) is Some,
        ensures
            self.add_write(id, from_child).find(id) == self.find(id),
            self.add_write(id, from_child).binding(id) matches Some(v) && v.inline_prevented == (
            self.vars[self.find(id)->0].inline_prevented || self.write_prevents(
                self.find(id)->0,
                from_child,
            )),
    {
        self.lemma_find(id);
        let j = self.find(id)->0;
        self.lemma_find_set_var(j, self.add_write(id, from_child).vars[j], id);
    }

    /// A constant that was just recorded has the recorded value.
    pub proof fn lemma_constant_inserted(self, before: ScopeV, id: Id, value: Option<NodeV>)
        requires
            self == before.insert_constant(id, value),
        ensures
            self.constant_value(id) == value,
    {
        before.lemma_constant_below(id, before.constants.len() as int);
        match before.constant_entry(id) {
            Some(k) => {
                self.lemma_constant_same_ids(before, id, before.constants.len() as int);
            },
            None => {},
        }
    }

    pub proof fn lemma_constant_below(self, id: Id, n: int)
        ensures
            match self.constant_below(id, n) {
                Some(k) => 0 <= k < n && k < self.constants.len() && self.constants[k].id == id,
                None => true,
            },
        decreases n,
    {
        if n <= 0 || n > self.constants.len() {
        } else if self.constants[n - 1].id == id {
        } else {
            self.lemma_constant_below(id, n - 1);
        }
    }

    pub proof fn lemma_constant_same_ids(self, other: ScopeV, id: Id, n: int)
        requires
            self.constants.len() == other.constants.len(),
            forall|k: int|
                0 <= k < self.constants.len() ==> (#[trigger] self.constants[k]).id
                    == other.constants[k].id,
        ensures
            self.constant_below(id, n) == other.constant_below(id, n),
        decreases n,
    {
        if n <= 0 || n > self.constants.len() {
        } else if self.constants[n - 1].id == id {
        } else {
            self.lemma_constant_same_ids(other, id, n - 1);
        }
    }

    /// A constant with a value resolves to a value, however long the chain.
    pub proof fn lemma_resolves(self, id: Id, fuel: nat)
        ensures
            self.resolve_constant(id, fuel) is Some <==> self.constant_value(id) is Some,
        decreases fuel,
    {
        match self.constant_value(id) {
            Some(v) => match v.kind {
                Kind::Ident(next) => {
                    if fuel > 0 && self.constant_value(next) is Some {
                        self.lemma_resolves(next, (fuel - 1) as nat);
                    }
                },
                _ => {},
            },
            None => {},
        }
    }

    /// What is known of constants depends on the table of constants alone.
    pub proof fn lemma_same_constants(self, other: ScopeV, id: Id)
        requires
            self.constants == other.constants,
        ensures
            self.find_constant(id) == other.find_constant(id),
    {
        self.lemma_resolve_same(other, id, self.constants.len());
    }

    pub proof fn lemma_resolve_same(self, other: ScopeV, id: Id, fuel: nat)
        requires
            self.constants == other.constants,
        ensures
            self.resolve_constant(id, fuel) == other.resolve_constant(id, fuel),
        decreases fuel,
    {
        self.lemma_constant_same_ids(other, id, self.constants.len() as int);
        match self.constant_value(id) {
            Some(v) => match v.kind {
                Kind::Ident(next) => {
                    self.lemma_constant_same_ids(other, next, self.constants.len() as int);
                    if fuel > 0 && self.constant_value(next) is Some {
                        self.lemma_resolve_same(other, next, (fuel - 1) as nat);
                    }
                },
                _ => {},
            },
            None => {},
        }
    }

    /// No operation on one binding, on the constants or at a barrier takes
    /// a binding away or clears a mark.
    pub proof fn lemma_steps_keep(self, id: Id, value: Option<NodeV>, node: NodeV, flag: bool)
        ensures
            self.add_read(id).keeps(self),
            self.add_write(id, flag).keeps(self),
            self.prevent_inline(id).keeps(self),
            self.touch(id, flag).keeps(self),
            self.store_value(id, node).keeps(self),
            self.assign_value(id, node).keeps(self),
            self.mark_this_sensitive(node).keeps(self),
            self.insert_constant(id, value).keeps(self),
            self.store_inline_barrier(Phase::Analysis).keeps(self),
            self.store_inline_barrier(Phase::Inlining).keeps(self),
            forall|kind: VarType| (#[trigger] self.declare(id, value, flag, kind)).keeps(self),
    {
        self.lemma_find(id);
        match node.kind {
            Kind::Ident(callee) => {
                self.lemma_find(callee);
            },
            _ => {},
        }
    }

    pub proof fn lemma_mark_written_keeps(self, n: NodeV)
        ensures
            self.mark_written(n).keeps(self),
            self.mark_written(n).constants == self.constants,
        decreases n, 1nat,
    {
        match n.kind {
            Kind::Ident(id) => {
                self.lemma_steps_keep(id, None, n, true);
            },
            Kind::BindingIdent(id) => {
                self.lemma_steps_keep(id, None, n, true);
            },
            Kind::Member { computed: false } => {
                if n.kids.len() > 0 {
                    self.lemma_mark_written_keeps(n.kids[0]);
                }
            },
            _ => {
                self.lemma_mark_written_first_keeps(n.kids, n.kids.len());
            },
        }
    }

    pub proof fn lemma_mark_written_first_keeps(self, s: Seq<NodeV>, n: nat)
        ensures
            self.mark_written_first(s, n).keeps(self),
            self.mark_written_first(s, n).constants == self.constants,
        decreases s, n,
    {
        if n == 0 || n > s.len() {
        } else {
            self.lemma_mark_written_first_keeps(s, (n - 1) as nat);
            self.mark_written_first(s, (n - 1) as nat).lemma_mark_written_keeps(s[n - 1]);
        }
    }

    pub proof fn lemma_touch_pattern_keeps(self, p: NodeV, prevent: bool)
        ensures
            self.touch_pattern(p, prevent).keeps(self),
            self.touch_target(p, prevent).keeps(self),
            self.touch_pattern(p, prevent).constants == self.constants,
            self.touch_target(p, prevent).constants == self.constants,
        decreases p, 1nat,
    {
        match p.kind {
            Kind::BindingIdent(id) => {
                self.lemma_steps_keep(id, None, p, prevent);
            },
            Kind::Ident(id) => {
                self.lemma_steps_keep(id, None, p, prevent);
            },
            Kind::ArrayPat | Kind::ObjectPat | Kind::RestPat => {
                self.lemma_touch_patterns_keep(p.kids, p.kids.len(), prevent);
            },
            Kind::AssignPat => {
                if p.kids.len() > 0 {
                    self.lemma_touch_pattern_keeps(p.kids[0], prevent);
                }
            },
            Kind::KeyValuePat => {
                if p.kids.len() > 0 {
                    self.lemma_touch_pattern_keeps(p.kids.last(), prevent);
                }
            },
            _ => {},
        }
    }

    pub proof fn lemma_touch_patterns_keep(self, s: Seq<NodeV>, n: nat, prevent: bool)
        ensures
            self.touch_patterns(s, n, prevent).keeps(self),
            self.touch_patterns(s, n, prevent).constants == self.constants,
        decreases s, n,
    {
        if n == 0 || n > s.len() {
        } else {
            self.lemma_touch_patterns_keep(s, (n - 1) as nat, prevent);
            self.touch_patterns(s, (n - 1) as nat, prevent).lemma_touch_pattern_keeps(
                s[n - 1],
                prevent,
            );
        }
    }

    /// What a scope did to the bindings around it is kept when it closes.
    pub proof fn lemma_exit_keeps(self, before: ScopeV, kind: ScopeKind)
        requires
            self.keeps(before.enter(kind)),
        ensures
            self.exit().keeps(before),
    {
        assert(before.enter(kind).frames.drop_last() =~= before.frames);
    }

    /// Marking what a node mentions declares nothing.
    pub proof fn lemma_mark_written_same(self, n: NodeV)
        ensures
            self.mark_written(n).same_bindings(self),
        decreases n, 1nat,
    {
        match n.kind {
            Kind::Ident(id) => {
                self.lemma_find(id);
            },
            Kind::BindingIdent(id) => {
                self.lemma_find(id);
            },
            Kind::Member { computed: false } => {
                if n.kids.len() > 0 {
                    self.lemma_mark_written_same(n.kids[0]);
                }
            },
            _ => {
                self.lemma_mark_written_first_same(n.kids, n.kids.len());
            },
        }
    }

    pub proof fn lemma_mark_written_first_same(self, s: Seq<NodeV>, n: nat)
        ensures
            self.mark_written_first(s, n).same_bindings(self),
        decreases s, n,
    {
        if n == 0 || n > s.len() {
        } else {
            self.lemma_mark_written_first_same(s, (n - 1) as nat);
            self.mark_written_first(s, (n - 1) as nat).lemma_mark_written_same(s[n - 1]);
        }
    }

    /// Every visible binding that a node mentions is marked once the node
    /// is marked as written.
    pub proof fn lemma_mark_written_marks(self, n: NodeV, id: Id)
        requires
            ScopeV::mentions(n, id),
            self.find(id) is Some,
        ensures
            self.mark_written(n).find(id) == self.find(id),
            self.mark_written(n).vars[self.find(id)->0].inline_prevented,
        decreases n, 1nat,
    {
        self.lemma_find(id);
        self.lemma_mark_written_same(n);
        self.mark_written(n).lemma_find_same_ids(self, id, self.vars.len() as int);
        match n.kind {
            Kind::Ident(_) | Kind::BindingIdent(_) => {},
            Kind::Member { computed: false } => {
                self.lemma_mark_written_marks(n.kids[0], id);
            },
            _ => {
                self.lemma_mark_written_first_marks(n.kids, n.kids.len(), id);
            },
        }
    }

    pub proof fn lemma_mark_written_first_marks(self, s: Seq<NodeV>, n: nat, id: Id)
        requires
            ScopeV::mentions_first(s, n, id),
            self.find(id) is Some,
        ensures
            self.mark_written_first(s, n).vars[self.find(id)->0].inline_prevented,
        decreases s, n,
    {
        self.lemma_find(id);
        let before = self.mark_written_first(s, (n - 1) as nat);
        self.lemma_mark_written_first_same(s, (n - 1) as nat);
        before.lemma_find_same_ids(self, id, self.vars.len() as int);
        before.lemma_mark_written_same(s[n - 1]);
        if ScopeV::mentions(s[n - 1], id) {
            before.lemma_mark_written_marks(s[n - 1], id);
        } else {
            self.lemma_mark_written_first_marks(s, (n - 1) as nat, id);
        }
    }
}

} // verus!
