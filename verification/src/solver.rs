//! The solver: a constraint engine together with the indices that say which
//! widget owns which variable and which constraints touch it.

use vstd::prelude::*;
use vstd::string::*;
use std::collections::HashMap;
use cassowary::{Constraint, Solver, Variable};
use linked_hash_map::LinkedHashMap;
use crate::assoc::{position, remove_value, AssocList, Handle};
use crate::engine::{
    constraint_parts, constraint_variables, edit_variables, engine_add_constraint,
    engine_fetch_changes, engine_has_constraint, engine_has_edit_variable, engine_new,
    engine_remove_constraint, engine_value_text, installed, ledger_insert, ledger_keys,
    ledger_list, ledger_new, ledger_remove, pending_changes, value_text, variables_of,
    IngestError, SolverError,
};
use crate::format::{constraint_text, fmt_constraint};
use crate::layout::{EditRequest, EditVariable, LayoutBuilder, LayoutId, LayoutVars, Rect};
use crate::model::{
    asked, deferred, entered, lemma_drop_constraint, lemma_drop_constraint_wf, lemma_drop_first,
    lemma_entered_step, lemma_quiet_drop_first,
    lemma_quiet_remove_widget, lemma_record_constraint_wf, lemma_remove_variable,
    lemma_remove_widget, lemma_requests_asked, lemma_strike_constraint_wf, lemma_struck_step,
    lemma_thinned_twice, listed, reports, requests, routed, strengths, struck, LayoutState,
};
use crate::names::{ordered, sorted_variables, texts, VarNames};
use crate::scalar::Scalar;
use crate::seqs::{lemma_take_step, lemma_without, with, without};

verus! {

broadcast use vstd::std_specs::hash::group_hash_axioms;

/// Keeps the positions of widgets in step with a constraint engine.
pub struct LimnSolver {
    /// The engine. Suggestions of values are made on it directly.
    pub solver: Solver,
    var_constraints: AssocList<Variable, Vec<Constraint>>,
    constraint_vars: AssocList<Constraint, Vec<Variable>>,
    var_ids: AssocList<Variable, LayoutId>,
    hidden_layouts: HashMap<LayoutId, Vec<Constraint>>,
    edit_strengths: AssocList<Variable, Scalar>,
    missing_widget_layout: AssocList<Variable, Scalar>,
    debug_constraint_list: LinkedHashMap<Constraint, ()>,
    names: VarNames,
    keeps_names: bool,
}

impl LimnSolver {
    /// The index of constraints by variable.
    pub closed spec fn by_variable(&self) -> Map<Variable, Seq<Constraint>> {
        self.var_constraints@.map_values(|l: Vec<Constraint>| l@)
    }

    /// The index of variables by constraint.
    pub closed spec fn by_constraint(&self) -> Map<Constraint, Seq<Variable>> {
        self.constraint_vars@.map_values(|l: Vec<Variable>| l@)
    }

    /// The constraints kept for hidden widgets.
    pub closed spec fn kept(&self) -> Map<LayoutId, Seq<Constraint>> {
        self.hidden_layouts@.map_values(|l: Vec<Constraint>| l@)
    }

    /// The names of variables, where names are kept.
    pub closed spec fn named(&self) -> Option<Map<Variable, Seq<char>>> {
        if self.keeps_names {
            Some(texts(self.names))
        } else {
            None
        }
    }

    /// The state that the solver is in.
    pub closed spec fn view(&self) -> LayoutState {
        LayoutState {
            installed: installed(self.solver),
            edit_variables: edit_variables(self.solver),
            var_constraints: self.by_variable(),
            constraint_vars: self.by_constraint(),
            var_ids: self.var_ids@,
            hidden: self.kept(),
            edit_strengths: self.edit_strengths@,
            deferred: self.missing_widget_layout@,
            ledger: ledger_keys(self.debug_constraint_list),
            names: self.named(),
        }
    }

    /// Each index holds each of its keys once.
    pub closed spec fn indices_wf(&self) -> bool {
        &&& self.var_constraints.wf()
        &&& self.constraint_vars.wf()
        &&& self.var_ids.wf()
        &&& self.edit_strengths.wf()
        &&& self.missing_widget_layout.wf()
        &&& self.names.wf()
    }

    /// The solver is in order: its indices are, and they agree with each other.
    pub open spec fn wf(&self) -> bool {
        self.indices_wf() && self@.wf()
    }

    /// The variables with a change that the engine has not reported yet.
    pub closed spec fn unreported(&self) -> Set<Variable> {
        pending_changes(self.solver)
    }

    /// The engine.
    pub closed spec fn engine(&self) -> Solver {
        self.solver
    }

    /// What the state says of the engine is what the engine holds.
    pub proof fn lemma_engine(&self)
        ensures
            self@.installed == installed(self.engine()),
            self@.edit_variables == edit_variables(self.engine()),
            self.unreported() == pending_changes(self.engine()),
    {
    }

    /// A solver to which nothing has been added, with an empty table of names.
    pub fn new() -> (r: LimnSolver)
        ensures
            r.wf(),
            r@ == LayoutState::initial(Some(Map::empty())),
            r.unreported() == Set::<Variable>::empty(),
    {
        let r = LimnSolver {
            solver: engine_new(),
            var_constraints: AssocList::new(),
            constraint_vars: AssocList::new(),
            var_ids: AssocList::new(),
            hidden_layouts: HashMap::new(),
            edit_strengths: AssocList::new(),
            missing_widget_layout: AssocList::new(),
            debug_constraint_list: ledger_new(),
            names: AssocList::new(),
            keeps_names: true,
        };
        proof {
            assert(r.by_variable() =~= Map::empty());
            assert(r.by_constraint() =~= Map::empty());
            assert(r.kept() =~= Map::empty());
            assert(r.named().unwrap() =~= Map::empty());
        }
        r
    }

    /// A solver to which nothing has been added, with the table of names
    /// `names`, or without one.
    pub fn with_names(names: Option<VarNames>) -> (r: LimnSolver)
        requires
            match names {
                Some(table) => table.wf(),
                None => true,
            },
        ensures
            r.wf(),
            r.unreported() == Set::<Variable>::empty(),
            r@ == LayoutState::initial(
                match names {
                    Some(table) => Some(texts(table)),
                    None => None,
                },
            ),
    {
        let (table, keeps_names) = match names {
            Some(table) => (table, true),
            None => (AssocList::new(), false),
        };
        let r = LimnSolver {
            solver: engine_new(),
            var_constraints: AssocList::new(),
            constraint_vars: AssocList::new(),
            var_ids: AssocList::new(),
            hidden_layouts: HashMap::new(),
            edit_strengths: AssocList::new(),
            missing_widget_layout: AssocList::new(),
            debug_constraint_list: ledger_new(),
            names: table,
            keeps_names,
        };
        proof {
            assert(r.by_variable() =~= Map::empty());
            assert(r.by_constraint() =~= Map::empty());
            assert(r.kept() =~= Map::empty());
        }
        r
    }

    /// The table of names, where names are kept.
    pub fn names(&self) -> (r: Option<&VarNames>)
        requires
            self.wf(),
        ensures
            match r {
                Some(table) => table.wf() && self@.names == Some(texts(*table)),
                None => self@.names is None,
            },
    {
        if self.keeps_names {
            Some(&self.names)
        } else {
            None
        }
    }

    /// The constraints of the ledger: those added and not removed, the one
    /// added longest ago first.
    pub fn constraints(&self) -> (r: Vec<Constraint>)
        ensures
            r@ == self@.ledger,
    {
        ledger_list(&self.debug_constraint_list)
    }

    /// Whether the engine treats `v` as an edit variable.
    pub fn has_edit_variable(&mut self, v: &Variable) -> (r: bool)
        ensures
            *final(self) == *old(self),
            r == old(self)@.edit_variables.contains(*v),
    {
        engine_has_edit_variable(&self.solver, v)
    }

    /// Whether the engine holds `constraint`.
    pub fn has_constraint(&self, constraint: &Constraint) -> (r: bool)
        ensures
            r == self@.installed.contains(*constraint),
    {
        engine_has_constraint(&self.solver, constraint)
    }

    /// Lists `c` under each variable of its terms, and those variables under `c`.
    fn enter(&mut self, c: &Constraint)
        requires
            old(self).indices_wf(),
        ensures
            final(self).indices_wf(),
            final(self).unreported() == old(self).unreported(),
            final(self).engine() == old(self).engine(),
            final(self)@ == (LayoutState {
                constraint_vars: old(self)@.constraint_vars.insert(
                    *c,
                    listed(old(self)@.constraint_vars, *c) + constraint_variables(*c),
                ),
                var_constraints: entered(
                    old(self)@.var_constraints,
                    *c,
                    constraint_variables(*c),
                    constraint_variables(*c).len() as int,
                ),
                ..old(self)@
            }),
    {
        let vars = variables_of(c);
        let ghost index0 = self.by_variable();
        let ghost lists0 = self.by_constraint();
        let mut var_list = match self.constraint_vars.remove(c) {
            Some(l) => l,
            None => Vec::new(),
        };
        assert(var_list@ == listed(lists0, *c));
        let mut i: usize = 0;
        proof {
            assert(vars@.take(0) =~= Seq::<Variable>::empty());
            assert(self.by_variable() =~= entered(index0, *c, vars@, 0));
        }
        while i < vars.len()
            invariant
                i <= vars@.len(),
                vars@ == constraint_variables(*c),
                self.indices_wf(),
                self.by_variable() == entered(index0, *c, vars@, i as int),
                var_list@ == listed(lists0, *c) + vars@.take(i as int),
                self.constraint_vars@ == old(self).constraint_vars@.remove(*c),
                self.solver == old(self).solver,
                self.var_ids == old(self).var_ids,
                self.hidden_layouts == old(self).hidden_layouts,
                self.edit_strengths == old(self).edit_strengths,
                self.missing_widget_layout == old(self).missing_widget_layout,
                self.debug_constraint_list == old(self).debug_constraint_list,
                self.names == old(self).names,
                self.keeps_names == old(self).keeps_names,
            decreases vars@.len() - i,
        {
            let u = vars[i];
            let ghost before = self.by_variable();
            let mut list = match self.var_constraints.remove(&u) {
                Some(l) => l,
                None => Vec::new(),
            };
            assert(list@ == listed(before, u));
            if position(&list, c).is_none() {
                list.push(c.clone());
            }
            assert(list@ == with(listed(before, u), *c));
            self.var_constraints.insert(u, list);
            var_list.push(u);
            proof {
                assert(self.by_variable() =~= before.insert(u, with(listed(before, u), *c)));
                lemma_entered_step(index0, *c, vars@, i as int);
                assert(vars@.take(i + 1) =~= vars@.take(i as int).push(u));
                assert(var_list@ =~= listed(lists0, *c) + vars@.take(i + 1));
            }
            i += 1;
        }
        assert(vars@.take(i as int) =~= vars@);
        self.constraint_vars.insert(c.clone(), var_list);
        proof {
            assert(self.by_constraint() =~= lists0.insert(*c, listed(lists0, *c) + vars@));
        }
    }

    /// Takes note of the engine's answer to the attempt to add `constraint`:
    /// where the engine has taken the constraint, it is entered in the ledger
    /// and in both indices; where it has refused, nothing changes. The
    /// answer is handed back.
    pub fn constraint_added(&mut self, constraint: &Constraint, answer: Result<(), SolverError>) -> (r:
        Result<(), SolverError>)
        requires
            old(self).wf(),
        ensures
            final(self).wf(),
            r == answer,
            final(self).unreported() == old(self).unreported(),
            final(self).engine() == old(self).engine(),
            final(self)@ == if answer is Ok {
                old(self)@.record_constraint(*constraint)
            } else {
                old(self)@
            },
    {
        if answer.is_ok() {
            ledger_insert(&mut self.debug_constraint_list, constraint);
            self.enter(constraint);
            proof {
                lemma_record_constraint_wf(old(self)@, *constraint);
            }
        }
        answer
    }

    /// Takes note of the engine's answer to the attempt to remove
    /// `constraint`: where the engine has let the constraint go, it is struck
    /// from the ledger and from both indices; where it has reported an
    /// error, nothing changes. The answer is handed back.
    pub fn constraint_removed(
        &mut self,
        constraint: &Constraint,
        answer: Result<(), SolverError>,
    ) -> (r: Result<(), SolverError>)
        requires
            old(self).wf(),
        ensures
            final(self).wf(),
            r == answer,
            final(self).unreported() == old(self).unreported(),
            final(self).engine() == old(self).engine(),
            final(self)@ == if answer is Ok {
                old(self)@.strike_constraint(*constraint)
            } else {
                old(self)@
            },
    {
        if answer.is_ok() {
            ledger_remove(&mut self.debug_constraint_list, constraint);
            self.strike(constraint);
            proof {
                lemma_strike_constraint_wf(old(self)@, *constraint);
            }
        }
        answer
    }

    /// Hands `constraint` to the engine and, where the engine takes it,
    /// enters it in the ledger and in both indices.
    fn add_constraint(&mut self, constraint: &Constraint) -> (r: Result<(), SolverError>)
        requires
            old(self).wf(),
        ensures
            final(self).wf(),
            match r {
                Ok(()) => !old(self)@.installed.contains(*constraint) && final(self)@ == old(
                    self,
                )@.index_constraint(*constraint),
                Err(e) => old(self)@.refused(*constraint, e, final(self)@),
            },
    {
        let answer = engine_add_constraint(&mut self.solver, constraint);
        proof {
            assert(self@.var_constraints == old(self)@.var_constraints);
            assert(self@.constraint_vars == old(self)@.constraint_vars);
        }
        self.constraint_added(constraint, answer)
    }

    /// Takes in edit directives alone: caches the strength of each that has
    /// no value, and returns a suggestion for each that has one, in their
    /// order. A variable is to be installed by the first suggestion for it,
    /// with that directive's strength, unless the engine knows it as an edit
    /// variable. The caller is to pass the suggestions on to the engine
    /// before it asks the solver for more.
    pub fn declare_edit_variables(&mut self, directives: &Vec<EditVariable>) -> (r: Vec<
        EditRequest,
    >)
        requires
            old(self).wf(),
        ensures
            final(self).wf(),
            final(self).unreported() == old(self).unreported(),
            final(self).engine() == old(self).engine(),
            final(self)@ == old(self)@.directed(directives@),
            r@ == requests(old(self)@.edit_variables, directives@, directives@.len() as int),
    {
        let mut out: Vec<EditRequest> = Vec::new();
        let ghost edits = self@.edit_variables;
        let ghost cache0 = self.edit_strengths@;
        let mut i: usize = 0;
        while i < directives.len()
            invariant
                i <= directives@.len(),
                self.wf(),
                edits == old(self)@.edit_variables,
                cache0 == old(self).edit_strengths@,
                self.edit_strengths@ == strengths(cache0, directives@, i as int),
                out@ == requests(edits, directives@, i as int),
                self.solver == old(self).solver,
                self.var_constraints == old(self).var_constraints,
                self.constraint_vars == old(self).constraint_vars,
                self.var_ids == old(self).var_ids,
                self.hidden_layouts == old(self).hidden_layouts,
                self.missing_widget_layout == old(self).missing_widget_layout,
                self.debug_constraint_list == old(self).debug_constraint_list,
                self.names == old(self).names,
                self.keeps_names == old(self).keeps_names,
            decreases directives@.len() - i,
        {
            let d = directives[i];
            match d.val {
                Some(value) => {
                    let known = engine_has_edit_variable(&self.solver, &d.var) || requested(
                        &out,
                        &d.var,
                    );
                    proof {
                        lemma_requests_asked(edits, directives@, i as int, d.var);
                    }
                    let install = if known {
                        None
                    } else {
                        Some(d.strength)
                    };
                    out.push(EditRequest { var: d.var, install, value });
                },
                None => {
                    let ghost before = *self;
                    self.edit_strengths.insert(d.var, d.strength);
                    assert(self@.var_constraints == before@.var_constraints);
                    assert(self@.constraint_vars == before@.constraint_vars);
                },
            }
            i += 1;
        }
        out
    }

    /// Takes in a declaration. The strength of each edit directive without a
    /// value is cached; for each with a value a suggestion is returned, which
    /// the caller is to pass on to the engine. Then the constraints enter the
    /// engine and the indices, one after the other. The first that the engine
    /// refuses ends the work: its position and the engine's answer are
    /// returned, and the constraints before it stay.
    pub fn update_from_builder(&mut self, layout: LayoutBuilder) -> (r: Result<
        Vec<EditRequest>,
        IngestError,
    >)
        requires
            old(self).wf(),
        ensures
            final(self).wf(),
            old(self)@.declared(layout.edit_vars@, layout.constraints@, r, final(self)@),
    {
        let reqs = self.declare_edit_variables(&layout.edit_vars);
        let ghost start = self@;
        let mut i: usize = 0;
        while i < layout.constraints.len()
            invariant
                i <= layout.constraints@.len(),
                self.wf(),
                start == old(self)@.directed(layout.edit_vars@),
                self@ == start.ingested(layout.constraints@, i as int),
                forall|k: int|
                    0 <= k < i ==> !(#[trigger] start.ingested(
                        layout.constraints@,
                        k,
                    )).installed.contains(layout.constraints@[k]),
            decreases layout.constraints@.len() - i,
        {
            match self.add_constraint(&layout.constraints[i]) {
                Ok(()) => {},
                Err(cause) => {
                    return Err(IngestError { index: i, cause });
                },
            }
            i += 1;
        }
        Ok(reqs)
    }

    /// Asks for `val` to be suggested for `var`. The suggestion is returned
    /// for the caller to pass on to the engine. Where the engine does not
    /// know `var` as an edit variable, the suggestion says with which
    /// strength to install it first: the one cached for `var`, which is then
    /// used up, or that of a strong constraint.
    pub fn edit_variable(&mut self, var: Variable, val: Scalar) -> (r: EditRequest)
        requires
            old(self).wf(),
        ensures
            final(self).wf(),
            final(self).unreported() == old(self).unreported(),
            final(self).engine() == old(self).engine(),
            r == old(self)@.edit_request(var, val),
            final(self)@ == old(self)@.edited(var),
    {
        if engine_has_edit_variable(&self.solver, &var) {
            EditRequest { var, install: None, value: val }
        } else {
            let strength = match self.edit_strengths.remove(&var) {
                Some(s) => s,
                None => Scalar::strong(),
            };
            EditRequest { var, install: Some(strength), value: val }
        }
    }

    /// Strikes `c` from the list of each variable that is listed under it,
    /// and forgets the list of `c`.
    fn strike(&mut self, c: &Constraint)
        requires
            old(self).wf(),
        ensures
            final(self).indices_wf(),
            final(self).unreported() == old(self).unreported(),
            final(self).engine() == old(self).engine(),
            final(self)@ == (LayoutState {
                var_constraints: struck(
                    old(self)@.var_constraints,
                    *c,
                    listed(old(self)@.constraint_vars, *c),
                    listed(old(self)@.constraint_vars, *c).len() as int,
                ),
                constraint_vars: old(self)@.constraint_vars.remove(*c),
                ..old(self)@
            }),
    {
        let ghost index0 = self.by_variable();
        let ghost lists0 = self.by_constraint();
        let vars = match self.constraint_vars.remove(c) {
            Some(l) => l,
            None => Vec::new(),
        };
        assert(vars@ == listed(lists0, *c));
        assert(self.by_constraint() =~= lists0.remove(*c));
        let mut i: usize = 0;
        proof {
            assert(vars@.take(0) =~= Seq::<Variable>::empty());
            assert(self.by_variable() =~= struck(index0, *c, vars@, 0));
        }
        while i < vars.len()
            invariant
                i <= vars@.len(),
                self.indices_wf(),
                index0 == old(self)@.var_constraints,
                forall|v: Variable|
                    index0.contains_key(v) ==> (#[trigger] index0[v]).no_duplicates(),
                self.by_variable() == struck(index0, *c, vars@, i as int),
                self.by_constraint() == lists0.remove(*c),
                self.solver == old(self).solver,
                self.var_ids == old(self).var_ids,
                self.hidden_layouts == old(self).hidden_layouts,
                self.edit_strengths == old(self).edit_strengths,
                self.missing_widget_layout == old(self).missing_widget_layout,
                self.debug_constraint_list == old(self).debug_constraint_list,
                self.names == old(self).names,
                self.keeps_names == old(self).keeps_names,
            decreases vars@.len() - i,
        {
            let u = vars[i];
            let ghost before = self.by_variable();
            let ghost lists = self.by_constraint();
            proof {
                lemma_struck_step(index0, *c, vars@, i as int);
            }
            match self.var_constraints.remove(&u) {
                Some(mut list) => {
                    proof {
                        assert(before.contains_key(u));
                        assert(index0.contains_key(u));
                        assert(list@ == before[u]);
                        lemma_without(index0[u], *c);
                    }
                    remove_value(&mut list, c);
                    self.var_constraints.insert(u, list);
                    proof {
                        assert(self.by_variable() =~= before.insert(u, without(before[u], *c)));
                    }
                },
                None => {
                    proof {
                        assert(self.by_variable() =~= before);
                    }
                },
            }
            assert(self.by_constraint() == lists);
            i += 1;
        }
        assert(vars@.take(i as int) =~= vars@);
    }

    /// Drops `c` if the engine holds it: from the engine, from the ledger and
    /// from both indices. Where the engine reports an internal error, the
    /// constraint has left the engine and nothing else has changed.
    fn drop_constraint(&mut self, c: &Constraint) -> (r: Result<(), SolverError>)
        requires
            old(self).wf(),
        ensures
            final(self).wf(),
            old(self)@.thinned(final(self)@),
            !old(self)@.installed.contains(*c) ==> r is Ok,
            match r {
                Ok(()) => final(self)@ == old(self)@.drop_constraint(*c),
                Err(e) => e == SolverError::InternalSolverError,
            },
    {
        proof {
            lemma_drop_constraint(self@, *c);
            lemma_drop_constraint_wf(self@, *c);
        }
        if engine_has_constraint(&self.solver, c) {
            let answer = engine_remove_constraint(&mut self.solver, c);
            proof {
                assert(self@.var_constraints == old(self)@.var_constraints);
                assert(self@.constraint_vars == old(self)@.constraint_vars);
            }
            self.constraint_removed(c, answer)
        } else {
            Ok(())
        }
    }

    /// Gives `v` up: drops the constraints listed under it, and forgets its
    /// list and its owner.
    fn remove_variable(&mut self, v: &Variable) -> (r: Result<(), SolverError>)
        requires
            old(self).wf(),
        ensures
            final(self).wf(),
            old(self)@.thinned(final(self)@),
            old(self)@.quiet(listed(old(self)@.var_constraints, *v)) ==> r is Ok,
            match r {
                Ok(()) => final(self)@ == old(self)@.remove_variable(*v),
                Err(e) => e == SolverError::InternalSolverError,
            },
    {
        let ghost index0 = self.by_variable();
        let cs = match self.var_constraints.remove(v) {
            Some(l) => l,
            None => Vec::new(),
        };
        let ghost unlisted = self@;
        proof {
            assert(cs@ == listed(index0, *v));
            assert(self.by_variable() =~= index0.remove(*v));
            assert(self@.constraint_vars == old(self)@.constraint_vars);
            assert(unlisted == (LayoutState {
                var_constraints: old(self)@.var_constraints.remove(*v),
                ..old(self)@
            }));
            assert(unlisted.wf());
            assert(old(self)@.thinned(unlisted));
        }
        let mut i: usize = 0;
        while i < cs.len()
            invariant
                i <= cs@.len(),
                self.wf(),
                unlisted.wf(),
                old(self)@.thinned(unlisted),
                unlisted.installed == old(self)@.installed,
                cs@ == listed(old(self)@.var_constraints, *v),
                self@ == unlisted.drop_first(cs@, i as int),
            decreases cs@.len() - i,
        {
            proof {
                lemma_drop_first(unlisted, cs@, i as int);
                if unlisted.quiet(cs@) {
                    lemma_quiet_drop_first(unlisted, cs@, i as int);
                    assert(cs@.contains(cs@[i as int]));
                }
            }
            match self.drop_constraint(&cs[i]) {
                Ok(()) => {},
                Err(e) => {
                    proof {
                        lemma_thinned_twice(unlisted, unlisted.drop_first(cs@, i as int), self@);
                        lemma_thinned_twice(old(self)@, unlisted, self@);
                    }
                    return Err(e);
                },
            }
            i += 1;
        }
        proof {
            lemma_drop_first(unlisted, cs@, cs@.len() as int);
            lemma_remove_variable(old(self)@, *v);
        }
        let ghost dropped = self@;
        self.var_ids.remove(v);
        proof {
            assert(self@.var_constraints == dropped.var_constraints);
            assert(self@.constraint_vars == dropped.constraint_vars);
        }
        Ok(())
    }

    /// Takes a widget out: every constraint listed under one of its four
    /// own variables leaves the engine, the ledger and the indices if the
    /// engine holds it, and the four variables lose their lists and their
    /// owner. Afterwards none of those constraints is in the engine. Where
    /// the engine reports an internal error the work ends at once; what was
    /// dropped until then stays dropped.
    pub fn remove_widget(&mut self, widget_vars: &LayoutVars) -> (r: Result<(), SolverError>)
        requires
            old(self).wf(),
        ensures
            final(self).wf(),
            old(self)@.thinned(final(self)@),
            old(self)@.quiet(old(self)@.widget_constraints(*widget_vars)) ==> r is Ok,
            match r {
                Ok(()) => {
                    &&& final(self)@ == old(self)@.remove_widget(*widget_vars)
                    &&& final(self)@.var_ids == old(self)@.var_ids.remove_keys(
                        widget_vars.own().to_set(),
                    )
                    &&& forall|i: int|
                        0 <= i < 4 ==> {
                            let v = #[trigger] widget_vars.own()[i];
                            &&& !final(self)@.var_constraints.contains_key(v)
                            &&& !final(self)@.var_ids.contains_key(v)
                            &&& final(self)@.cleared(old(self)@, v)
                        }
                },
                Err(e) => e == SolverError::InternalSolverError,
            },
    {
        proof {
            lemma_remove_widget(self@, *widget_vars);
            if self@.quiet(self@.widget_constraints(*widget_vars)) {
                lemma_quiet_remove_widget(self@, *widget_vars);
            }
        }
        let ghost s0 = self@;
        match self.remove_variable(&widget_vars.left) {
            Ok(()) => {},
            Err(e) => {
                return Err(e);
            },
        }
        let ghost s1 = self@;
        match self.remove_variable(&widget_vars.top) {
            Ok(()) => {},
            Err(e) => {
                proof {
                    lemma_thinned_twice(s0, s1, self@);
                }
                return Err(e);
            },
        }
        let ghost s2 = self@;
        proof {
            lemma_thinned_twice(s0, s1, s2);
        }
        match self.remove_variable(&widget_vars.width) {
            Ok(()) => {},
            Err(e) => {
                proof {
                    lemma_thinned_twice(s0, s2, self@);
                }
                return Err(e);
            },
        }
        let ghost s3 = self@;
        proof {
            lemma_thinned_twice(s0, s2, s3);
        }
        match self.remove_variable(&widget_vars.height) {
            Ok(()) => {},
            Err(e) => {
                proof {
                    lemma_thinned_twice(s0, s3, self@);
                }
                return Err(e);
            },
        }
        Ok(())
    }

    /// Adds to `out` the constraints listed under `v`.
    fn listed_under(&self, v: &Variable, out: &mut Vec<Constraint>)
        requires
            self.indices_wf(),
        ensures
            final(out)@ == old(out)@ + listed(self@.var_constraints, *v),
    {
        match self.var_constraints.get(v) {
            Some(list) => {
                let mut i: usize = 0;
                while i < list.len()
                    invariant
                        i <= list@.len(),
                        out@ == old(out)@ + list@.take(i as int),
                    decreases list@.len() - i,
                {
                    out.push(list[i].clone());
                    proof {
                        assert(list@.take(i + 1) =~= list@.take(i as int).push(list@[i as int]));
                    }
                    i += 1;
                }
                proof {
                    assert(list@.take(i as int) =~= list@);
                }
            },
            None => {
                proof {
                    assert(out@ + Seq::<Constraint>::empty() =~= out@);
                }
            },
        }
    }

    /// Takes out of the engine each of `cs` that it holds.
    fn uninstall_all(&mut self, cs: &Vec<Constraint>) -> (r: Result<(), SolverError>)
        ensures
            final(self).indices_wf() == old(self).indices_wf(),
            old(self)@.lost(cs@, final(self)@),
            old(self)@.quiet(cs@) ==> r is Ok,
            match r {
                Ok(()) => final(self)@.installed == old(self)@.installed.difference(cs@.to_set()),
                Err(e) => e == SolverError::InternalSolverError,
            },
    {
        let mut i: usize = 0;
        proof {
            assert(cs@.take(0) =~= Seq::<Constraint>::empty());
            assert(self@.installed =~= old(self)@.installed.difference(cs@.take(0).to_set()));
        }
        while i < cs.len()
            invariant
                i <= cs@.len(),
                self@.installed == old(self)@.installed.difference(cs@.take(i as int).to_set()),
                self.var_constraints == old(self).var_constraints,
                self.constraint_vars == old(self).constraint_vars,
                self.var_ids == old(self).var_ids,
                self.hidden_layouts == old(self).hidden_layouts,
                self.edit_strengths == old(self).edit_strengths,
                self.missing_widget_layout == old(self).missing_widget_layout,
                self.debug_constraint_list == old(self).debug_constraint_list,
                self.names == old(self).names,
                self.keeps_names == old(self).keeps_names,
                edit_variables(self.solver) == edit_variables(old(self).solver),
            decreases cs@.len() - i,
        {
            let ghost before = self@.installed;
            proof {
                assert(cs@.contains(cs@[i as int]));
            }
            if engine_has_constraint(&self.solver, &cs[i]) {
                match engine_remove_constraint(&mut self.solver, &cs[i]) {
                    Ok(()) => {},
                    Err(e) => {
                        proof {
                            assert forall|x: Constraint| cs@.take(i as int).to_set().contains(
                                x,
                            ) implies cs@.to_set().contains(x) by {
                                let k = cs@.take(i as int).index_of(x);
                                assert(cs@.take(i as int)[k] == x);
                                assert(cs@[k] == x);
                            }
                            assert(cs@.to_set().contains(cs@[i as int]));
                        }
                        return Err(e);
                    },
                }
            }
            proof {
                lemma_take_step(cs@, i as int);
                assert(self@.installed =~= before.remove(cs@[i as int]));
                assert(self@.installed =~= old(self)@.installed.difference(
                    cs@.take(i + 1).to_set(),
                ));
            }
            i += 1;
        }
        proof {
            assert(cs@.take(i as int) =~= cs@);
        }
        Ok(())
    }

    /// Puts into the engine each of `cs` that it does not hold.
    fn install_all(&mut self, cs: &Vec<Constraint>) -> (r: Result<(), SolverError>)
        ensures
            final(self).indices_wf() == old(self).indices_wf(),
            old(self)@.gained(cs@, final(self)@),
            cs@.to_set().subset_of(old(self)@.installed) ==> r is Ok,
            match r {
                Ok(()) => final(self)@.installed == old(self)@.installed.union(cs@.to_set()),
                Err(e) => e == SolverError::UnsatisfiableConstraint || e
                    == SolverError::InternalSolverError,
            },
    {
        let mut i: usize = 0;
        proof {
            assert(cs@.take(0) =~= Seq::<Constraint>::empty());
            assert(self@.installed =~= old(self)@.installed.union(cs@.take(0).to_set()));
        }
        while i < cs.len()
            invariant
                i <= cs@.len(),
                self@.installed == old(self)@.installed.union(cs@.take(i as int).to_set()),
                self.var_constraints == old(self).var_constraints,
                self.constraint_vars == old(self).constraint_vars,
                self.var_ids == old(self).var_ids,
                self.hidden_layouts == old(self).hidden_layouts,
                self.edit_strengths == old(self).edit_strengths,
                self.missing_widget_layout == old(self).missing_widget_layout,
                self.debug_constraint_list == old(self).debug_constraint_list,
                self.names == old(self).names,
                self.keeps_names == old(self).keeps_names,
                edit_variables(self.solver) == edit_variables(old(self).solver),
            decreases cs@.len() - i,
        {
            let ghost before = self@.installed;
            proof {
                lemma_take_step(cs@, i as int);
                assert(cs@.to_set().contains(cs@[i as int]));
            }
            if !engine_has_constraint(&self.solver, &cs[i]) {
                match engine_add_constraint(&mut self.solver, &cs[i]) {
                    Ok(()) => {},
                    Err(e) => {
                        proof {
                            assert(cs@.to_set().contains(cs@[i as int]));
                            assert forall|x: Constraint| cs@.take(i as int).to_set().contains(
                                x,
                            ) implies cs@.to_set().contains(x) by {
                                let k = cs@.take(i as int).index_of(x);
                                assert(cs@.take(i as int)[k] == x);
                                assert(cs@[k] == x);
                            }
                        }
                        return Err(e);
                    },
                }
            }
            proof {
                assert(self@.installed =~= before.insert(cs@[i as int]));
                assert(self@.installed =~= old(self)@.installed.union(cs@.take(i + 1).to_set()));
            }
            i += 1;
        }
        proof {
            assert(cs@.take(i as int) =~= cs@);
        }
        Ok(())
    }

    /// Hides a widget: every constraint listed under one of its four own
    /// variables leaves the engine if the engine holds it, and all of them
    /// are kept for the widget, in the order of the lists. The indices stay
    /// as they are. Hiding a hidden widget does nothing. Where the engine
    /// reports an internal error the work ends at once and nothing is kept.
    pub fn hide_widget(&mut self, id: LayoutId, vars: &LayoutVars) -> (r: Result<(), SolverError>)
        requires
            old(self).wf(),
        ensures
            final(self).wf(),
            old(self)@.hidden.contains_key(id) || old(self)@.quiet(
                old(self)@.widget_constraints(*vars),
            ) ==> r is Ok,
            match r {
                Ok(()) => final(self)@ == old(self)@.hide_widget(id, *vars),
                Err(e) => e == SolverError::InternalSolverError && old(self)@.lost(
                    old(self)@.widget_constraints(*vars),
                    final(self)@,
                ),
            },
    {
        if !self.hidden_layouts.contains_key(&id) {
            let mut constraints: Vec<Constraint> = Vec::new();
            self.listed_under(&vars.left, &mut constraints);
            self.listed_under(&vars.top, &mut constraints);
            self.listed_under(&vars.width, &mut constraints);
            self.listed_under(&vars.height, &mut constraints);
            proof {
                assert(constraints@ =~= self@.widget_constraints(*vars));
            }
            match self.uninstall_all(&constraints) {
                Ok(()) => {},
                Err(e) => {
                    return Err(e);
                },
            }
            let ghost kept0 = self.kept();
            self.hidden_layouts.insert(id, constraints);
            proof {
                assert(self.kept() =~= kept0.insert(id, constraints@));
                assert(self@.var_constraints == old(self)@.var_constraints);
                assert(self@.constraint_vars == old(self)@.constraint_vars);
            }
        }
        Ok(())
    }

    /// Shows a hidden widget again: each constraint kept for it enters the
    /// engine unless the engine holds it, and nothing is kept for the widget
    /// any more. The indices stay as they are. Showing a widget that is not
    /// hidden does nothing. Where the engine refuses a constraint the work
    /// ends at once: the constraints before it are in the engine, and
    /// nothing is kept for the widget.
    pub fn unhide_widget(&mut self, id: LayoutId) -> (r: Result<(), SolverError>)
        requires
            old(self).wf(),
        ensures
            final(self).wf(),
            !old(self)@.hidden.contains_key(id) || old(self)@.hidden[id].to_set().subset_of(
                old(self)@.installed,
            ) ==> r is Ok,
            match r {
                Ok(()) => final(self)@ == old(self)@.unhide_widget(id),
                Err(e) => {
                    &&& e == SolverError::UnsatisfiableConstraint || e
                        == SolverError::InternalSolverError
                    &&& old(self)@.hidden.contains_key(id)
                    &&& (LayoutState {
                        hidden: old(self)@.hidden.remove(id),
                        ..old(self)@
                    }).gained(old(self)@.hidden[id], final(self)@)
                },
            },
    {
        let ghost kept0 = self.kept();
        match self.hidden_layouts.remove(&id) {
            Some(constraints) => {
                proof {
                    assert(self.kept() =~= kept0.remove(id));
                    assert(constraints@ == kept0[id]);
                    assert(self@.var_constraints == old(self)@.var_constraints);
                    assert(self@.constraint_vars == old(self)@.constraint_vars);
                }
                let r = self.install_all(&constraints);
                proof {
                    assert(self@.var_constraints == old(self)@.var_constraints);
                    assert(self@.constraint_vars == old(self)@.constraint_vars);
                }
                r
            },
            None => {
                proof {
                    assert(self.kept() =~= kept0);
                }
                Ok(())
            },
        }
    }

    /// Whether `after` and `changes` are what may come of a harvest in this
    /// state: the engine reports each variable with an unreported change
    /// once, the report is routed, and no change is left unreported. Where
    /// no change was unreported, nothing is returned and nothing changes.
    pub open spec fn harvest(
        &self,
        after: LimnSolver,
        changes: Seq<(LayoutId, Variable, Scalar)>,
    ) -> bool {
        &&& after.unreported() == Set::<Variable>::empty()
        &&& exists|raw: Seq<(Variable, Scalar)>|
            {
                &&& reports(raw, self.unreported())
                &&& changes == routed(self@.var_ids, raw, raw.len() as int)
                &&& after@ == #[trigger] self@.harvested(raw)
            }
        &&& self.unreported() == Set::<Variable>::empty() ==> changes.len() == 0 && after@
            == self@
    }

    /// Takes in a report of the engine. Each change whose variable belongs
    /// to a widget is returned with that widget, in the order of the report;
    /// the value of each other change is kept for the variable, until a
    /// widget registers with it.
    pub fn route_changes(&mut self, raw: Vec<(Variable, Scalar)>) -> (r: Vec<
        (LayoutId, Variable, Scalar),
    >)
        requires
            old(self).wf(),
        ensures
            final(self).wf(),
            final(self).unreported() == old(self).unreported(),
            final(self).engine() == old(self).engine(),
            r@ == routed(old(self)@.var_ids, raw@, raw@.len() as int),
            final(self)@ == (LayoutState {
                deferred: deferred(
                    old(self)@.deferred,
                    old(self)@.var_ids,
                    raw@,
                    raw@.len() as int,
                ),
                ..old(self)@
            }),
    {
        let mut changes: Vec<(LayoutId, Variable, Scalar)> = Vec::new();
        let mut i: usize = 0;
        while i < raw.len()
            invariant
                i <= raw@.len(),
                self.wf(),
                changes@ == routed(old(self)@.var_ids, raw@, i as int),
                self.missing_widget_layout@ == deferred(
                    old(self)@.deferred,
                    old(self)@.var_ids,
                    raw@,
                    i as int,
                ),
                self.solver == old(self).solver,
                self.var_constraints == old(self).var_constraints,
                self.constraint_vars == old(self).constraint_vars,
                self.var_ids == old(self).var_ids,
                self.hidden_layouts == old(self).hidden_layouts,
                self.edit_strengths == old(self).edit_strengths,
                self.debug_constraint_list == old(self).debug_constraint_list,
                self.names == old(self).names,
                self.keeps_names == old(self).keeps_names,
            decreases raw@.len() - i,
        {
            let (var, val) = raw[i];
            match self.var_ids.get(&var) {
                Some(widget_id) => {
                    changes.push((*widget_id, var, val));
                },
                None => {
                    let ghost before = *self;
                    self.missing_widget_layout.insert(var, val);
                    proof {
                        assert(self@.var_constraints == before@.var_constraints);
                        assert(self@.constraint_vars == before@.constraint_vars);
                    }
                },
            }
            i += 1;
        }
        changes
    }

    /// Harvests the engine's changes: takes its report of the variables
    /// whose value has changed since the last harvest, and routes it. The
    /// report names each variable with an unreported change once; after the
    /// harvest no change is unreported, so a second harvest with nothing
    /// done in between returns nothing and changes nothing.
    pub fn fetch_changes(&mut self) -> (r: Vec<(LayoutId, Variable, Scalar)>)
        requires
            old(self).wf(),
        ensures
            final(self).wf(),
            old(self).harvest(*final(self), r@),
    {
        let raw = engine_fetch_changes(&mut self.solver);
        proof {
            assert(self@.var_constraints == old(self)@.var_constraints);
            assert(self@.constraint_vars == old(self)@.constraint_vars);
            assert(self@ == old(self)@);
            assert(reports(raw@, old(self).unreported()));
            if old(self).unreported() == Set::<Variable>::empty() {
                if raw@.len() > 0 {
                    assert(old(self).unreported().contains(raw@[0].0));
                }
            }
        }
        let ghost report = raw@;
        let r = self.route_changes(raw);
        proof {
            assert(self@ == old(self)@.harvested(report));
            if report.len() == 0 {
                assert(self@.deferred == old(self)@.deferred);
                assert(self@ == old(self)@);
            }
        }
        r
    }

    /// Names `var` by the widget's name and an edge.
    fn label(&mut self, var: Variable, name: &String, edge: &str)
        requires
            old(self).indices_wf(),
        ensures
            final(self).indices_wf(),
            texts(final(self).names) == texts(old(self).names).insert(var, name@ + edge@),
            final(self).solver == old(self).solver,
            final(self).var_constraints == old(self).var_constraints,
            final(self).constraint_vars == old(self).constraint_vars,
            final(self).var_ids == old(self).var_ids,
            final(self).hidden_layouts == old(self).hidden_layouts,
            final(self).edit_strengths == old(self).edit_strengths,
            final(self).missing_widget_layout == old(self).missing_widget_layout,
            final(self).debug_constraint_list == old(self).debug_constraint_list,
            final(self).keeps_names == old(self).keeps_names,
    {
        let mut text = name.clone();
        text.append(edge);
        self.names.insert(var, text);
        proof {
            assert(texts(self.names) =~= texts(old(self).names).insert(var, name@ + edge@));
        }
    }

    /// Registers a widget. Its four own variables belong to it from now on.
    /// Each field of `bounds` takes the value that was deferred for its
    /// variable, if there is one, and else keeps its own; the values
    /// deferred for the widget's six variables are used up. Where names are
    /// kept and the widget has one, its six variables are named after it.
    /// Then the declaration is taken in as by `update_from_builder`.
    pub fn add_widget(
        &mut self,
        id: LayoutId,
        name: &Option<String>,
        layout: LayoutBuilder,
        bounds: &mut Rect,
    ) -> (r: Result<Vec<EditRequest>, IngestError>)
        requires
            old(self).wf(),
        ensures
            final(self).wf(),
            *final(bounds) == old(self)@.seeded_bounds(layout.vars, *old(bounds)),
            old(self)@.registered(id, layout.vars).claimed(layout.vars).labelled(
                layout.vars,
                match name {
                    Some(n) => Some(n@),
                    None => None,
                },
            ).declared(layout.edit_vars@, layout.constraints@, r, final(self)@),
    {
        let vars = layout.vars;
        self.var_ids.insert(vars.left, id);
        self.var_ids.insert(vars.top, id);
        self.var_ids.insert(vars.width, id);
        self.var_ids.insert(vars.height, id);
        match self.missing_widget_layout.remove(&vars.left) {
            Some(x) => {
                bounds.origin.x = x;
            },
            None => {},
        }
        match self.missing_widget_layout.remove(&vars.top) {
            Some(y) => {
                bounds.origin.y = y;
            },
            None => {},
        }
        match self.missing_widget_layout.remove(&vars.width) {
            Some(width) => {
                bounds.size.width = width;
            },
            None => {},
        }
        match self.missing_widget_layout.remove(&vars.height) {
            Some(height) => {
                bounds.size.height = height;
            },
            None => {},
        }
        self.missing_widget_layout.remove(&vars.right);
        self.missing_widget_layout.remove(&vars.bottom);
        proof {
            assert(self@.var_constraints == old(self)@.var_constraints);
            assert(self@.constraint_vars == old(self)@.constraint_vars);
            assert(self@ == old(self)@.registered(id, vars).claimed(vars));
        }
        let ghost claimed = self@;
        if self.keeps_names {
            match name {
                Some(n) => {
                    self.label(vars.left, n, ".left");
                    self.label(vars.top, n, ".top");
                    self.label(vars.right, n, ".right");
                    self.label(vars.bottom, n, ".bottom");
                    self.label(vars.width, n, ".width");
                    self.label(vars.height, n, ".height");
                },
                None => {},
            }
        }
        proof {
            assert(self@.var_constraints == claimed.var_constraints);
            assert(self@.constraint_vars == claimed.constraint_vars);
            assert(self@ == claimed.labelled(
                vars,
                match name {
                    Some(n) => Some(n@),
                    None => None,
                },
            ));
        }
        self.update_from_builder(layout)
    }

    /// The lines that describe the constraints: a heading, then the text
    /// of each constraint of the ledger, the one added longest ago first.
    pub fn debug_constraints(&self) -> (r: Vec<String>)
        requires
            self.wf(),
        ensures
            r@.len() == self@.ledger.len() + 1,
            r@[0]@ == "CONSTRAINTS"@,
            forall|i: int|
                0 <= i < self@.ledger.len() ==> (#[trigger] r@[i + 1])@ == constraint_text(
                    self@.known_names(),
                    constraint_parts(self@.ledger[i]),
                ),
    {
        let none: VarNames = AssocList::new();
        let table: &VarNames = if self.keeps_names {
            &self.names
        } else {
            &none
        };
        proof {
            assert(texts(none) =~= Map::<Variable, Seq<char>>::empty());
            assert(texts(*table) == self@.known_names());
        }
        let ledger = ledger_list(&self.debug_constraint_list);
        let mut lines: Vec<String> = Vec::new();
        lines.push(String::from_str("CONSTRAINTS"));
        let mut i: usize = 0;
        while i < ledger.len()
            invariant
                i <= ledger@.len(),
                table.wf(),
                lines@.len() == i + 1,
                lines@[0]@ == "CONSTRAINTS"@,
                forall|k: int|
                    0 <= k < i ==> (#[trigger] lines@[k + 1])@ == constraint_text(
                        texts(*table),
                        constraint_parts(ledger@[k]),
                    ),
            decreases ledger@.len() - i,
        {
            let line = fmt_constraint(table, &ledger[i]);
            lines.push(line);
            i += 1;
        }
        lines
    }

    /// The lines that describe the variables: a heading, then for each
    /// variable with a name, in the order of variables, the name and the
    /// value that the engine has for it.
    pub fn debug_variables(&mut self) -> (r: Vec<String>)
        requires
            old(self).wf(),
        ensures
            *final(self) == *old(self),
            r@.len() >= 1,
            r@[0]@ == "VARIABLES"@,
            exists|order: Seq<Variable>|
                {
                    &&& #[trigger] ordered(order)
                    &&& forall|v: Variable|
                        order.contains(v) <==> old(self)@.known_names().contains_key(v)
                    &&& r@.len() == order.len() + 1
                    &&& forall|i: int|
                        0 <= i < order.len() ==> (#[trigger] r@[i + 1])@ == old(
                            self,
                        )@.known_names()[order[i]] + " = "@ + value_text(
                            old(self).engine(),
                            order[i],
                        )
                },
    {
        let mut lines: Vec<String> = Vec::new();
        lines.push(String::from_str("VARIABLES"));
        if !self.keeps_names {
            proof {
                let order = Seq::<Variable>::empty();
                assert(ordered(order));
            }
            return lines;
        }
        proof {
            self.names.lemma_key_seq();
        }
        let order = sorted_variables(self.names.keys());
        let mut i: usize = 0;
        while i < order.len()
            invariant
                i <= order@.len(),
                self.names.wf(),
                forall|v: Variable| order@.contains(v) <==> texts(self.names).contains_key(v),
                lines@.len() == i + 1,
                lines@[0]@ == "VARIABLES"@,
                forall|k: int|
                    0 <= k < i ==> (#[trigger] lines@[k + 1])@ == texts(self.names)[order@[k]]
                        + " = "@ + value_text(self.solver, order@[k]),
            decreases order@.len() - i,
        {
            let variable = order[i];
            assert(order@.contains(variable));
            match self.names.get(&variable) {
                Some(name) => {
                    let mut line = name.clone();
                    line.append(" = ");
                    let value = engine_value_text(&self.solver, &variable);
                    line.append(value.as_str());
                    lines.push(line);
                },
                None => {
                    assert(false);
                },
            }
            i += 1;
        }
        lines
    }
}

/// Whether one of `reqs` is for `var`.
fn requested(reqs: &Vec<EditRequest>, var: &Variable) -> (r: bool)
    ensures
        r == asked(reqs@, *var),
{
    let mut i: usize = 0;
    while i < reqs.len()
        invariant
            i <= reqs@.len(),
            forall|k: int| 0 <= k < i ==> (#[trigger] reqs@[k]).var != *var,
        decreases reqs@.len() - i,
    {
        if reqs[i].var.same(var) {
            return true;
        }
        i += 1;
    }
    false
}

} // verus!
