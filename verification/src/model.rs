//! The solver's state as mathematics, and what each operation makes of it.

use vstd::prelude::*;
use cassowary::{Constraint, Variable};
use crate::engine::{constraint_variables, IngestError, SolverError};
use crate::layout::{EditRequest, EditVariable, LayoutId, LayoutVars, Rect, Point, Size};
use crate::scalar::{Scalar, STRONG_BITS};
use crate::seqs::{lemma_take_step, lemma_with, lemma_without, with, without};

verus! {

/// The list that `m` holds for `k`; empty where it holds none.
pub open spec fn listed<K, T>(m: Map<K, Seq<T>>, k: K) -> Seq<T> {
    if m.contains_key(k) {
        m[k]
    } else {
        Seq::empty()
    }
}

/// The index of constraints by variable, after `c` has been entered under
/// the first `n` of `vars`.
pub open spec fn entered(
    index: Map<Variable, Seq<Constraint>>,
    c: Constraint,
    vars: Seq<Variable>,
    n: int,
) -> Map<Variable, Seq<Constraint>> {
    Map::new(
        |u: Variable| index.contains_key(u) || vars.take(n).contains(u),
        |u: Variable|
            if vars.take(n).contains(u) {
                with(listed(index, u), c)
            } else {
                index[u]
            },
    )
}

/// The index of constraints by variable, after `c` has been struck under
/// the first `n` of `vars`.
pub open spec fn struck(
    index: Map<Variable, Seq<Constraint>>,
    c: Constraint,
    vars: Seq<Variable>,
    n: int,
) -> Map<Variable, Seq<Constraint>> {
    Map::new(
        |u: Variable| index.contains_key(u),
        |u: Variable|
            if vars.take(n).contains(u) {
                without(index[u], c)
            } else {
                index[u]
            },
    )
}

/// Whether one of the first `n` directives suggests a value for `var`.
pub open spec fn suggested(directives: Seq<EditVariable>, n: int, var: Variable) -> bool {
    exists|j: int| 0 <= j < n && j < directives.len() && (#[trigger] directives[j]).var == var && directives[j].val is Some
}

/// The suggestions that the first `n` directives ask for, given the edit
/// variables that the engine knows. A variable is to be installed by the
/// first directive that suggests a value for it, with that directive's
/// strength, unless the engine knows it.
pub open spec fn requests(edits: Set<Variable>, directives: Seq<EditVariable>, n: int) -> Seq<
    EditRequest,
>
    decreases n,
{
    if n <= 0 || n > directives.len() {
        Seq::empty()
    } else {
        let before = requests(edits, directives, n - 1);
        let d = directives[n - 1];
        match d.val {
            Some(value) => before.push(
                EditRequest {
                    var: d.var,
                    install: if edits.contains(d.var) || suggested(directives, n - 1, d.var) {
                        None
                    } else {
                        Some(d.strength)
                    },
                    value,
                },
            ),
            None => before,
        }
    }
}

/// The cached strengths after the first `n` directives: each directive
/// without a value leaves its strength for its variable.
pub open spec fn strengths(
    cache: Map<Variable, Scalar>,
    directives: Seq<EditVariable>,
    n: int,
) -> Map<Variable, Scalar>
    decreases n,
{
    if n <= 0 || n > directives.len() {
        cache
    } else {
        let before = strengths(cache, directives, n - 1);
        let d = directives[n - 1];
        match d.val {
            Some(_) => before,
            None => before.insert(d.var, d.strength),
        }
    }
}

/// The changes among the first `n` of `raw` whose variable belongs to a
/// widget, each with its widget.
pub open spec fn routed(
    owners: Map<Variable, LayoutId>,
    raw: Seq<(Variable, Scalar)>,
    n: int,
) -> Seq<(LayoutId, Variable, Scalar)>
    decreases n,
{
    if n <= 0 || n > raw.len() {
        Seq::empty()
    } else {
        let before = routed(owners, raw, n - 1);
        let (var, value) = raw[n - 1];
        if owners.contains_key(var) {
            before.push((owners[var], var, value))
        } else {
            before
        }
    }
}

/// The deferred values after the first `n` of `raw`: each change whose
/// variable belongs to no widget leaves its value for that variable.
pub open spec fn deferred(
    cache: Map<Variable, Scalar>,
    owners: Map<Variable, LayoutId>,
    raw: Seq<(Variable, Scalar)>,
    n: int,
) -> Map<Variable, Scalar>
    decreases n,
{
    if n <= 0 || n > raw.len() {
        cache
    } else {
        let before = deferred(cache, owners, raw, n - 1);
        let (var, value) = raw[n - 1];
        if owners.contains_key(var) {
            before
        } else {
            before.insert(var, value)
        }
    }
}

/// Whether `raw` names each of `pending` once, and no other variable.
pub open spec fn reports(raw: Seq<(Variable, Scalar)>, pending: Set<Variable>) -> bool {
    &&& forall|i: int| 0 <= i < raw.len() ==> pending.contains(#[trigger] raw[i].0)
    &&& forall|v: Variable|
        pending.contains(v) ==> exists|i: int| 0 <= i < raw.len() && #[trigger] raw[i].0 == v
    &&& forall|i: int, j: int| 0 <= i < j < raw.len() ==> raw[i].0 != raw[j].0
}

/// The value that a deferred-value cache gives a field: the cached one, or
/// the field's own where none is cached.
pub open spec fn seeded(cache: Map<Variable, Scalar>, var: Variable, own: Scalar) -> Scalar {
    if cache.contains_key(var) {
        cache[var]
    } else {
        own
    }
}

/// The state of the solver: what the engine holds, and the indices over it.
pub struct LayoutState {
    /// The constraints installed in the engine.
    pub installed: Set<Constraint>,
    /// The edit variables installed in the engine.
    pub edit_variables: Set<Variable>,
    /// For each variable, the constraints that touch it.
    pub var_constraints: Map<Variable, Seq<Constraint>>,
    /// For each constraint, the variables that it touches.
    pub constraint_vars: Map<Constraint, Seq<Variable>>,
    /// For each variable, the widget that owns it.
    pub var_ids: Map<Variable, LayoutId>,
    /// For each hidden widget, the constraints taken out of the engine.
    pub hidden: Map<LayoutId, Seq<Constraint>>,
    /// The strengths declared for variables that may be edited later.
    pub edit_strengths: Map<Variable, Scalar>,
    /// The values solved for variables that no widget owned at the time.
    pub deferred: Map<Variable, Scalar>,
    /// The constraints added and not removed, in the order of their adding.
    pub ledger: Seq<Constraint>,
    /// The names of variables, where names are kept.
    pub names: Option<Map<Variable, Seq<char>>>,
}

impl LayoutState {
    /// The indices agree with each other: no list holds a constraint twice,
    /// and a constraint listed under a variable lists that variable.
    pub open spec fn wf(self) -> bool {
        &&& self.ledger.no_duplicates()
        &&& forall|v: Variable|
            self.var_constraints.contains_key(v) ==> (#[trigger] self.var_constraints[v]).no_duplicates()
        &&& forall|v: Variable, c: Constraint|
            self.var_constraints.contains_key(v) && #[trigger] self.var_constraints[v].contains(c)
                ==> self.constraint_vars.contains_key(c) && self.constraint_vars[c].contains(v)
    }

    /// The names that are known: those of the table, or none where no
    /// names are kept.
    pub open spec fn known_names(self) -> Map<Variable, Seq<char>> {
        match self.names {
            Some(table) => table,
            None => Map::empty(),
        }
    }

    /// The state of a solver to which nothing has been added.
    pub open spec fn initial(names: Option<Map<Variable, Seq<char>>>) -> LayoutState {
        LayoutState {
            installed: Set::empty(),
            edit_variables: Set::empty(),
            var_constraints: Map::empty(),
            constraint_vars: Map::empty(),
            var_ids: Map::empty(),
            hidden: Map::empty(),
            edit_strengths: Map::empty(),
            deferred: Map::empty(),
            ledger: Seq::empty(),
            names,
        }
    }

    /// The constraints listed under the widget's four own variables, one
    /// variable after the other. A constraint that touches two of them is
    /// listed twice.
    pub open spec fn widget_constraints(self, vars: LayoutVars) -> Seq<Constraint> {
        listed(self.var_constraints, vars.left) + listed(self.var_constraints, vars.top) + listed(
            self.var_constraints,
            vars.width,
        ) + listed(self.var_constraints, vars.height)
    }

    /// The state once `c` has entered the engine: it is the ledger's most
    /// recent constraint and is listed under each variable of its terms.
    pub open spec fn index_constraint(self, c: Constraint) -> LayoutState {
        LayoutState { installed: self.installed.insert(c), ..self.record_constraint(c) }
    }

    /// The state once the first `n` of `cs` have entered the engine.
    pub open spec fn ingested(self, cs: Seq<Constraint>, n: int) -> LayoutState
        decreases n,
    {
        if n <= 0 || n > cs.len() {
            self
        } else {
            self.ingested(cs, n - 1).index_constraint(cs[n - 1])
        }
    }

    /// Whether `after` is a state in which the engine may leave the solver
    /// when it answers `cause` to the attempt to add `c`. A constraint that
    /// the engine holds is refused as a duplicate, and no other is; a
    /// refusal leaves everything as it was, except that after an internal
    /// error the engine may hold the constraint.
    pub open spec fn refused(self, c: Constraint, cause: SolverError, after: LayoutState) -> bool {
        match cause {
            SolverError::DuplicateConstraint => self.installed.contains(c) && after == self,
            SolverError::UnsatisfiableConstraint => !self.installed.contains(c) && after == self,
            SolverError::InternalSolverError => !self.installed.contains(c) && (after == self
                || after == (LayoutState { installed: self.installed.insert(c), ..self })),
            SolverError::UnknownConstraint => false,
        }
    }

    /// The state once the strengths of the directives without a value are cached.
    pub open spec fn directed(self, directives: Seq<EditVariable>) -> LayoutState {
        LayoutState {
            edit_strengths: strengths(self.edit_strengths, directives, directives.len() as int),
            ..self
        }
    }

    /// The suggestion to make when `value` is wanted for `var`: the engine is
    /// first told of the variable if it does not know it, with the cached
    /// strength, or with that of a strong constraint where none is cached.
    pub open spec fn edit_request(self, var: Variable, value: Scalar) -> EditRequest {
        EditRequest {
            var,
            install: if self.edit_variables.contains(var) {
                None
            } else if self.edit_strengths.contains_key(var) {
                Some(self.edit_strengths[var])
            } else {
                Some(Scalar { bits: STRONG_BITS })
            },
            value,
        }
    }

    /// The state once a suggestion for `var` has been asked for: a cached
    /// strength is used up where the engine did not know the variable.
    pub open spec fn edited(self, var: Variable) -> LayoutState {
        if self.edit_variables.contains(var) {
            self
        } else {
            LayoutState { edit_strengths: self.edit_strengths.remove(var), ..self }
        }
    }

    /// Whether `after` may come of this state by constraints leaving the
    /// engine and entries leaving the indices: nothing enters the engine;
    /// a constraint leaves a variable's list only if it has left the
    /// engine; no owner changes; the hidden widgets, the caches, the names
    /// and the edit variables stay.
    pub open spec fn thinned(self, after: LayoutState) -> bool {
        &&& after.installed.subset_of(self.installed)
        &&& forall|u: Variable, c: Constraint|
            self.var_constraints.contains_key(u) && after.var_constraints.contains_key(u)
                && #[trigger] self.var_constraints[u].contains(c) ==> after.var_constraints[u].contains(
                c,
            ) || !after.installed.contains(c)
        &&& after.var_constraints.dom().subset_of(self.var_constraints.dom())
        &&& forall|k: Variable| #[trigger]
            after.var_ids.contains_key(k) ==> self.var_ids.contains_key(k) && after.var_ids[k]
                == self.var_ids[k]
        &&& after.hidden == self.hidden
        &&& after.edit_strengths == self.edit_strengths
        &&& after.deferred == self.deferred
        &&& after.names == self.names
        &&& after.edit_variables == self.edit_variables
    }

    /// Whether none of `cs` is in the engine.
    pub open spec fn quiet(self, cs: Seq<Constraint>) -> bool {
        forall|c: Constraint| #[trigger] cs.contains(c) ==> !self.installed.contains(c)
    }

    /// The state once `c`, which has entered the engine, is entered in the
    /// ledger and in both indices.
    pub open spec fn record_constraint(self, c: Constraint) -> LayoutState {
        let vars = constraint_variables(c);
        LayoutState {
            ledger: without(self.ledger, c).push(c),
            constraint_vars: self.constraint_vars.insert(c, listed(self.constraint_vars, c) + vars),
            var_constraints: entered(self.var_constraints, c, vars, vars.len() as int),
            ..self
        }
    }

    /// The state once `c`, which has left the engine, is struck from the
    /// ledger and from both indices.
    pub open spec fn strike_constraint(self, c: Constraint) -> LayoutState {
        let vars = listed(self.constraint_vars, c);
        LayoutState {
            ledger: without(self.ledger, c),
            var_constraints: struck(self.var_constraints, c, vars, vars.len() as int),
            constraint_vars: self.constraint_vars.remove(c),
            ..self
        }
    }

    /// Whether none of the constraints that `before` lists under `v` is in
    /// the engine.
    pub open spec fn cleared(self, before: LayoutState, v: Variable) -> bool {
        forall|c: Constraint|
            #[trigger] listed(before.var_constraints, v).contains(c) ==> !self.installed.contains(c)
    }

    /// The state once `c` has been dropped: if the engine held it, it has
    /// left the engine, the ledger and both indices; else nothing changes.
    pub open spec fn drop_constraint(self, c: Constraint) -> LayoutState {
        if self.installed.contains(c) {
            LayoutState { installed: self.installed.remove(c), ..self.strike_constraint(c) }
        } else {
            self
        }
    }

    /// The state once the first `n` of `cs` have been dropped.
    pub open spec fn drop_first(self, cs: Seq<Constraint>, n: int) -> LayoutState
        decreases n,
    {
        if n <= 0 || n > cs.len() {
            self
        } else {
            self.drop_first(cs, n - 1).drop_constraint(cs[n - 1])
        }
    }

    /// The state once `v` has been given up: the constraints listed under it
    /// are dropped, and it has neither a list nor an owner.
    pub open spec fn remove_variable(self, v: Variable) -> LayoutState {
        let cs = listed(self.var_constraints, v);
        let unlisted = LayoutState { var_constraints: self.var_constraints.remove(v), ..self };
        let dropped = unlisted.drop_first(cs, cs.len() as int);
        LayoutState { var_ids: dropped.var_ids.remove(v), ..dropped }
    }

    /// The state once the widget's four own variables have been given up.
    pub open spec fn remove_widget(self, vars: LayoutVars) -> LayoutState {
        self.remove_variable(vars.left).remove_variable(vars.top).remove_variable(
            vars.width,
        ).remove_variable(vars.height)
    }

    /// Whether `after` is this state but for some of `cs` that have left
    /// the engine.
    pub open spec fn lost(self, cs: Seq<Constraint>, after: LayoutState) -> bool {
        &&& after == (LayoutState { installed: after.installed, ..self })
        &&& after.installed.subset_of(self.installed)
        &&& self.installed.difference(cs.to_set()).subset_of(after.installed)
    }

    /// Whether `after` is this state but for some of `cs` that have entered
    /// the engine.
    pub open spec fn gained(self, cs: Seq<Constraint>, after: LayoutState) -> bool {
        &&& after == (LayoutState { installed: after.installed, ..self })
        &&& self.installed.subset_of(after.installed)
        &&& after.installed.subset_of(self.installed.union(cs.to_set()))
    }

    /// The state once the widget is hidden: the constraints listed under its
    /// variables have left the engine and are kept for it. Hiding a hidden
    /// widget changes nothing.
    pub open spec fn hide_widget(self, id: LayoutId, vars: LayoutVars) -> LayoutState {
        if self.hidden.contains_key(id) {
            self
        } else {
            let kept = self.widget_constraints(vars);
            LayoutState {
                installed: self.installed.difference(kept.to_set()),
                hidden: self.hidden.insert(id, kept),
                ..self
            }
        }
    }

    /// The state once the widget is shown again: the constraints kept for it
    /// are in the engine, and nothing is kept for it. Showing a widget that
    /// is not hidden changes nothing.
    pub open spec fn unhide_widget(self, id: LayoutId) -> LayoutState {
        if self.hidden.contains_key(id) {
            LayoutState {
                installed: self.installed.union(self.hidden[id].to_set()),
                hidden: self.hidden.remove(id),
                ..self
            }
        } else {
            self
        }
    }

    /// The state once the widget owns its four variables.
    pub open spec fn registered(self, id: LayoutId, vars: LayoutVars) -> LayoutState {
        LayoutState {
            var_ids: self.var_ids.insert(vars.left, id).insert(vars.top, id).insert(
                vars.width,
                id,
            ).insert(vars.height, id),
            ..self
        }
    }

    /// The geometry of a widget that registers with `vars`: each field has
    /// the value deferred for its variable, or keeps its own. A value is
    /// used once, so of two fields with one variable the second keeps its own.
    pub open spec fn seeded_bounds(self, vars: LayoutVars, bounds: Rect) -> Rect {
        let d0 = self.deferred;
        let d1 = d0.remove(vars.left);
        let d2 = d1.remove(vars.top);
        let d3 = d2.remove(vars.width);
        Rect {
            origin: Point {
                x: seeded(d0, vars.left, bounds.origin.x),
                y: seeded(d1, vars.top, bounds.origin.y),
            },
            size: Size {
                width: seeded(d2, vars.width, bounds.size.width),
                height: seeded(d3, vars.height, bounds.size.height),
            },
        }
    }

    /// The state once the values deferred for the widget's variables are used up.
    pub open spec fn claimed(self, vars: LayoutVars) -> LayoutState {
        LayoutState {
            deferred: self.deferred.remove(vars.left).remove(vars.top).remove(vars.width).remove(
                vars.height,
            ).remove(vars.right).remove(vars.bottom),
            ..self
        }
    }

    /// The state once the widget's variables are named after it, where names
    /// are kept and the widget has a name: each of the six is called by the
    /// widget's name, a dot and its edge.
    pub open spec fn labelled(self, vars: LayoutVars, name: Option<Seq<char>>) -> LayoutState {
        match (self.names, name) {
            (Some(table), Some(name)) => LayoutState {
                names: Some(
                    table.insert(vars.left, name + ".left"@).insert(vars.top, name + ".top"@).insert(
                        vars.right,
                        name + ".right"@,
                    ).insert(vars.bottom, name + ".bottom"@).insert(
                        vars.width,
                        name + ".width"@,
                    ).insert(vars.height, name + ".height"@),
                ),
                ..self
            },
            _ => self,
        }
    }

    /// Whether `after` and `outcome` are what may come of taking in a
    /// declaration in this state. The strengths of the directives without a
    /// value are cached and the others give the suggestions; then the
    /// constraints enter one after the other. All of them have entered, or
    /// the engine has refused the one at the position that the error names,
    /// and those before it have entered.
    pub open spec fn declared(
        self,
        directives: Seq<EditVariable>,
        constraints: Seq<Constraint>,
        outcome: Result<Vec<EditRequest>, IngestError>,
        after: LayoutState,
    ) -> bool {
        let start = self.directed(directives);
        match outcome {
            Ok(reqs) => {
                &&& reqs@ == requests(self.edit_variables, directives, directives.len() as int)
                &&& after == start.ingested(constraints, constraints.len() as int)
                &&& forall|k: int|
                    0 <= k < constraints.len() ==> !(#[trigger] start.ingested(
                        constraints,
                        k,
                    )).installed.contains(constraints[k])
            },
            Err(e) => {
                &&& e.index < constraints.len()
                &&& start.ingested(constraints, e.index as int).refused(
                    constraints[e.index as int],
                    e.cause,
                    after,
                )
                &&& forall|k: int|
                    0 <= k < e.index ==> !(#[trigger] start.ingested(
                        constraints,
                        k,
                    )).installed.contains(constraints[k])
            },
        }
    }

    /// The state once the engine's report `raw` has been taken in.
    pub open spec fn harvested(self, raw: Seq<(Variable, Scalar)>) -> LayoutState {
        LayoutState {
            deferred: deferred(self.deferred, self.var_ids, raw, raw.len() as int),
            ..self
        }
    }
}

/// Entering `c` under one more variable changes that variable's list alone.
pub proof fn lemma_entered_step(
    index: Map<Variable, Seq<Constraint>>,
    c: Constraint,
    vars: Seq<Variable>,
    i: int,
)
    requires
        0 <= i < vars.len(),
    ensures
        entered(index, c, vars, i + 1) == entered(index, c, vars, i).insert(
            vars[i],
            with(listed(entered(index, c, vars, i), vars[i]), c),
        ),
{
    let u = vars[i];
    let a = entered(index, c, vars, i);
    let b = entered(index, c, vars, i + 1);
    lemma_take_step(vars, i);
    let x = listed(index, u);
    assert(with(x, c).contains(c)) by {
        if !x.contains(c) {
            assert(x.push(c)[x.len() as int] == c);
        }
    }
    assert(b =~= a.insert(u, with(listed(a, u), c)));
}

/// Striking `c` under one more variable changes that variable's list alone.
pub proof fn lemma_struck_step(
    index: Map<Variable, Seq<Constraint>>,
    c: Constraint,
    vars: Seq<Variable>,
    i: int,
)
    requires
        0 <= i < vars.len(),
        forall|v: Variable| index.contains_key(v) ==> (#[trigger] index[v]).no_duplicates(),
    ensures
        index.contains_key(vars[i]) ==> struck(index, c, vars, i + 1) == struck(
            index,
            c,
            vars,
            i,
        ).insert(vars[i], without(struck(index, c, vars, i)[vars[i]], c)),
        !index.contains_key(vars[i]) ==> struck(index, c, vars, i + 1) == struck(index, c, vars, i),
{
    let u = vars[i];
    let a = struck(index, c, vars, i);
    let b = struck(index, c, vars, i + 1);
    lemma_take_step(vars, i);
    if index.contains_key(u) {
        lemma_without(index[u], c);
        assert(b =~= a.insert(u, without(a[u], c)));
    } else {
        assert(b =~= a);
    }
}

/// Whether one of `reqs` is for `var`.
pub open spec fn asked(reqs: Seq<EditRequest>, var: Variable) -> bool {
    exists|k: int| 0 <= k < reqs.len() && (#[trigger] reqs[k]).var == var
}

/// The requests made for the first `n` directives are for the variables
/// for which one of those directives suggests a value.
pub proof fn lemma_requests_asked(
    edits: Set<Variable>,
    directives: Seq<EditVariable>,
    n: int,
    var: Variable,
)
    requires
        0 <= n <= directives.len(),
    ensures
        asked(requests(edits, directives, n), var) <==> suggested(directives, n, var),
    decreases n,
{
    if n > 0 {
        lemma_requests_asked(edits, directives, n - 1, var);
        let before = requests(edits, directives, n - 1);
        let now = requests(edits, directives, n);
        let d = directives[n - 1];
        if asked(now, var) {
            let k = choose|k: int| 0 <= k < now.len() && (#[trigger] now[k]).var == var;
            if k < before.len() {
                assert(before[k].var == var);
                assert(asked(before, var));
                let j = choose|j: int|
                    0 <= j < n - 1 && j < directives.len() && (#[trigger] directives[j]).var == var
                        && directives[j].val is Some;
                assert(directives[j].var == var);
            } else {
                assert(directives[n - 1].var == var && directives[n - 1].val is Some);
            }
            assert(suggested(directives, n, var));
        }
        if suggested(directives, n, var) {
            let j = choose|j: int|
                0 <= j < n && j < directives.len() && (#[trigger] directives[j]).var == var
                    && directives[j].val is Some;
            if j < n - 1 {
                assert(directives[j].var == var);
                assert(suggested(directives, n - 1, var));
                let k = choose|k: int| 0 <= k < before.len() && (#[trigger] before[k]).var == var;
                assert(now[k].var == var);
            } else {
                assert(now[before.len() as int].var == var);
            }
            assert(asked(now, var));
        }
    }
}

/// Taking a constraint in keeps the indices in agreement.
pub proof fn lemma_index_constraint_wf(s: LayoutState, c: Constraint)
    requires
        s.wf(),
    ensures
        s.index_constraint(c).wf(),
{
    let t = s.index_constraint(c);
    let vars = constraint_variables(c);
    assert(vars.take(vars.len() as int) =~= vars);
    lemma_without(s.ledger, c);
    lemma_with(without(s.ledger, c), c);
    assert forall|v: Variable| t.var_constraints.contains_key(v) implies (
    #[trigger] t.var_constraints[v]).no_duplicates() by {
        lemma_with(listed(s.var_constraints, v), c);
    }
    assert forall|v: Variable, k: Constraint|
        t.var_constraints.contains_key(v) && #[trigger] t.var_constraints[v].contains(
            k,
        ) implies t.constraint_vars.contains_key(k) && t.constraint_vars[k].contains(v) by {
        lemma_with(listed(s.var_constraints, v), c);
        let old_list = listed(s.constraint_vars, c);
        if k == c {
            if vars.contains(v) {
                let i = vars.index_of(v);
                assert(vars[i] == v);
                assert((old_list + vars)[old_list.len() + i] == v);
            } else {
                assert(s.var_constraints[v].contains(c));
                let i = old_list.index_of(v);
                assert(old_list[i] == v);
                assert((old_list + vars)[i] == v);
            }
        } else {
            assert(listed(s.var_constraints, v).contains(k));
            assert(s.var_constraints.contains_key(v));
        }
    }
}

/// Dropping a constraint keeps the indices in agreement.
pub proof fn lemma_drop_constraint_wf(s: LayoutState, c: Constraint)
    requires
        s.wf(),
    ensures
        s.drop_constraint(c).wf(),
{
    if s.installed.contains(c) {
        let t = s.drop_constraint(c);
        let vars = listed(s.constraint_vars, c);
        assert(vars.take(vars.len() as int) =~= vars);
        lemma_without(s.ledger, c);
        assert forall|v: Variable| t.var_constraints.contains_key(v) implies (
        #[trigger] t.var_constraints[v]).no_duplicates() by {
            lemma_without(s.var_constraints[v], c);
        }
        assert forall|v: Variable, k: Constraint|
            t.var_constraints.contains_key(v) && #[trigger] t.var_constraints[v].contains(
                k,
            ) implies t.constraint_vars.contains_key(k) && t.constraint_vars[k].contains(v) by {
            lemma_without(s.var_constraints[v], c);
            assert(s.var_constraints[v].contains(k));
        }
    }
}

/// What dropping a constraint does: the constraint is not in the engine
/// afterwards, and the state is thinned, with the same variables listed and
/// owned.
pub proof fn lemma_drop_constraint(s: LayoutState, c: Constraint)
    requires
        s.wf(),
    ensures
        s.thinned(s.drop_constraint(c)),
        !s.drop_constraint(c).installed.contains(c),
        s.drop_constraint(c).var_constraints.dom() == s.var_constraints.dom(),
        s.drop_constraint(c).var_ids == s.var_ids,
{
    let t = s.drop_constraint(c);
    if s.installed.contains(c) {
        assert forall|u: Variable, k: Constraint|
            s.var_constraints.contains_key(u) && t.var_constraints.contains_key(u)
                && #[trigger] s.var_constraints[u].contains(k) implies t.var_constraints[u].contains(
            k,
        ) || !t.installed.contains(k) by {
            lemma_without(s.var_constraints[u], c);
        }
        assert(t.var_constraints.dom() =~= s.var_constraints.dom());
    }
}

/// Thinning twice is thinning, where the indices are in order in between.
pub proof fn lemma_thinned_twice(a: LayoutState, b: LayoutState, c: LayoutState)
    requires
        a.thinned(b),
        b.thinned(c),
    ensures
        a.thinned(c),
{
    assert forall|u: Variable, k: Constraint|
        a.var_constraints.contains_key(u) && c.var_constraints.contains_key(u)
            && #[trigger] a.var_constraints[u].contains(k) implies c.var_constraints[u].contains(k)
        || !c.installed.contains(k) by {
        assert(b.var_constraints.contains_key(u));
        if b.var_constraints[u].contains(k) {
        } else {
            assert(!b.installed.contains(k));
        }
    }
    assert forall|k: Variable| #[trigger] c.var_ids.contains_key(k) implies a.var_ids.contains_key(
        k,
    ) && c.var_ids[k] == a.var_ids[k] by {
        assert(b.var_ids.contains_key(k));
    }
}

/// What dropping constraints does: none of them is in the engine
/// afterwards, and the state is thinned, with the same variables listed and
/// owned.
pub proof fn lemma_drop_first(s: LayoutState, cs: Seq<Constraint>, n: int)
    requires
        s.wf(),
        0 <= n <= cs.len(),
    ensures
        s.drop_first(cs, n).wf(),
        s.thinned(s.drop_first(cs, n)),
        forall|i: int| 0 <= i < n ==> !s.drop_first(cs, n).installed.contains(#[trigger] cs[i]),
        s.drop_first(cs, n).var_constraints.dom() == s.var_constraints.dom(),
        s.drop_first(cs, n).var_ids == s.var_ids,
    decreases n,
{
    if n > 0 {
        let m = s.drop_first(cs, n - 1);
        lemma_drop_first(s, cs, n - 1);
        lemma_drop_constraint(m, cs[n - 1]);
        lemma_drop_constraint_wf(m, cs[n - 1]);
        lemma_thinned_twice(s, m, m.drop_constraint(cs[n - 1]));
    }
}

/// What giving a variable up does: it has neither a list nor an owner
/// afterwards, no constraint that was listed under it is in the engine,
/// and the state is thinned.
pub proof fn lemma_remove_variable(s: LayoutState, v: Variable)
    requires
        s.wf(),
    ensures
        s.remove_variable(v).wf(),
        s.thinned(s.remove_variable(v)),
        !s.remove_variable(v).var_constraints.contains_key(v),
        !s.remove_variable(v).var_ids.contains_key(v),
        s.remove_variable(v).var_ids == s.var_ids.remove(v),
        s.remove_variable(v).var_constraints.dom() == s.var_constraints.dom().remove(v),
        forall|c: Constraint|
            #[trigger] listed(s.var_constraints, v).contains(c) ==> !s.remove_variable(
                v,
            ).installed.contains(c),
{
    let cs = listed(s.var_constraints, v);
    let unlisted = LayoutState { var_constraints: s.var_constraints.remove(v), ..s };
    assert(unlisted.wf());
    lemma_drop_first(unlisted, cs, cs.len() as int);
    let dropped = unlisted.drop_first(cs, cs.len() as int);
    let t = s.remove_variable(v);
    assert forall|c: Constraint| #[trigger] cs.contains(c) implies !t.installed.contains(c) by {
        let i = cs.index_of(c);
        assert(cs[i] == c);
    }
    assert(s.thinned(unlisted));
    lemma_thinned_twice(s, unlisted, dropped);
    assert(dropped.thinned(t));
    lemma_thinned_twice(s, dropped, t);
}

/// Giving `v` up clears it of the constraints that an earlier state listed
/// under it, where the state has only been thinned since.
pub proof fn lemma_remove_variable_clears(s0: LayoutState, s: LayoutState, v: Variable)
    requires
        s.wf(),
        s0.thinned(s),
        s.var_constraints.contains_key(v) || !s0.var_constraints.contains_key(v) || s.cleared(s0, v),
    ensures
        s.remove_variable(v).cleared(s0, v),
{
    let t = s.remove_variable(v);
    lemma_remove_variable(s, v);
    assert forall|c: Constraint| #[trigger]
        listed(s0.var_constraints, v).contains(c) implies !t.installed.contains(c) by {
        if s.var_constraints.contains_key(v) {
            assert(s0.var_constraints[v].contains(c));
            if s.var_constraints[v].contains(c) {
                assert(listed(s.var_constraints, v).contains(c));
            }
        }
    }
}

/// What giving up a widget's variables does: none of the four has a list
/// or an owner afterwards, no constraint that was listed under one of them
/// is in the engine, and the state is thinned.
pub proof fn lemma_remove_widget(s: LayoutState, vars: LayoutVars)
    requires
        s.wf(),
    ensures
        s.remove_widget(vars).wf(),
        s.thinned(s.remove_widget(vars)),
        forall|i: int|
            0 <= i < 4 ==> {
                let v = #[trigger] vars.own()[i];
                &&& !s.remove_widget(vars).var_constraints.contains_key(v)
                &&& !s.remove_widget(vars).var_ids.contains_key(v)
                &&& s.remove_widget(vars).cleared(s, v)
            },
        s.remove_widget(vars).var_ids == s.var_ids.remove_keys(vars.own().to_set()),
{
    let s1 = s.remove_variable(vars.left);
    let s2 = s1.remove_variable(vars.top);
    let s3 = s2.remove_variable(vars.width);
    let s4 = s3.remove_variable(vars.height);
    lemma_remove_variable(s, vars.left);
    lemma_remove_variable(s1, vars.top);
    lemma_remove_variable(s2, vars.width);
    lemma_remove_variable(s3, vars.height);
    lemma_thinned_twice(s, s1, s2);
    lemma_thinned_twice(s, s2, s3);
    lemma_thinned_twice(s, s3, s4);
    assert(s.thinned(s));
    lemma_remove_variable_clears(s, s, vars.left);
    assert(s1.cleared(s, vars.left));
    lemma_remove_variable_clears(s, s1, vars.top);
    assert(s2.cleared(s, vars.left));
    assert(s2.cleared(s, vars.top));
    lemma_remove_variable_clears(s, s2, vars.width);
    assert(s3.cleared(s, vars.left));
    assert(s3.cleared(s, vars.top));
    assert(s3.cleared(s, vars.width));
    lemma_remove_variable_clears(s, s3, vars.height);
    assert(s4.cleared(s, vars.left));
    assert(s4.cleared(s, vars.top));
    assert(s4.cleared(s, vars.width));
    assert(s4.cleared(s, vars.height));
    let own = vars.own();
    assert(own[0] == vars.left && own[1] == vars.top && own[2] == vars.width && own[3]
        == vars.height);
    assert forall|v: Variable| own.to_set().contains(v) <==> (v == vars.left || v == vars.top || v
        == vars.width || v == vars.height) by {
        if own.to_set().contains(v) {
            let i = own.index_of(v);
            assert(own[i] == v);
        }
    }
    assert(s4.var_ids =~= s.var_ids.remove_keys(own.to_set()));
}

/// Entering a constraint in the ledger and the indices keeps the indices in
/// agreement.
pub proof fn lemma_record_constraint_wf(s: LayoutState, c: Constraint)
    requires
        s.wf(),
    ensures
        s.record_constraint(c).wf(),
{
    lemma_index_constraint_wf(s, c);
    let t = s.index_constraint(c);
    let r = s.record_constraint(c);
    assert(r.ledger == t.ledger);
    assert(r.var_constraints == t.var_constraints);
    assert(r.constraint_vars == t.constraint_vars);
}

/// Striking a constraint from the ledger and the indices keeps the indices
/// in agreement.
pub proof fn lemma_strike_constraint_wf(s: LayoutState, c: Constraint)
    requires
        s.wf(),
    ensures
        s.strike_constraint(c).wf(),
{
    let held = LayoutState { installed: s.installed.insert(c), ..s };
    lemma_drop_constraint_wf(held, c);
    let t = held.drop_constraint(c);
    let r = s.strike_constraint(c);
    assert(r.ledger == t.ledger);
    assert(r.var_constraints == t.var_constraints);
    assert(r.constraint_vars == t.constraint_vars);
}

/// Dropping constraints of which the engine holds none changes nothing.
pub proof fn lemma_quiet_drop_first(s: LayoutState, cs: Seq<Constraint>, n: int)
    requires
        s.quiet(cs),
        0 <= n <= cs.len(),
    ensures
        s.drop_first(cs, n) == s,
    decreases n,
{
    if n > 0 {
        lemma_quiet_drop_first(s, cs, n - 1);
        assert(cs.contains(cs[n - 1]));
    }
}

/// Giving up a variable under which no constraint of the engine is listed
/// takes its list and its owner away, and nothing else.
pub proof fn lemma_quiet_remove_variable(s: LayoutState, v: Variable)
    requires
        s.quiet(listed(s.var_constraints, v)),
    ensures
        s.remove_variable(v) == (LayoutState {
            var_constraints: s.var_constraints.remove(v),
            var_ids: s.var_ids.remove(v),
            ..s
        }),
{
    let cs = listed(s.var_constraints, v);
    let unlisted = LayoutState { var_constraints: s.var_constraints.remove(v), ..s };
    assert(unlisted.quiet(cs));
    lemma_quiet_drop_first(unlisted, cs, cs.len() as int);
}

/// Of a concatenation the engine holds nothing where it holds nothing of
/// the parts.
pub proof fn lemma_quiet_parts(s: LayoutState, a: Seq<Constraint>, b: Seq<Constraint>)
    ensures
        s.quiet(a + b) <==> s.quiet(a) && s.quiet(b),
{
    let ab = a + b;
    if s.quiet(ab) {
        assert forall|c: Constraint| #[trigger] a.contains(c) implies !s.installed.contains(c) by {
            let i = a.index_of(c);
            assert(a[i] == c);
            assert(ab[i] == c);
            assert(ab.contains(c));
        }
        assert forall|c: Constraint| #[trigger] b.contains(c) implies !s.installed.contains(c) by {
            let i = b.index_of(c);
            assert(b[i] == c);
            assert(ab[a.len() + i] == c);
            assert(ab.contains(c));
        }
    }
    if s.quiet(a) && s.quiet(b) {
        assert forall|c: Constraint| #[trigger] ab.contains(c) implies !s.installed.contains(c) by {
            let i = ab.index_of(c);
            assert(ab[i] == c);
            if i < a.len() {
                assert(a[i] == c);
                assert(a.contains(c));
            } else {
                assert(b[i - a.len()] == c);
                assert(b.contains(c));
            }
        }
    }
}

/// Where the engine holds none of the constraints listed under a widget's
/// variables, it holds none of those listed under each of the four in
/// turn, as the variables before it are given up.
pub proof fn lemma_quiet_remove_widget(s: LayoutState, vars: LayoutVars)
    requires
        s.quiet(s.widget_constraints(vars)),
    ensures
        s.quiet(listed(s.var_constraints, vars.left)),
        s.remove_variable(vars.left).quiet(
            listed(s.remove_variable(vars.left).var_constraints, vars.top),
        ),
        s.remove_variable(vars.left).remove_variable(vars.top).quiet(
            listed(
                s.remove_variable(vars.left).remove_variable(vars.top).var_constraints,
                vars.width,
            ),
        ),
        s.remove_variable(vars.left).remove_variable(vars.top).remove_variable(vars.width).quiet(
            listed(
                s.remove_variable(vars.left).remove_variable(vars.top).remove_variable(
                    vars.width,
                ).var_constraints,
                vars.height,
            ),
        ),
        s.remove_widget(vars) == (LayoutState {
            var_constraints: s.var_constraints.remove(vars.left).remove(vars.top).remove(
                vars.width,
            ).remove(vars.height),
            var_ids: s.var_ids.remove(vars.left).remove(vars.top).remove(vars.width).remove(
                vars.height,
            ),
            ..s
        }),
{
    let index = s.var_constraints;
    let l = listed(index, vars.left);
    let t = listed(index, vars.top);
    let w = listed(index, vars.width);
    let h = listed(index, vars.height);
    lemma_quiet_parts(s, l + t + w, h);
    lemma_quiet_parts(s, l + t, w);
    lemma_quiet_parts(s, l, t);
    lemma_quiet_remove_variable(s, vars.left);
    let s1 = s.remove_variable(vars.left);
    assert(s1.quiet(listed(s1.var_constraints, vars.top)));
    lemma_quiet_remove_variable(s1, vars.top);
    let s2 = s1.remove_variable(vars.top);
    assert(s2.quiet(listed(s2.var_constraints, vars.width)));
    lemma_quiet_remove_variable(s2, vars.width);
    let s3 = s2.remove_variable(vars.width);
    assert(s3.quiet(listed(s3.var_constraints, vars.height)));
    lemma_quiet_remove_variable(s3, vars.height);
}

} // verus!
