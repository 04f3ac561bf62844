//! What holds of the solver's operations taken together.

use vstd::prelude::*;
use cassowary::{Constraint, Variable};
use crate::engine::constraint_variables;
use crate::layout::{EditRequest, EditVariable, LayoutId, LayoutVars, Rect};
use crate::model::{
    deferred, lemma_remove_widget, listed, seeded, strengths, LayoutState,
};
use crate::scalar::Scalar;
use crate::seqs::lemma_with_holds;
use crate::solver::LimnSolver;

verus! {

/// Taking constraints in keeps the owners, the hidden widgets and the caches.
pub proof fn lemma_ingested_frame(s: LayoutState, cs: Seq<Constraint>, n: int)
    ensures
        s.ingested(cs, n).var_ids == s.var_ids,
        s.ingested(cs, n).hidden == s.hidden,
        s.ingested(cs, n).edit_strengths == s.edit_strengths,
        s.ingested(cs, n).deferred == s.deferred,
        s.ingested(cs, n).names == s.names,
        s.ingested(cs, n).edit_variables == s.edit_variables,
    decreases n,
{
    if n > 0 && n <= cs.len() {
        lemma_ingested_frame(s, cs, n - 1);
    }
}

/// Taking constraints in keeps the indices in agreement.
pub proof fn lemma_ingested_wf(s: LayoutState, cs: Seq<Constraint>, n: int)
    requires
        s.wf(),
    ensures
        s.ingested(cs, n).wf(),
    decreases n,
{
    if n > 0 && n <= cs.len() {
        lemma_ingested_wf(s, cs, n - 1);
        crate::model::lemma_index_constraint_wf(s.ingested(cs, n - 1), cs[n - 1]);
    }
}

/// A constraint that has been taken in is in the engine and is listed
/// under each variable of its terms, whatever was taken in after it.
pub proof fn lemma_ingested_listed(
    s: LayoutState,
    cs: Seq<Constraint>,
    n: int,
    k: int,
    u: Variable,
)
    requires
        0 <= k < n <= cs.len(),
        constraint_variables(cs[k]).contains(u),
    ensures
        s.ingested(cs, n).installed.contains(cs[k]),
        s.ingested(cs, n).var_constraints.contains_key(u),
        s.ingested(cs, n).var_constraints[u].contains(cs[k]),
    decreases n,
{
    let m = s.ingested(cs, n - 1);
    let c = cs[n - 1];
    let vars = constraint_variables(c);
    assert(vars.take(vars.len() as int) =~= vars);
    lemma_with_holds(listed(m.var_constraints, u), c);
    if k < n - 1 {
        lemma_ingested_listed(s, cs, n - 1, k, u);
    }
}

/// A widget that is added and then removed leaves nothing of its own
/// behind: none of its four own variables has an owner or a list of
/// constraints, and no constraint of its declaration that touches one of
/// them is in the engine. This holds in particular of a constraint with
/// terms all of whose variables are the widget's.
pub proof fn added_then_removed(
    s0: LayoutState,
    id: LayoutId,
    vars: LayoutVars,
    name: Option<Seq<char>>,
    directives: Seq<EditVariable>,
    constraints: Seq<Constraint>,
)
    requires
        s0.wf(),
    ensures
        ({
            let added = s0.registered(id, vars).claimed(vars).labelled(vars, name).directed(
                directives,
            ).ingested(constraints, constraints.len() as int);
            let removed = added.remove_widget(vars);
            &&& forall|i: int|
                0 <= i < 4 ==> added.var_ids.contains_key(#[trigger] vars.own()[i])
                    && added.var_ids[vars.own()[i]] == id
            &&& forall|i: int|
                0 <= i < 4 ==> !removed.var_ids.contains_key(#[trigger] vars.own()[i])
                    && !removed.var_constraints.contains_key(vars.own()[i])
            &&& forall|k: int, i: int|
                0 <= k < constraints.len() && 0 <= i < 4 && constraint_variables(
                    #[trigger] constraints[k],
                ).contains(#[trigger] vars.own()[i]) ==> added.installed.contains(constraints[k])
                    && !removed.installed.contains(constraints[k])
            &&& forall|k: int|
                0 <= k < constraints.len() && constraint_variables(#[trigger] constraints[k]).len()
                    > 0 && (forall|j: int|
                    0 <= j < constraint_variables(constraints[k]).len() ==> vars.own().contains(
                        #[trigger] constraint_variables(constraints[k])[j],
                    )) ==> !removed.installed.contains(constraints[k])
        }),
{
    let start = s0.registered(id, vars).claimed(vars).labelled(vars, name).directed(directives);
    let n = constraints.len() as int;
    let added = start.ingested(constraints, n);
    let removed = added.remove_widget(vars);
    assert(start.wf());
    lemma_ingested_wf(start, constraints, n);
    lemma_ingested_frame(start, constraints, n);
    lemma_remove_widget(added, vars);
    let own = vars.own();
    assert(own[0] == vars.left && own[1] == vars.top && own[2] == vars.width && own[3]
        == vars.height);
    assert forall|k: int, i: int|
        0 <= k < constraints.len() && 0 <= i < 4 && constraint_variables(
            #[trigger] constraints[k],
        ).contains(#[trigger] vars.own()[i]) implies added.installed.contains(constraints[k])
        && !removed.installed.contains(constraints[k]) by {
        let v = vars.own()[i];
        lemma_ingested_listed(start, constraints, n, k, v);
        assert(removed.cleared(added, v));
        assert(listed(added.var_constraints, v).contains(constraints[k]));
    }
    assert forall|k: int|
        0 <= k < constraints.len() && constraint_variables(#[trigger] constraints[k]).len() > 0
            && (forall|j: int|
            0 <= j < constraint_variables(constraints[k]).len() ==> vars.own().contains(
                #[trigger] constraint_variables(constraints[k])[j],
            )) implies !removed.installed.contains(constraints[k]) by {
        let terms = constraint_variables(constraints[k]);
        let u = terms[0];
        assert(vars.own().contains(u));
        let i = vars.own().index_of(u);
        assert(vars.own()[i] == u);
        assert(terms.contains(u));
    }
}

/// Hiding a widget and showing it again changes nothing, where the widget
/// was not hidden and every constraint listed under its variables was in
/// the engine: what showing puts into the engine is what hiding took out,
/// and the state at the end is the state at the start. While the widget is
/// hidden none of those constraints is in the engine, and hiding it again
/// does nothing; showing a widget that is not hidden does nothing.
pub proof fn hidden_then_shown(s0: LayoutState, id: LayoutId, vars: LayoutVars)
    requires
        !s0.hidden.contains_key(id),
        s0.widget_constraints(vars).to_set().subset_of(s0.installed),
    ensures
        ({
            let hidden = s0.hide_widget(id, vars);
            let shown = hidden.unhide_widget(id);
            &&& shown == s0
            &&& hidden.hidden[id] == s0.widget_constraints(vars)
            &&& forall|c: Constraint| #[trigger]
                s0.widget_constraints(vars).contains(c) ==> !hidden.installed.contains(c)
            &&& shown.installed.difference(hidden.installed) == s0.installed.difference(
                hidden.installed,
            )
            &&& hidden.hide_widget(id, vars) == hidden
            &&& shown.unhide_widget(id) == shown
        }),
{
    let hidden = s0.hide_widget(id, vars);
    let shown = hidden.unhide_widget(id);
    assert(shown.installed =~= s0.installed);
    assert(shown.hidden =~= s0.hidden);
}

/// Whatever was in the engine, hiding and then showing a widget that was
/// not hidden leaves the indices and the caches as they were, and leaves in
/// the engine what was there together with the constraints listed under
/// the widget's variables.
pub proof fn hidden_then_shown_installs(s0: LayoutState, id: LayoutId, vars: LayoutVars)
    requires
        !s0.hidden.contains_key(id),
    ensures
        s0.hide_widget(id, vars).unhide_widget(id) == (LayoutState {
            installed: s0.installed.union(s0.widget_constraints(vars).to_set()),
            ..s0
        }),
{
    let hidden = s0.hide_widget(id, vars);
    let shown = hidden.unhide_widget(id);
    assert(shown.installed =~= s0.installed.union(s0.widget_constraints(vars).to_set()));
    assert(shown.hidden =~= s0.hidden);
}

/// A second harvest with nothing done since the first returns nothing and
/// changes nothing.
pub proof fn second_harvest_is_empty(
    first: LimnSolver,
    second: LimnSolver,
    third: LimnSolver,
    changes: Seq<(LayoutId, Variable, Scalar)>,
    again: Seq<(LayoutId, Variable, Scalar)>,
)
    requires
        first.harvest(second, changes),
        second.harvest(third, again),
    ensures
        again.len() == 0,
        third@ == second@,
{
}

/// A value that the engine reports for a variable without an owner is
/// kept for that variable: after the report has been taken in, the value
/// deferred for the variable is that of the last change that names it.
pub proof fn lemma_deferred_last(
    cache: Map<Variable, Scalar>,
    owners: Map<Variable, LayoutId>,
    raw: Seq<(Variable, Scalar)>,
    n: int,
    i: int,
)
    requires
        0 <= i < n <= raw.len(),
        !owners.contains_key(raw[i].0),
        forall|j: int| i < j < n ==> (#[trigger] raw[j]).0 != raw[i].0,
    ensures
        deferred(cache, owners, raw, n).contains_key(raw[i].0),
        deferred(cache, owners, raw, n)[raw[i].0] == raw[i].1,
    decreases n,
{
    if i < n - 1 {
        lemma_deferred_last(cache, owners, raw, n - 1, i);
        assert(raw[n - 1].0 != raw[i].0);
    }
}

/// A widget that registers after the engine has solved one of its
/// variables starts with the solved value: where a harvest reported the
/// value for a variable that had no owner, a widget that registers with
/// that variable as one of its four, the four being distinct, finds the
/// value in the field of that variable, and every other field as the
/// deferred values and its own say. Afterwards no value is deferred for
/// any of its variables.
pub proof fn registration_takes_deferred_value(
    s0: LayoutState,
    raw: Seq<(Variable, Scalar)>,
    i: int,
    vars: LayoutVars,
    bounds: Rect,
)
    requires
        0 <= i < raw.len(),
        !s0.var_ids.contains_key(raw[i].0),
        forall|j: int| i < j < raw.len() ==> (#[trigger] raw[j]).0 != raw[i].0,
        vars.own().no_duplicates(),
    ensures
        ({
            let harvested = s0.harvested(raw);
            let seeded_bounds = harvested.seeded_bounds(vars, bounds);
            &&& harvested.deferred.contains_key(raw[i].0)
            &&& harvested.deferred[raw[i].0] == raw[i].1
            &&& vars.left == raw[i].0 ==> seeded_bounds.origin.x == raw[i].1
            &&& vars.top == raw[i].0 ==> seeded_bounds.origin.y == raw[i].1
            &&& vars.width == raw[i].0 ==> seeded_bounds.size.width == raw[i].1
            &&& vars.height == raw[i].0 ==> seeded_bounds.size.height == raw[i].1
            &&& seeded_bounds.origin.x == seeded(harvested.deferred, vars.left, bounds.origin.x)
            &&& seeded_bounds.origin.y == seeded(harvested.deferred, vars.top, bounds.origin.y)
            &&& seeded_bounds.size.width == seeded(
                harvested.deferred,
                vars.width,
                bounds.size.width,
            )
            &&& seeded_bounds.size.height == seeded(
                harvested.deferred,
                vars.height,
                bounds.size.height,
            )
            &&& forall|k: int|
                0 <= k < 4 ==> !harvested.claimed(vars).deferred.contains_key(
                    #[trigger] vars.own()[k],
                )
            &&& !harvested.claimed(vars).deferred.contains_key(vars.right)
            &&& !harvested.claimed(vars).deferred.contains_key(vars.bottom)
        }),
{
    lemma_deferred_last(s0.deferred, s0.var_ids, raw, raw.len() as int, i);
    let own = vars.own();
    assert(own[0] == vars.left && own[1] == vars.top && own[2] == vars.width && own[3]
        == vars.height);
}

/// The cached strength of a variable is that of the last directive without
/// a value that names it.
pub proof fn lemma_strengths_last(
    cache: Map<Variable, Scalar>,
    directives: Seq<EditVariable>,
    n: int,
    i: int,
)
    requires
        0 <= i < n <= directives.len(),
        directives[i].val is None,
        forall|j: int|
            i < j < n && (#[trigger] directives[j]).var == directives[i].var
                ==> directives[j].val is Some,
    ensures
        strengths(cache, directives, n).contains_key(directives[i].var),
        strengths(cache, directives, n)[directives[i].var] == directives[i].strength,
    decreases n,
{
    if i < n - 1 {
        lemma_strengths_last(cache, directives, n - 1, i);
    }
}

/// A strength that was declared for a variable without a value is the one
/// with which the variable is installed when a value is first asked for:
/// after a declaration whose last directive without a value for `var`
/// gives `strength`, a suggestion for `var`, which the engine does not
/// know as an edit variable, asks for it to be installed with `strength`,
/// not with the strength of a strong constraint; and the cached strength is
/// then used up.
pub proof fn declared_strength_is_used(
    s0: LayoutState,
    directives: Seq<EditVariable>,
    constraints: Seq<Constraint>,
    i: int,
    value: Scalar,
)
    requires
        0 <= i < directives.len(),
        directives[i].val is None,
        forall|j: int|
            i < j < directives.len() && (#[trigger] directives[j]).var == directives[i].var
                ==> directives[j].val is Some,
        !s0.edit_variables.contains(directives[i].var),
    ensures
        ({
            let declared = s0.directed(directives).ingested(
                constraints,
                constraints.len() as int,
            );
            &&& declared.edit_request(directives[i].var, value) == (EditRequest {
                var: directives[i].var,
                install: Some(directives[i].strength),
                value,
            })
            &&& !declared.edited(directives[i].var).edit_strengths.contains_key(directives[i].var)
        }),
{
    lemma_strengths_last(s0.edit_strengths, directives, directives.len() as int, i);
    lemma_ingested_frame(s0.directed(directives), constraints, constraints.len() as int);
}

} // verus!
