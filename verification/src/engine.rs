//! The constraint engine and its handles, as far as the bookkeeping relies on them.
//!
//! Everything in this file that has no proof is stated of `cassowary` and of
//! `linked_hash_map`; the rest of the library is proved from these statements.

use vstd::prelude::*;
use cassowary::{Constraint, Solver, Variable};
use linked_hash_map::LinkedHashMap;
use crate::scalar::Scalar;
use crate::seqs::without;

verus! {

#[verifier::external_type_specification]
#[verifier::external_body]
pub struct ExVariable(cassowary::Variable);

#[verifier::external_type_specification]
#[verifier::external_body]
pub struct ExConstraint(cassowary::Constraint);

#[verifier::external_type_specification]
#[verifier::external_body]
pub struct ExSolver(cassowary::Solver);

#[verifier::external_type_specification]
#[verifier::external_body]
#[verifier::reject_recursive_types(K)]
#[verifier::reject_recursive_types(V)]
#[verifier::reject_recursive_types(S)]
pub struct ExLinkedHashMap<K, V, S>(linked_hash_map::LinkedHashMap<K, V, S>);

/// What the engine answers when it refuses a request.
#[derive(Clone, Copy, Debug, PartialEq, Eq, Structural)]
pub enum SolverError {
    /// The constraint is in the engine already.
    DuplicateConstraint,
    /// The constraint is required and cannot hold together with those in the engine.
    UnsatisfiableConstraint,
    /// The constraint is not in the engine.
    UnknownConstraint,
    /// The engine found its own state inconsistent.
    InternalSolverError,
}

/// Why a declaration was not taken in completely.
#[derive(Clone, Copy, Debug, PartialEq, Eq, Structural)]
pub struct IngestError {
    /// The position of the constraint that the engine refused.
    pub index: usize,
    /// What the engine answered.
    pub cause: SolverError,
}

/// The relation that a constraint states between its expression and zero.
#[derive(Clone, Copy, Debug, PartialEq, Eq, Structural)]
pub enum Relation {
    /// `<=`
    LessOrEqual,
    /// `==`
    Equal,
    /// `>=`
    GreaterOrEqual,
}

/// One term of a constraint's expression.
pub struct TermParts {
    /// The variable.
    pub variable: Variable,
    /// The number by which the variable is multiplied.
    pub coefficient: Scalar,
    /// The coefficient as the engine's numbers are printed.
    pub coefficient_text: String,
}

/// What a constraint is made of.
pub struct ConstraintParts {
    /// The strength.
    pub strength: Scalar,
    /// The relation to zero.
    pub relation: Relation,
    /// The constant of the expression.
    pub constant: Scalar,
    /// The constant as the engine's numbers are printed.
    pub constant_text: String,
    /// The terms of the expression, in their order.
    pub terms: Vec<TermParts>,
}

/// The constraints that the engine currently holds.
pub uninterp spec fn installed(solver: Solver) -> Set<Constraint>;

/// The variables that the engine currently treats as edit variables.
pub uninterp spec fn edit_variables(solver: Solver) -> Set<Variable>;

/// The variables whose value the engine's next report of changes holds.
pub uninterp spec fn pending_changes(solver: Solver) -> Set<Variable>;

/// What a constraint is made of.
pub uninterp spec fn constraint_parts(constraint: Constraint) -> ConstraintParts;

/// The variables of a constraint's terms, in the order of the terms.
pub open spec fn constraint_variables(constraint: Constraint) -> Seq<Variable> {
    constraint_parts(constraint).terms@.map_values(|term: TermParts| term.variable)
}

/// The place of a variable in the order of variables.
pub uninterp spec fn variable_rank(variable: Variable) -> int;

/// The value that the engine has for a variable, as its numbers are printed.
pub uninterp spec fn value_text(solver: Solver, variable: Variable) -> Seq<char>;

/// What `Debug` prints for a variable.
pub uninterp spec fn variable_debug_text(variable: Variable) -> Seq<char>;

/// The keys of a ledger of constraints, the one inserted longest ago first.
pub uninterp spec fn ledger_keys(ledger: LinkedHashMap<Constraint, ()>) -> Seq<Constraint>;

/// `Clone::clone` of `cassowary::Constraint`: the clone shares the allocation
/// of the constraint it is made of, so it is the same constraint to the
/// engine and to every index.
pub assume_specification[ <cassowary::Constraint as Clone>::clone ](
    c: &cassowary::Constraint,
) -> (r: cassowary::Constraint)
    ensures
        r == *c,
;

/// `PartialEq::eq` of `cassowary::Variable`: two handles are equal exactly
/// when they name the same variable, and only then do they share a place in
/// the order of variables.
#[verifier::external_body]
pub(crate) fn same_variable(a: &Variable, b: &Variable) -> (r: bool)
    ensures
        r == (*a == *b),
        r == (variable_rank(*a) == variable_rank(*b)),
{
    a == b
}

/// `PartialOrd::lt` of `cassowary::Variable`: the order of variables.
#[verifier::external_body]
pub(crate) fn variable_precedes(a: &Variable, b: &Variable) -> (r: bool)
    ensures
        r == (variable_rank(*a) < variable_rank(*b)),
{
    a < b
}

/// `Solver::get_value`, as `Display` prints it: the text depends on the
/// engine's state and the variable alone.
#[verifier::external_body]
pub(crate) fn engine_value_text(solver: &Solver, variable: &Variable) -> (r: String)
    ensures
        r@ == value_text(*solver, *variable),
{
    format!("{}", solver.get_value(*variable))
}

/// `PartialEq::eq` of `cassowary::Constraint`: two handles are equal exactly
/// when they share one allocation.
#[verifier::external_body]
pub(crate) fn same_constraint(a: &Constraint, b: &Constraint) -> (r: bool)
    ensures
        r == (*a == *b),
{
    a == b
}

/// `Constraint::expr`, of which the variable of each term is handed out: the
/// variables of the terms that the constraint is made of.
#[verifier::external_body]
pub(crate) fn variables_of(constraint: &Constraint) -> (r: Vec<Variable>)
    ensures
        r@ == constraint_variables(*constraint),
{
    constraint.expr().terms.iter().map(|t| t.variable).collect()
}

/// `Constraint::strength`, `Constraint::op` and `Constraint::expr`, each
/// number handed out by its bit pattern and as `Display` prints it. The
/// parts depend on the constraint alone.
#[verifier::external_body]
pub(crate) fn parts_of(constraint: &Constraint) -> (r: ConstraintParts)
    ensures
        r == constraint_parts(*constraint),
{
    ConstraintParts {
        strength: Scalar::from_bits(constraint.strength().to_bits()),
        relation: match constraint.op() {
            cassowary::RelationalOperator::LessOrEqual => Relation::LessOrEqual,
            cassowary::RelationalOperator::Equal => Relation::Equal,
            cassowary::RelationalOperator::GreaterOrEqual => Relation::GreaterOrEqual,
        },
        constant: Scalar::from_bits(constraint.expr().constant.to_bits()),
        constant_text: format!("{}", constraint.expr().constant),
        terms: constraint.expr().terms.iter().map(|t| TermParts {
            variable: t.variable,
            coefficient: Scalar::from_bits(t.coefficient.to_bits()),
            coefficient_text: format!("{}", t.coefficient),
        }).collect(),
    }
}

/// `Debug::fmt` of `cassowary::Variable`: the text depends on the variable alone.
#[verifier::external_body]
pub(crate) fn variable_debug(variable: &Variable) -> (r: String)
    ensures
        r@ == variable_debug_text(*variable),
{
    format!("{:?}", variable)
}

/// `Solver::new`: an engine without constraints, edit variables or changes to
/// report.
#[verifier::external_body]
pub(crate) fn engine_new() -> (r: Solver)
    ensures
        installed(r) == Set::<Constraint>::empty(),
        edit_variables(r) == Set::<Variable>::empty(),
        pending_changes(r) == Set::<Variable>::empty(),
{
    Solver::new()
}

/// `Solver::has_constraint`: whether the engine holds the constraint.
#[verifier::external_body]
pub(crate) fn engine_has_constraint(solver: &Solver, constraint: &Constraint) -> (r: bool)
    ensures
        r == installed(*solver).contains(*constraint),
{
    solver.has_constraint(constraint)
}

/// `Solver::has_edit_variable`: whether the engine treats the variable as an
/// edit variable.
#[verifier::external_body]
pub(crate) fn engine_has_edit_variable(solver: &Solver, variable: &Variable) -> (r: bool)
    ensures
        r == edit_variables(*solver).contains(*variable),
{
    solver.has_edit_variable(variable)
}

/// `Solver::add_constraint`. A constraint that the engine holds is refused as a
/// duplicate and nothing changes; one that it finds unsatisfiable is refused
/// and not taken in; after an internal error the constraint may or may not
/// have been taken in. No other constraint enters or leaves, and the edit
/// variables stay. The engine panics only where its own tableau is
/// inconsistent.
#[verifier::external_body]
pub(crate) fn engine_add_constraint(solver: &mut Solver, constraint: &Constraint) -> (r: Result<
    (),
    SolverError,
>)
    ensures
        edit_variables(*final(solver)) == edit_variables(*old(solver)),
        match r {
            Ok(()) => !installed(*old(solver)).contains(*constraint) && installed(*final(solver))
                == installed(*old(solver)).insert(*constraint),
            Err(SolverError::DuplicateConstraint) => installed(*old(solver)).contains(*constraint)
                && installed(*final(solver)) == installed(*old(solver)),
            Err(SolverError::UnsatisfiableConstraint) => !installed(*old(solver)).contains(
                *constraint,
            ) && installed(*final(solver)) == installed(*old(solver)),
            Err(SolverError::InternalSolverError) => !installed(*old(solver)).contains(*constraint)
                && (installed(*final(solver)) == installed(*old(solver)) || installed(
                *final(solver),
            ) == installed(*old(solver)).insert(*constraint)),
            Err(SolverError::UnknownConstraint) => false,
        },
{
    match solver.add_constraint(constraint.clone()) {
        Ok(()) => Ok(()),
        Err(cassowary::AddConstraintError::DuplicateConstraint) => Err(SolverError::DuplicateConstraint),
        Err(cassowary::AddConstraintError::UnsatisfiableConstraint) => Err(SolverError::UnsatisfiableConstraint),
        Err(cassowary::AddConstraintError::InternalSolverError(_)) => Err(SolverError::InternalSolverError),
    }
}

/// `Solver::remove_constraint`. A constraint that the engine does not hold is
/// refused as unknown; one that it holds leaves the engine, also where an
/// internal error is reported afterwards. No other constraint enters or
/// leaves, and the edit variables stay.
#[verifier::external_body]
pub(crate) fn engine_remove_constraint(solver: &mut Solver, constraint: &Constraint) -> (r: Result<
    (),
    SolverError,
>)
    ensures
        edit_variables(*final(solver)) == edit_variables(*old(solver)),
        installed(*final(solver)) == installed(*old(solver)).remove(*constraint),
        match r {
            Ok(()) => installed(*old(solver)).contains(*constraint),
            Err(SolverError::UnknownConstraint) => !installed(*old(solver)).contains(*constraint),
            Err(SolverError::InternalSolverError) => installed(*old(solver)).contains(*constraint),
            Err(_) => false,
        },
{
    match solver.remove_constraint(constraint) {
        Ok(()) => Ok(()),
        Err(cassowary::RemoveConstraintError::UnknownConstraint) => Err(SolverError::UnknownConstraint),
        Err(cassowary::RemoveConstraintError::InternalSolverError(_)) => Err(SolverError::InternalSolverError),
    }
}

/// `Solver::fetch_changes`, each value handed out by its bit pattern. The
/// report names each variable with a change to report once, and no other;
/// after it nothing is left to report. Constraints and edit variables stay.
#[verifier::external_body]
pub(crate) fn engine_fetch_changes(solver: &mut Solver) -> (r: Vec<(Variable, Scalar)>)
    ensures
        installed(*final(solver)) == installed(*old(solver)),
        edit_variables(*final(solver)) == edit_variables(*old(solver)),
        pending_changes(*final(solver)) == Set::<Variable>::empty(),
        forall|i: int|
            0 <= i < r@.len() ==> pending_changes(*old(solver)).contains(#[trigger] r@[i].0),
        forall|v: Variable|
            pending_changes(*old(solver)).contains(v) ==> exists|i: int|
                0 <= i < r@.len() && #[trigger] r@[i].0 == v,
        forall|i: int, j: int| 0 <= i < j < r@.len() ==> r@[i].0 != r@[j].0,
{
    solver.fetch_changes().iter().map(|&(v, x)| (v, Scalar::from_bits(x.to_bits()))).collect()
}

/// `LinkedHashMap::new`: a ledger without keys.
#[verifier::external_body]
pub(crate) fn ledger_new() -> (r: LinkedHashMap<Constraint, ()>)
    ensures
        ledger_keys(r) == Seq::<Constraint>::empty(),
{
    LinkedHashMap::new()
}

/// `LinkedHashMap::insert`: the key becomes the most recent one, and leaves
/// the place it had if it was there; the other keys keep their order.
#[verifier::external_body]
pub(crate) fn ledger_insert(ledger: &mut LinkedHashMap<Constraint, ()>, constraint: &Constraint)
    requires
        ledger_keys(*old(ledger)).no_duplicates(),
    ensures
        ledger_keys(*final(ledger)) == without(ledger_keys(*old(ledger)), *constraint).push(
            *constraint,
        ),
{
    ledger.insert(constraint.clone(), ());
}

/// `LinkedHashMap::remove`: the key leaves; the other keys keep their order.
#[verifier::external_body]
pub(crate) fn ledger_remove(ledger: &mut LinkedHashMap<Constraint, ()>, constraint: &Constraint)
    requires
        ledger_keys(*old(ledger)).no_duplicates(),
    ensures
        ledger_keys(*final(ledger)) == without(ledger_keys(*old(ledger)), *constraint),
{
    ledger.remove(constraint);
}

/// `LinkedHashMap::keys`: the keys in the ledger's order.
#[verifier::external_body]
pub(crate) fn ledger_list(ledger: &LinkedHashMap<Constraint, ()>) -> (r: Vec<Constraint>)
    ensures
        r@ == ledger_keys(*ledger),
{
    ledger.keys().cloned().collect()
}

} // verus!
