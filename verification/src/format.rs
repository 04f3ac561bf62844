//! Constraints as text, for diagnostics.

use vstd::prelude::*;
use vstd::string::*;
use cassowary::{Constraint, Variable};
use crate::engine::{constraint_parts, parts_of, ConstraintParts, Relation, TermParts};
use crate::names::{fmt_variable, texts, variable_text, VarNames};
use crate::scalar::{Scalar, MEDIUM_BITS, ONE_BITS, REQUIRED_BITS, SIGN_BIT, STRONG_BITS, WEAK_BITS};

verus! {

/// The label of a strength: where it stands among the strengths of weak,
/// medium, strong and required constraints.
pub open spec fn strength_text(strength: Scalar) -> Seq<char> {
    let weak = Scalar { bits: WEAK_BITS };
    let medium = Scalar { bits: MEDIUM_BITS };
    let strong = Scalar { bits: STRONG_BITS };
    let required = Scalar { bits: REQUIRED_BITS };
    if strength.lt(weak) {
        "WEAK-"@
    } else if strength.same_number(weak) {
        "WEAK "@
    } else if strength.lt(medium) {
        "WEAK+"@
    } else if strength.same_number(medium) {
        "MED  "@
    } else if strength.lt(strong) {
        "MED+ "@
    } else if strength.same_number(strong) {
        "STR  "@
    } else if strength.lt(required) {
        "STR+ "@
    } else if strength.same_number(required) {
        "REQD "@
    } else {
        "REQD+"@
    }
}

/// The sign of a relation.
pub open spec fn relation_text(relation: Relation) -> Seq<char> {
    match relation {
        Relation::LessOrEqual => "<="@,
        Relation::Equal => "=="@,
        Relation::GreaterOrEqual => ">="@,
    }
}

/// What stands before the variable of a term: nothing or a sign where the
/// coefficient is 1 or -1, else the coefficient with its sign and a star.
/// The first thing in an expression has no plus before it.
pub open spec fn coefficient_text(coefficient: Scalar, text: Seq<char>, first: bool) -> Seq<char> {
    if coefficient.same_number(Scalar { bits: ONE_BITS }) {
        if first {
            ""@
        } else {
            "+ "@
        }
    } else if coefficient.same_number(Scalar { bits: (ONE_BITS + SIGN_BIT) as u64 }) {
        "- "@
    } else if (Scalar { bits: 0 }).lt(coefficient) {
        if first {
            text + " * "@
        } else {
            "+ "@ + text + " * "@
        }
    } else {
        "- "@ + text + " * "@
    }
}

/// Whether the constant of the expression is left out: it is, where it is zero.
pub open spec fn constant_omitted(parts: ConstraintParts) -> bool {
    parts.constant.same_number(Scalar { bits: 0 })
}

/// The text of the constant and the first `n` terms of an expression: the
/// constant unless it is zero, then for each term a blank, what stands
/// before its variable, and the variable.
pub open spec fn expression_text(
    names: Map<Variable, Seq<char>>,
    parts: ConstraintParts,
    n: int,
) -> Seq<char>
    decreases n,
{
    if n <= 0 || n > parts.terms@.len() {
        if constant_omitted(parts) {
            ""@
        } else {
            parts.constant_text@
        }
    } else {
        let term = parts.terms@[n - 1];
        expression_text(names, parts, n - 1) + " "@ + coefficient_text(
            term.coefficient,
            term.coefficient_text@,
            n == 1 && constant_omitted(parts),
        ) + variable_text(names, term.variable)
    }
}

/// The text of a constraint: the label of its strength, its expression,
/// the sign of its relation and a zero, with blanks between them.
pub open spec fn constraint_text(names: Map<Variable, Seq<char>>, parts: ConstraintParts) -> Seq<
    char,
> {
    strength_text(parts.strength) + " "@ + expression_text(
        names,
        parts,
        parts.terms@.len() as int,
    ) + " "@ + relation_text(parts.relation) + " 0"@
}

/// The label of a strength.
pub fn strength_label(strength: Scalar) -> (r: &'static str)
    ensures
        r@ == strength_text(strength),
{
    if strength.less_than(Scalar::weak()) {
        "WEAK-"
    } else if strength.equals(Scalar::weak()) {
        "WEAK "
    } else if strength.less_than(Scalar::medium()) {
        "WEAK+"
    } else if strength.equals(Scalar::medium()) {
        "MED  "
    } else if strength.less_than(Scalar::strong()) {
        "MED+ "
    } else if strength.equals(Scalar::strong()) {
        "STR  "
    } else if strength.less_than(Scalar::required()) {
        "STR+ "
    } else if strength.equals(Scalar::required()) {
        "REQD "
    } else {
        "REQD+"
    }
}

/// The sign of a relation.
pub fn relation_sign(relation: Relation) -> (r: &'static str)
    ensures
        r@ == relation_text(relation),
{
    match relation {
        Relation::LessOrEqual => "<=",
        Relation::Equal => "==",
        Relation::GreaterOrEqual => ">=",
    }
}

/// What stands before the variable of a term.
fn fmt_coefficient(term: &TermParts, first: bool) -> (r: String)
    ensures
        r@ == coefficient_text(term.coefficient, term.coefficient_text@, first),
{
    let coefficient = term.coefficient;
    if coefficient.equals(Scalar::one()) {
        if first {
            String::from_str("")
        } else {
            String::from_str("+ ")
        }
    } else if coefficient.equals(Scalar::minus_one()) {
        String::from_str("- ")
    } else if Scalar::zero().less_than(coefficient) {
        if first {
            let mut out = term.coefficient_text.clone();
            out.append(" * ");
            out
        } else {
            let mut out = String::from_str("+ ");
            out.append(term.coefficient_text.as_str());
            out.append(" * ");
            out
        }
    } else {
        let mut out = String::from_str("- ");
        out.append(term.coefficient_text.as_str());
        out.append(" * ");
        out
    }
}

/// The text of the expression of a constraint.
pub fn fmt_expression(names: &VarNames, parts: &ConstraintParts) -> (r: String)
    requires
        names.wf(),
    ensures
        r@ == expression_text(texts(*names), *parts, parts.terms@.len() as int),
{
    let mut out = String::new();
    let mut first = true;
    if !parts.constant.equals(Scalar::zero()) {
        out.append(parts.constant_text.as_str());
        first = false;
    }
    proof {
        reveal_strlit("");
        assert(out@ =~= expression_text(texts(*names), *parts, 0));
    }
    let mut i: usize = 0;
    while i < parts.terms.len()
        invariant
            i <= parts.terms@.len(),
            names.wf(),
            first == (i == 0 && constant_omitted(*parts)),
            out@ == expression_text(texts(*names), *parts, i as int),
        decreases parts.terms@.len() - i,
    {
        let term = &parts.terms[i];
        let before = fmt_coefficient(term, first);
        let variable = fmt_variable(names, term.variable);
        out.append(" ");
        out.append(before.as_str());
        out.append(variable.as_str());
        first = false;
        i += 1;
    }
    out
}

/// The text of a constraint made of `parts`.
pub fn fmt_parts(names: &VarNames, parts: &ConstraintParts) -> (r: String)
    requires
        names.wf(),
    ensures
        r@ == constraint_text(texts(*names), *parts),
{
    let mut out = String::from_str(strength_label(parts.strength));
    let expression = fmt_expression(names, parts);
    out.append(" ");
    out.append(expression.as_str());
    out.append(" ");
    out.append(relation_sign(parts.relation));
    out.append(" 0");
    out
}

/// The text of a constraint.
pub fn fmt_constraint(names: &VarNames, constraint: &Constraint) -> (r: String)
    requires
        names.wf(),
    ensures
        r@ == constraint_text(texts(*names), constraint_parts(*constraint)),
{
    let parts = parts_of(constraint);
    fmt_parts(names, &parts)
}

} // verus!
