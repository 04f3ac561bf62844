use cassowary::strength::{MEDIUM, REQUIRED, STRONG, WEAK};
use cassowary::{Constraint, Expression, RelationalOperator, Term, Variable};
use limn_layout::assoc::AssocList;
use limn_layout::engine::{ConstraintParts, Relation, TermParts};
use limn_layout::format::{
    fmt_constraint, fmt_expression, fmt_parts, relation_sign, strength_label,
};
use limn_layout::layout::{LayoutBuilder, LayoutVars, Point, Rect, Size};
use limn_layout::names::{add_debug_var_name, fmt_variable, sorted_variables, VarNames};
use limn_layout::scalar::Scalar;
use limn_layout::solver::LimnSolver;

fn num(x: f64) -> Scalar {
    Scalar::from_bits(x.to_bits())
}

fn term(variable: Variable, coefficient: f64) -> Term {
    Term { variable, coefficient }
}

fn part(variable: Variable, coefficient: f64) -> TermParts {
    TermParts {
        variable,
        coefficient: num(coefficient),
        coefficient_text: format!("{}", coefficient),
    }
}

fn parts(strength: f64, relation: Relation, constant: f64, terms: Vec<TermParts>) -> ConstraintParts {
    ConstraintParts {
        strength: num(strength),
        relation,
        constant: num(constant),
        constant_text: format!("{}", constant),
        terms,
    }
}

fn fresh_vars() -> LayoutVars {
    LayoutVars {
        left: Variable::new(),
        top: Variable::new(),
        right: Variable::new(),
        bottom: Variable::new(),
        width: Variable::new(),
        height: Variable::new(),
    }
}

#[test]
fn strength_label_has_nine_buckets() {
    assert_eq!(strength_label(num(0.5)), "WEAK-");
    assert_eq!(strength_label(num(0.0)), "WEAK-");
    assert_eq!(strength_label(num(-1.0)), "WEAK-");
    assert_eq!(strength_label(num(WEAK)), "WEAK ");
    assert_eq!(strength_label(num(2.0)), "WEAK+");
    assert_eq!(strength_label(num(999.0)), "WEAK+");
    assert_eq!(strength_label(num(MEDIUM)), "MED  ");
    assert_eq!(strength_label(num(5000.0)), "MED+ ");
    assert_eq!(strength_label(num(STRONG)), "STR  ");
    assert_eq!(strength_label(num(2e6)), "STR+ ");
    assert_eq!(strength_label(num(REQUIRED)), "REQD ");
    assert_eq!(strength_label(num(2e9)), "REQD+");
    assert_eq!(strength_label(num(f64::NAN)), "REQD+");
}

#[test]
fn relation_sign_is_the_engines() {
    assert_eq!(relation_sign(Relation::LessOrEqual), format!("{}", RelationalOperator::LessOrEqual));
    assert_eq!(relation_sign(Relation::Equal), format!("{}", RelationalOperator::Equal));
    assert_eq!(
        relation_sign(Relation::GreaterOrEqual),
        format!("{}", RelationalOperator::GreaterOrEqual)
    );
    assert_eq!(relation_sign(Relation::LessOrEqual), "<=");
    assert_eq!(relation_sign(Relation::Equal), "==");
    assert_eq!(relation_sign(Relation::GreaterOrEqual), ">=");
}

#[test]
fn fmt_variable_prefers_the_name() {
    let mut names: VarNames = AssocList::new();
    let named = Variable::new();
    let plain = Variable::new();
    add_debug_var_name(&mut names, named, "box.left");
    assert_eq!(fmt_variable(&names, named), "box.left");
    assert_eq!(fmt_variable(&names, plain), format!("var({:?})", plain));
    add_debug_var_name(&mut names, named, "other.left");
    assert_eq!(fmt_variable(&names, named), "other.left");
    assert_eq!(names.len(), 1);
}

#[test]
fn fmt_parts_writes_constant_and_unit_term() {
    let mut names: VarNames = AssocList::new();
    let width = Variable::new();
    add_debug_var_name(&mut names, width, "a.width");
    let text = fmt_parts(&names, &parts(REQUIRED, Relation::Equal, -100.0, vec![part(width, 1.0)]));
    assert_eq!(text, "REQD  -100 + a.width == 0");
}

#[test]
fn fmt_parts_elides_unit_coefficients_and_keeps_others() {
    let mut names: VarNames = AssocList::new();
    let (x, y, z, w) = (Variable::new(), Variable::new(), Variable::new(), Variable::new());
    add_debug_var_name(&mut names, x, "x");
    add_debug_var_name(&mut names, y, "y");
    add_debug_var_name(&mut names, z, "z");
    add_debug_var_name(&mut names, w, "w");
    let all = parts(
        WEAK,
        Relation::LessOrEqual,
        0.0,
        vec![part(x, 2.5), part(y, -1.0), part(z, -3.0), part(w, 1.0), part(x, 4.0)],
    );
    assert_eq!(fmt_expression(&names, &all), " 2.5 * x - y - -3 * z + w + 4 * x");
    assert_eq!(fmt_parts(&names, &all), "WEAK   2.5 * x - y - -3 * z + w + 4 * x <= 0");
    let unit = parts(STRONG, Relation::GreaterOrEqual, 0.0, vec![part(x, 1.0)]);
    assert_eq!(fmt_parts(&names, &unit), "STR    x >= 0");
    let bare = parts(MEDIUM, Relation::Equal, 7.0, vec![]);
    assert_eq!(fmt_parts(&names, &bare), "MED   7 == 0");
    let nothing = parts(MEDIUM, Relation::Equal, -0.0, vec![]);
    assert_eq!(fmt_parts(&names, &nothing), "MED    == 0");
}

#[test]
fn fmt_constraint_reads_the_engines_constraint() {
    let mut names: VarNames = AssocList::new();
    let (x, y) = (Variable::new(), Variable::new());
    add_debug_var_name(&mut names, x, "x");
    let constraint = Constraint::new(
        Expression::new(vec![term(x, 1.0), term(y, -2.0)], 3.5),
        RelationalOperator::GreaterOrEqual,
        750.0,
    );
    assert_eq!(
        fmt_constraint(&names, &constraint),
        format!("WEAK+ 3.5 + x - -2 * var({:?}) >= 0", y)
    );
}

#[test]
fn sorted_variables_orders_and_drops_repetitions() {
    let a = Variable::new();
    let b = Variable::new();
    let c = Variable::new();
    let mut expected = vec![c, a, b];
    expected.sort();
    assert_eq!(sorted_variables(&vec![c, a, b, a, c]), expected);
    assert_eq!(sorted_variables(&vec![]), Vec::<Variable>::new());
}

#[test]
fn debug_listings_name_constraints_and_variables() {
    let mut solver = LimnSolver::new();
    let a = fresh_vars();
    let width = Constraint::new(
        Expression::new(vec![term(a.width, 1.0)], -100.0),
        RelationalOperator::Equal,
        REQUIRED,
    );
    let top = Constraint::new(
        Expression::new(vec![term(a.top, 2.0)], 0.0),
        RelationalOperator::LessOrEqual,
        WEAK,
    );
    let zero = num(0.0);
    let mut bounds = Rect { origin: Point { x: zero, y: zero }, size: Size { width: zero, height: zero } };
    let layout = LayoutBuilder { vars: a, edit_vars: vec![], constraints: vec![width, top] };
    solver.add_widget(1, &Some("a".to_string()), layout, &mut bounds).unwrap();
    assert_eq!(
        solver.debug_constraints(),
        vec![
            "CONSTRAINTS".to_string(),
            "REQD  -100 + a.width == 0".to_string(),
            "WEAK   2 * a.top <= 0".to_string(),
        ]
    );
    let mut order = vec![
        (a.left, "a.left"),
        (a.top, "a.top"),
        (a.right, "a.right"),
        (a.bottom, "a.bottom"),
        (a.width, "a.width"),
        (a.height, "a.height"),
    ];
    order.sort();
    let mut expected = vec!["VARIABLES".to_string()];
    for (variable, name) in order {
        expected.push(format!("{} = {}", name, solver.solver.get_value(variable)));
    }
    assert_eq!(solver.debug_variables(), expected);
    assert!(expected.contains(&"a.width = 100".to_string()));
    let table = solver.names().unwrap();
    assert_eq!(fmt_variable(table, a.bottom), "a.bottom");
}

#[test]
fn solver_without_names_lists_plain_variables() {
    let mut solver = LimnSolver::with_names(None);
    let a = fresh_vars();
    let width = Constraint::new(
        Expression::new(vec![term(a.width, 1.0)], -100.0),
        RelationalOperator::Equal,
        REQUIRED,
    );
    let zero = num(0.0);
    let mut bounds = Rect { origin: Point { x: zero, y: zero }, size: Size { width: zero, height: zero } };
    let layout = LayoutBuilder { vars: a, edit_vars: vec![], constraints: vec![width] };
    solver.add_widget(1, &Some("a".to_string()), layout, &mut bounds).unwrap();
    assert_eq!(
        solver.debug_constraints(),
        vec!["CONSTRAINTS".to_string(), format!("REQD  -100 + var({:?}) == 0", a.width)]
    );
    assert_eq!(solver.debug_variables(), vec!["VARIABLES".to_string()]);
}
