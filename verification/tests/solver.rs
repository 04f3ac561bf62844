use cassowary::strength::{MEDIUM, REQUIRED, STRONG, WEAK};
use cassowary::{Constraint, Expression, RelationalOperator, Term, Variable};
use limn_layout::engine::{IngestError, SolverError};
use limn_layout::layout::{
    EditRequest, EditVariable, LayoutBuilder, LayoutId, LayoutVars, Point, Rect, Size,
};
use limn_layout::scalar::Scalar;
use limn_layout::solver::LimnSolver;

fn num(x: f64) -> Scalar {
    Scalar::from_bits(x.to_bits())
}

fn val(s: Scalar) -> f64 {
    f64::from_bits(s.to_bits())
}

fn vars() -> LayoutVars {
    LayoutVars {
        left: Variable::new(),
        top: Variable::new(),
        right: Variable::new(),
        bottom: Variable::new(),
        width: Variable::new(),
        height: Variable::new(),
    }
}

fn equals(variable: Variable, value: f64, strength: f64) -> Constraint {
    let term = Term { variable, coefficient: 1.0 };
    Constraint::new(Expression::new(vec![term], -value), RelationalOperator::Equal, strength)
}

fn same(a: Variable, b: Variable, strength: f64) -> Constraint {
    let terms = vec![Term { variable: a, coefficient: 1.0 }, Term { variable: b, coefficient: -1.0 }];
    Constraint::new(Expression::new(terms, 0.0), RelationalOperator::Equal, strength)
}

fn zero_rect() -> Rect {
    Rect { origin: Point { x: num(0.0), y: num(0.0) }, size: Size { width: num(0.0), height: num(0.0) } }
}

fn builder(vars: LayoutVars, constraints: Vec<Constraint>) -> LayoutBuilder {
    LayoutBuilder { vars, edit_vars: Vec::new(), constraints }
}

fn perform(solver: &mut LimnSolver, request: &EditRequest) {
    if let Some(strength) = request.install {
        solver.solver.add_edit_variable(request.var, val(strength)).unwrap();
    }
    solver.solver.suggest_value(request.var, val(request.value)).unwrap();
}

fn harvest(solver: &mut LimnSolver) -> Vec<(LayoutId, Variable, f64)> {
    solver.fetch_changes().into_iter().map(|(id, var, value)| (id, var, val(value))).collect()
}

#[test]
fn new_solver_holds_nothing() {
    let mut solver = LimnSolver::new();
    let v = Variable::new();
    let c = equals(v, 1.0, REQUIRED);
    assert!(!solver.has_constraint(&c));
    assert!(!solver.has_edit_variable(&v));
    assert!(solver.fetch_changes().is_empty());
    assert!(solver.constraints().is_empty());
}

#[test]
fn added_widget_reports_its_solved_geometry() {
    let mut solver = LimnSolver::new();
    let a = vars();
    let width = equals(a.width, 100.0, REQUIRED);
    let left = equals(a.left, 0.0, REQUIRED);
    let mut bounds = zero_rect();
    let requests = solver
        .add_widget(7, &Some("a".to_string()), builder(a, vec![width.clone(), left.clone()]), &mut bounds)
        .unwrap();
    assert!(requests.is_empty());
    assert!(solver.has_constraint(&width));
    assert!(solver.has_constraint(&left));
    let changes = harvest(&mut solver);
    assert!(changes.contains(&(7, a.width, 100.0)));
    assert!(changes.iter().all(|&(id, _, _)| id == 7));
    assert_eq!(solver.solver.get_value(a.left), 0.0);
    assert_eq!(solver.solver.get_value(a.width), 100.0);
}

#[test]
fn removed_widget_reports_nothing_more() {
    let mut solver = LimnSolver::new();
    let a = vars();
    let width = equals(a.width, 100.0, REQUIRED);
    let left = equals(a.left, 0.0, REQUIRED);
    let mut bounds = zero_rect();
    solver.add_widget(7, &None, builder(a, vec![width.clone(), left.clone()]), &mut bounds).unwrap();
    harvest(&mut solver);
    assert_eq!(solver.remove_widget(&a), Ok(()));
    assert!(!solver.has_constraint(&width));
    assert!(!solver.has_constraint(&left));
    assert!(solver.constraints().is_empty());
    let changes = harvest(&mut solver);
    assert!(changes.iter().all(|&(id, _, _)| id != 7));
    assert!(changes.is_empty());
}

#[test]
fn constraint_added_twice_is_refused_as_duplicate() {
    let mut solver = LimnSolver::new();
    let a = vars();
    let width = equals(a.width, 100.0, REQUIRED);
    let left = equals(a.left, 0.0, REQUIRED);
    let mut bounds = zero_rect();
    solver.add_widget(7, &None, builder(a, vec![width.clone(), left.clone()]), &mut bounds).unwrap();
    let again = solver.update_from_builder(builder(a, vec![equals(a.top, 5.0, WEAK), width.clone()]));
    assert_eq!(
        again.err(),
        Some(IngestError { index: 1, cause: SolverError::DuplicateConstraint })
    );
    assert!(solver.has_constraint(&width));
    assert_eq!(solver.constraints().len(), 3);
}

#[test]
fn constraint_removed_with_its_widget_can_be_added_again() {
    let mut solver = LimnSolver::new();
    let a = vars();
    let width = equals(a.width, 100.0, REQUIRED);
    let mut bounds = zero_rect();
    solver.add_widget(7, &None, builder(a, vec![width.clone()]), &mut bounds).unwrap();
    solver.remove_widget(&a).unwrap();
    assert!(solver.update_from_builder(builder(a, vec![width.clone()])).is_ok());
    assert!(solver.has_constraint(&width));
}

#[test]
fn unsatisfiable_constraint_is_refused_and_the_rest_is_left_out() {
    let mut solver = LimnSolver::new();
    let a = vars();
    let first = equals(a.width, 100.0, REQUIRED);
    let second = equals(a.width, 50.0, REQUIRED);
    let third = equals(a.left, 1.0, REQUIRED);
    let outcome =
        solver.update_from_builder(builder(a, vec![first.clone(), second.clone(), third.clone()]));
    assert_eq!(
        outcome.err(),
        Some(IngestError { index: 1, cause: SolverError::UnsatisfiableConstraint })
    );
    assert!(solver.has_constraint(&first));
    assert!(!solver.has_constraint(&second));
    assert!(!solver.has_constraint(&third));
    assert_eq!(solver.constraints().len(), 1);
}

#[test]
fn hidden_widget_has_no_constraint_in_the_engine() {
    let mut solver = LimnSolver::new();
    let a = vars();
    let width = equals(a.width, 100.0, REQUIRED);
    let left = equals(a.left, 0.0, REQUIRED);
    let mut bounds = zero_rect();
    solver.add_widget(7, &None, builder(a, vec![width.clone(), left.clone()]), &mut bounds).unwrap();
    assert_eq!(solver.hide_widget(7, &a), Ok(()));
    assert!(!solver.has_constraint(&width));
    assert!(!solver.has_constraint(&left));
    assert_eq!(solver.unhide_widget(7), Ok(()));
    assert!(solver.has_constraint(&width));
    assert!(solver.has_constraint(&left));
}

#[test]
fn hiding_twice_and_showing_twice_do_nothing_more() {
    let mut solver = LimnSolver::new();
    let a = vars();
    let b = vars();
    let width = equals(a.width, 100.0, REQUIRED);
    let other = equals(b.width, 30.0, REQUIRED);
    let mut bounds = zero_rect();
    solver.add_widget(1, &None, builder(a, vec![width.clone()]), &mut bounds).unwrap();
    solver.add_widget(2, &None, builder(b, vec![other.clone()]), &mut bounds).unwrap();
    solver.hide_widget(1, &a).unwrap();
    solver.hide_widget(1, &b).unwrap();
    assert!(!solver.has_constraint(&width));
    assert!(solver.has_constraint(&other));
    solver.unhide_widget(1).unwrap();
    assert!(solver.has_constraint(&width));
    solver.unhide_widget(1).unwrap();
    solver.unhide_widget(9).unwrap();
    assert!(solver.has_constraint(&width));
    assert!(solver.has_constraint(&other));
}

#[test]
fn constraint_on_two_own_variables_survives_hiding() {
    let mut solver = LimnSolver::new();
    let a = vars();
    let square = same(a.width, a.height, REQUIRED);
    let width = equals(a.width, 40.0, STRONG);
    let mut bounds = zero_rect();
    solver.add_widget(3, &None, builder(a, vec![square.clone(), width.clone()]), &mut bounds).unwrap();
    solver.hide_widget(3, &a).unwrap();
    assert!(!solver.has_constraint(&square));
    assert!(!solver.has_constraint(&width));
    solver.unhide_widget(3).unwrap();
    assert!(solver.has_constraint(&square));
    assert!(solver.has_constraint(&width));
    assert_eq!(solver.constraints().len(), 2);
}

#[test]
fn hiding_leaves_the_ledger_and_removal_empties_it() {
    let mut solver = LimnSolver::new();
    let a = vars();
    let width = equals(a.width, 100.0, REQUIRED);
    let left = equals(a.left, 0.0, REQUIRED);
    let mut bounds = zero_rect();
    solver.add_widget(7, &None, builder(a, vec![width.clone(), left.clone()]), &mut bounds).unwrap();
    let ledger = solver.constraints();
    assert!(ledger.len() == 2 && ledger[0] == width && ledger[1] == left);
    solver.hide_widget(7, &a).unwrap();
    assert_eq!(solver.constraints().len(), 2);
    solver.unhide_widget(7).unwrap();
    solver.remove_widget(&a).unwrap();
    assert!(solver.constraints().is_empty());
}

#[test]
fn removal_takes_shared_constraints_out_of_the_other_widgets_lists() {
    let mut solver = LimnSolver::new();
    let a = vars();
    let b = vars();
    let shared = same(a.left, b.left, REQUIRED);
    let own = equals(b.width, 10.0, REQUIRED);
    let mut bounds = zero_rect();
    solver.add_widget(1, &None, builder(a, vec![]), &mut bounds).unwrap();
    solver.add_widget(2, &None, builder(b, vec![shared.clone(), own.clone()]), &mut bounds).unwrap();
    solver.remove_widget(&a).unwrap();
    assert!(!solver.has_constraint(&shared));
    assert!(solver.has_constraint(&own));
    solver.hide_widget(2, &b).unwrap();
    solver.unhide_widget(2).unwrap();
    assert!(!solver.has_constraint(&shared));
    assert!(solver.has_constraint(&own));
}

#[test]
fn second_harvest_returns_nothing() {
    let mut solver = LimnSolver::new();
    let a = vars();
    let mut bounds = zero_rect();
    solver
        .add_widget(7, &None, builder(a, vec![equals(a.width, 100.0, REQUIRED)]), &mut bounds)
        .unwrap();
    assert!(!solver.fetch_changes().is_empty());
    assert!(solver.fetch_changes().is_empty());
    assert!(solver.fetch_changes().is_empty());
}

#[test]
fn value_solved_before_registration_seeds_the_geometry() {
    let mut solver = LimnSolver::new();
    let a = vars();
    solver
        .update_from_builder(builder(
            a,
            vec![equals(a.width, 100.0, REQUIRED), equals(a.top, 25.0, REQUIRED)],
        ))
        .unwrap();
    assert!(solver.fetch_changes().is_empty());
    let mut bounds = Rect {
        origin: Point { x: num(3.0), y: num(4.0) },
        size: Size { width: num(5.0), height: num(6.0) },
    };
    solver.add_widget(7, &None, builder(a, vec![]), &mut bounds).unwrap();
    assert_eq!(val(bounds.size.width), 100.0);
    assert_eq!(val(bounds.origin.y), 25.0);
    assert_eq!(val(bounds.origin.x), 3.0);
    assert_eq!(val(bounds.size.height), 6.0);
    let b = vars();
    let mut other = zero_rect();
    let again = LayoutVars { width: a.width, ..b };
    solver.add_widget(8, &None, builder(again, vec![]), &mut other).unwrap();
    assert_eq!(val(other.size.width), 0.0);
}

#[test]
fn route_changes_sorts_owned_from_unowned() {
    let mut solver = LimnSolver::new();
    let a = vars();
    let stray = Variable::new();
    let mut bounds = zero_rect();
    solver.add_widget(4, &None, builder(a, vec![]), &mut bounds).unwrap();
    let routed = solver.route_changes(vec![
        (a.left, num(1.5)),
        (stray, num(2.5)),
        (a.height, num(3.5)),
        (a.right, num(4.5)),
        (stray, num(9.0)),
    ]);
    assert_eq!(routed, vec![(4, a.left, num(1.5)), (4, a.height, num(3.5))]);
    let loose = LayoutVars { left: stray, ..vars() };
    let mut seeded = zero_rect();
    solver.add_widget(5, &None, builder(loose, vec![]), &mut seeded).unwrap();
    assert_eq!(val(seeded.origin.x), 9.0);
}

#[test]
fn declared_strength_is_used_when_a_value_is_suggested() {
    let mut solver = LimnSolver::new();
    let a = vars();
    let layout = LayoutBuilder {
        vars: a,
        edit_vars: vec![EditVariable { var: a.left, val: None, strength: num(MEDIUM) }],
        constraints: vec![equals(a.left, 3.0, WEAK)],
    };
    let mut bounds = zero_rect();
    let requests = solver.add_widget(7, &None, layout, &mut bounds).unwrap();
    assert!(requests.is_empty());
    assert!(!solver.has_edit_variable(&a.left));
    let request = solver.edit_variable(a.left, num(10.0));
    assert_eq!(request.var, a.left);
    assert_eq!(request.install, Some(num(MEDIUM)));
    assert_eq!(request.value, num(10.0));
    perform(&mut solver, &request);
    assert!(solver.has_edit_variable(&a.left));
    let changes = harvest(&mut solver);
    assert!(changes.contains(&(7, a.left, 10.0)));
    let next = solver.edit_variable(a.left, num(12.0));
    assert_eq!(next.install, None);
    perform(&mut solver, &next);
    assert!(harvest(&mut solver).contains(&(7, a.left, 12.0)));
}

#[test]
fn edit_without_a_declared_strength_is_strong() {
    let mut solver = LimnSolver::new();
    let v = Variable::new();
    let request = solver.edit_variable(v, num(1.0));
    assert_eq!(request.install, Some(num(STRONG)));
    let once_more = solver.edit_variable(v, num(2.0));
    assert_eq!(once_more.install, Some(num(STRONG)));
}

#[test]
fn cached_strength_is_used_once() {
    let mut solver = LimnSolver::new();
    let v = Variable::new();
    let layout = LayoutBuilder {
        vars: vars(),
        edit_vars: vec![
            EditVariable { var: v, val: None, strength: num(WEAK) },
            EditVariable { var: v, val: None, strength: num(MEDIUM) },
        ],
        constraints: vec![],
    };
    solver.update_from_builder(layout).unwrap();
    assert_eq!(solver.edit_variable(v, num(1.0)).install, Some(num(MEDIUM)));
    assert_eq!(solver.edit_variable(v, num(1.0)).install, Some(num(STRONG)));
}

#[test]
fn directive_with_a_value_asks_for_one_installation() {
    let mut solver = LimnSolver::new();
    let a = vars();
    let layout = LayoutBuilder {
        vars: a,
        edit_vars: vec![
            EditVariable { var: a.width, val: Some(num(20.0)), strength: num(STRONG) },
            EditVariable { var: a.height, val: None, strength: num(WEAK) },
            EditVariable { var: a.width, val: Some(num(30.0)), strength: num(WEAK) },
        ],
        constraints: vec![],
    };
    let mut bounds = zero_rect();
    let requests = solver.add_widget(1, &None, layout, &mut bounds).unwrap();
    assert_eq!(requests.len(), 2);
    assert_eq!(requests[0].install, Some(num(STRONG)));
    assert_eq!(requests[0].value, num(20.0));
    assert_eq!(requests[1].install, None);
    assert_eq!(requests[1].value, num(30.0));
    for request in &requests {
        perform(&mut solver, request);
    }
    assert!(harvest(&mut solver).contains(&(1, a.width, 30.0)));
    let later = solver.update_from_builder(LayoutBuilder {
        vars: a,
        edit_vars: vec![EditVariable { var: a.width, val: Some(num(40.0)), strength: num(WEAK) }],
        constraints: vec![],
    });
    assert_eq!(later.unwrap()[0].install, None);
}

#[test]
fn with_names_keeps_the_table_it_is_given() {
    let solver = LimnSolver::with_names(None);
    assert!(solver.names().is_none());
    let named = LimnSolver::new();
    assert_eq!(named.names().map(|table| table.len()), Some(0));
}

#[test]
fn constraint_taken_in_again_becomes_the_ledgers_last() {
    let mut solver = LimnSolver::new();
    let a = vars();
    let width = equals(a.width, 100.0, REQUIRED);
    let left = equals(a.left, 2.0, REQUIRED);
    let mut bounds = zero_rect();
    solver.add_widget(7, &None, builder(a, vec![width.clone(), left.clone()]), &mut bounds).unwrap();
    solver.hide_widget(7, &a).unwrap();
    solver.update_from_builder(builder(a, vec![width.clone()])).unwrap();
    let ledger = solver.constraints();
    assert!(ledger.len() == 2 && ledger[0] == left && ledger[1] == width);
    assert!(solver.has_constraint(&width));
    solver.unhide_widget(7).unwrap();
    assert!(solver.has_constraint(&left));
    solver.remove_widget(&a).unwrap();
    assert!(!solver.has_constraint(&width));
    assert!(!solver.has_constraint(&left));
    assert!(solver.constraints().is_empty());
}

#[test]
fn declare_edit_variables_asks_for_each_value_in_turn() {
    let mut solver = LimnSolver::new();
    let (x, y) = (Variable::new(), Variable::new());
    let requests = solver.declare_edit_variables(&vec![
        EditVariable { var: x, val: Some(num(1.0)), strength: num(WEAK) },
        EditVariable { var: y, val: None, strength: num(MEDIUM) },
        EditVariable { var: y, val: Some(num(2.0)), strength: num(STRONG) },
    ]);
    assert_eq!(requests.len(), 2);
    assert_eq!((requests[0].var, requests[0].install), (x, Some(num(WEAK))));
    assert_eq!((requests[1].var, requests[1].install), (y, Some(num(STRONG))));
    for request in &requests {
        perform(&mut solver, request);
    }
    assert!(solver.has_edit_variable(&x) && solver.has_edit_variable(&y));
    assert_eq!(solver.solver.get_value(y), 2.0);
}

#[test]
fn constraint_added_records_only_what_the_engine_took() {
    let mut solver = LimnSolver::new();
    let a = vars();
    let width = equals(a.width, 100.0, REQUIRED);
    let left = equals(a.left, 1.0, REQUIRED);
    assert_eq!(
        solver.constraint_added(&left, Err(SolverError::UnsatisfiableConstraint)),
        Err(SolverError::UnsatisfiableConstraint)
    );
    assert!(solver.constraints().is_empty());
    solver.solver.add_constraint(width.clone()).unwrap();
    assert_eq!(solver.constraint_added(&width, Ok(())), Ok(()));
    let ledger = solver.constraints();
    assert!(ledger.len() == 1 && ledger[0] == width);
    solver.hide_widget(1, &a).unwrap();
    assert!(!solver.has_constraint(&width));
    solver.unhide_widget(1).unwrap();
    assert!(solver.has_constraint(&width));
}

#[test]
fn constraint_removed_strikes_only_what_the_engine_let_go() {
    let mut solver = LimnSolver::new();
    let a = vars();
    let width = equals(a.width, 100.0, REQUIRED);
    let both = same(a.width, a.left, REQUIRED);
    solver.update_from_builder(builder(a, vec![width.clone(), both.clone()])).unwrap();
    assert_eq!(
        solver.constraint_removed(&width, Err(SolverError::InternalSolverError)),
        Err(SolverError::InternalSolverError)
    );
    assert_eq!(solver.constraints().len(), 2);
    solver.solver.remove_constraint(&both).unwrap();
    assert_eq!(solver.constraint_removed(&both, Ok(())), Ok(()));
    let ledger = solver.constraints();
    assert!(ledger.len() == 1 && ledger[0] == width);
    solver.solver.add_constraint(both.clone()).unwrap();
    solver.hide_widget(1, &a).unwrap();
    assert!(!solver.has_constraint(&width));
    assert!(solver.has_constraint(&both));
}
