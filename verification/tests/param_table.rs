use modern_ees_core::equations::ConvergenceStatus;
use modern_ees_core::param_table::{column_error_message, row_outcome, sweep_rows, ColumnSpec};

#[test]
fn no_sweeps_give_one_empty_row() {
    let rows = sweep_rows(&Vec::new());
    assert_eq!(rows, vec![Vec::<usize>::new()]);
}

#[test]
fn rows_cover_every_combination_first_sweep_slowest() {
    let rows = sweep_rows(&vec![2, 3]);
    assert_eq!(
        rows,
        vec![vec![0, 0], vec![0, 1], vec![0, 2], vec![1, 0], vec![1, 1], vec![1, 2]]
    );
    assert_eq!(sweep_rows(&vec![2, 2, 2]).len(), 8);
}

#[test]
fn an_empty_sweep_gives_no_rows() {
    assert!(sweep_rows(&vec![3, 0, 2]).is_empty());
}

#[test]
fn row_outcomes() {
    assert_eq!(
        row_outcome(true, ConvergenceStatus::Converged, false),
        (ConvergenceStatus::Converged, true)
    );
    assert_eq!(
        row_outcome(true, ConvergenceStatus::Converged, true),
        (ConvergenceStatus::EvaluationError, false)
    );
    assert_eq!(
        row_outcome(false, ConvergenceStatus::SingularJacobian, false),
        (ConvergenceStatus::SingularJacobian, false)
    );
}

#[test]
fn column_error_names_column_and_expression() {
    let column = ColumnSpec { name: "x_col".to_string(), expression: "x +".to_string() };
    assert_eq!(
        column_error_message(&column, "Expected expression"),
        "Failed to evaluate column 'x_col' expression 'x +': Expected expression"
    );
}
