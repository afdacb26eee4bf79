use modern_ees_core::equations::{
    classify_system, constant_assignments, discover_identifiers, discover_unknowns,
    extract_equations, identifier_error, is_equation_statement, known_strings,
    not_converged_message, not_square_message, status_label, ConvergenceStatus, SystemShape,
};
use modern_ees_core::diagnostic::{join_messages, Diagnostic, Position, Span};
use modern_ees_core::{parse_expression, parse_program};

fn names(v: &[&str]) -> Vec<String> {
    v.iter().map(|s| s.to_string()).collect()
}

#[test]
fn unknowns_are_the_variables_of_equations_not_known() {
    let program = parse_program("x + y = 5\nx - y = 1\n").expect("program should parse");
    assert_eq!(discover_unknowns(&program, &Vec::new()), names(&["x", "y"]));
}

#[test]
fn constants_and_fixed_names_are_not_unknowns() {
    let program = parse_program("p = 100\ntarget = 40\nh(\"Water\", t, p) = target\n")
        .expect("program should parse");
    let known: Vec<String> = constant_assignments(&program).into_iter().map(|c| c.0).collect();
    assert_eq!(known, names(&["p", "target"]));
    assert_eq!(discover_unknowns(&program, &known), names(&["t"]));
    let mut fixed = known.clone();
    fixed.push("t".to_string());
    assert!(discover_unknowns(&program, &fixed).is_empty());
}

#[test]
fn unknowns_are_sorted_and_unique() {
    let program = parse_program("zeta + b = a * b\nb = sin(alpha) + zeta\n")
        .expect("program should parse");
    assert_eq!(discover_unknowns(&program, &Vec::new()), names(&["a", "alpha", "b", "zeta"]));
}

#[test]
fn unknowns_include_keyword_argument_values() {
    let program = parse_program("Enthalpy(\"Water\", P=p1, T=t1) = target\n")
        .expect("program should parse");
    assert_eq!(discover_unknowns(&program, &names(&["target"])), names(&["p1", "t1"]));
}

#[test]
fn equations_exclude_constant_and_string_assignments() {
    let program = parse_program("a = 1\nb = 2 [m]\nf = \"Water\"\nx = a + 1\n2 = y\n")
        .expect("program should parse");
    assert_eq!(extract_equations(&program), vec![3, 4]);
    assert!(!is_equation_statement(&program.statements[0]));
    assert!(is_equation_statement(&program.statements[3]));
    let constants = constant_assignments(&program);
    assert_eq!(constants.len(), 2);
    assert_eq!(constants[0], ("a".to_string(), "1".to_string()));
    assert_eq!(constants[1], ("b".to_string(), "2".to_string()));
}

#[test]
fn later_string_assignment_wins() {
    let program = parse_program("f = \"Water\"\ng = \"R134a\"\nf = \"Air\"\n")
        .expect("program should parse");
    let strings = known_strings(&program);
    assert_eq!(strings.get(&"f".to_string()), Some(&"Air".to_string()));
    assert_eq!(strings.get(&"g".to_string()), Some(&"R134a".to_string()));
    assert_eq!(strings.get(&"h".to_string()), None);
}

#[test]
fn identifiers_of_the_whole_program() {
    let program = parse_program("b = 1\na = b + c\n").expect("program should parse");
    assert_eq!(discover_identifiers(&program), names(&["a", "b", "c"]));
}

#[test]
fn system_shapes_and_messages() {
    assert_eq!(classify_system(1, 0), SystemShape::NoUnknowns);
    assert_eq!(classify_system(1, 2), SystemShape::NotSquare);
    assert_eq!(classify_system(2, 2), SystemShape::Square);
    assert_eq!(not_square_message(1, 2), "System is not square: 1 equations for 2 unknowns");
    assert_eq!(not_square_message(10, 305), "System is not square: 10 equations for 305 unknowns");
    assert_eq!(not_converged_message(50), "Solver did not converge in 50 iterations");
    assert_eq!(not_converged_message(0), "Solver did not converge in 0 iterations");
}

#[test]
fn identifier_errors_tell_unknowns_from_undefined_names() {
    let unknowns = names(&["x"]);
    assert_eq!(
        identifier_error(&"x".to_string(), &unknowns),
        "Unknown variable 'x' has no value in environment"
    );
    assert_eq!(identifier_error(&"q".to_string(), &unknowns), "Identifier 'q' is not defined");
}

#[test]
fn status_labels() {
    assert_eq!(status_label(ConvergenceStatus::MaxIterations), "solver_maxiterations");
    assert_eq!(status_label(ConvergenceStatus::SingularJacobian), "solver_singularjacobian");
    assert_eq!(status_label(ConvergenceStatus::LineSearchFailed), "solver_linesearchfailed");
}

#[test]
fn expression_errors_join_into_one_line() {
    let diagnostics = parse_expression("x +").expect_err("should fail");
    let line = join_messages(&diagnostics);
    assert!(!line.is_empty());
    let expected: Vec<String> = diagnostics.iter().map(|d| d.message.clone()).collect();
    assert_eq!(line, expected.join("; "));
    assert_eq!(join_messages(&Vec::new()), "");
}

#[test]
fn joined_messages_are_separated() {
    let at = Position { line: 1, column: 1, offset: 0 };
    let span = Span { start: at, end: at };
    let diagnostics = vec![
        Diagnostic::from_str("first", span),
        Diagnostic::from_str("second", span),
        Diagnostic::from_str("third", span),
    ];
    assert_eq!(join_messages(&diagnostics), "first; second; third");
}
