use modern_ees_core::ast::StatementKind;
use modern_ees_core::diagnostic::Diagnostic;
use modern_ees_core::names::NameMap;
use modern_ees_core::units::{
    analyze_units, infer_expr_unit, Dimension, UnitRegistry,
};

fn infer_unit_for_program_rhs(source: &str) -> Result<Option<Dimension>, Vec<Diagnostic>> {
    let program = modern_ees_core::parse_program(source).expect("program should parse");
    let StatementKind::Assignment { rhs, .. } = &program.statements[0].kind;
    let mut diagnostics = Vec::new();
    let unit = infer_expr_unit(rhs, &NameMap::new(), &UnitRegistry::new(), &mut diagnostics);
    if diagnostics.is_empty() {
        Ok(unit.as_known())
    } else {
        Err(diagnostics)
    }
}

#[test]
fn matching_units_no_diagnostic() {
    let program =
        modern_ees_core::parse_program("a = 1 [m] + 2 [m]\n").expect("parse should succeed");
    let diagnostics = analyze_units(&program);
    assert!(diagnostics.is_empty());
}

#[test]
fn mismatch_units_has_diagnostic() {
    let program =
        modern_ees_core::parse_program("a = 1 [m] + 2 [s]\n").expect("parse should succeed");
    let diagnostics = analyze_units(&program);
    assert!(!diagnostics.is_empty());
}

#[test]
fn multiply_dims_infers_area() {
    let unit = infer_unit_for_program_rhs("A = 2 [m] * 3 [m]\n")
        .expect("unit inference should succeed")
        .expect("unit should be known");
    assert_eq!(
        unit,
        Dimension {
            length: 2,
            ..Dimension::default()
        }
    );
}

#[test]
fn division_dims_infers_density() {
    let unit = infer_unit_for_program_rhs("rho = 1 [kg] / 1 [m^3]\n")
        .expect("unit inference should succeed")
        .expect("unit should be known");
    assert_eq!(
        unit,
        Dimension {
            mass: 1,
            length: -3,
            ..Dimension::default()
        }
    );
}

#[test]
fn conversion_ok_no_diagnostic() {
    let program = modern_ees_core::parse_program("x = to(12 [in], \"ft\")\n")
        .expect("parse should succeed");
    let diagnostics = analyze_units(&program);
    assert!(diagnostics.is_empty());
}

#[test]
fn conversion_mismatch_has_diagnostic() {
    let program =
        modern_ees_core::parse_program("x = to(1 [m], \"s\")\n").expect("parse should succeed");
    let diagnostics = analyze_units(&program);
    assert!(!diagnostics.is_empty());
}

#[test]
fn unknown_var_tolerated() {
    let program =
        modern_ees_core::parse_program("a = b + 1 [m]\n").expect("parse should succeed");
    let diagnostics = analyze_units(&program);
    assert!(diagnostics.is_empty());
}

#[test]
fn invalid_unit_string_has_diagnostic() {
    let program =
        modern_ees_core::parse_program("a = 1 [not_a_unit]\n").expect("parse should succeed");
    let diagnostics = analyze_units(&program);
    assert!(!diagnostics.is_empty());
}

fn unit_error(text: &str) -> String {
    UnitRegistry::new().parse_unit_string(text).expect_err("unit string must be refused")
}

fn messages(source: &str) -> Vec<String> {
    let program = modern_ees_core::parse_program(source).expect("parse should succeed");
    analyze_units(&program).into_iter().map(|d| d.message).collect()
}

#[test]
fn unit_string_errors() {
    assert_eq!(unit_error("  "), "Unit string is empty");
    assert_eq!(unit_error("m#"), "Invalid unit token starting at '#'");
    assert_eq!(unit_error("furlong"), "Unknown unit 'furlong'");
    assert_eq!(unit_error("m^"), "Missing exponent after '^'");
    assert_eq!(unit_error("m^x"), "Exponent must be an integer");
    assert_eq!(unit_error("m^-"), "Exponent must be an integer");
    assert_eq!(unit_error("m^99999999999"), "Exponent out of range");
}

#[test]
fn unit_strings_with_negative_exponents_and_products() {
    let registry = UnitRegistry::new();
    let a = registry.parse_unit_string("kg*m^-3").expect("density");
    let b = registry.parse_unit_string("kg/m^3").expect("density");
    assert_eq!(a, b);
    assert_eq!(a.dimension, Dimension { mass: 1, length: -3, ..Dimension::default() });
}

#[test]
fn analysis_messages() {
    assert_eq!(
        messages("a = 1 [m] + 2 [s]\n"),
        vec!["Addition/subtraction requires compatible units".to_string()]
    );
    assert_eq!(
        messages("a = 2 ^ (1 [m])\n"),
        vec!["Exponent must be dimensionless".to_string()]
    );
    assert_eq!(
        messages("a = 2 [m] ^ 1.5\n"),
        vec!["Exponent must be an integer literal".to_string()]
    );
    assert_eq!(
        messages("a = 1 [m]\na = 2 [s]\n"),
        vec!["Assignment has incompatible units".to_string()]
    );
    assert_eq!(
        messages("x = to(1 [m], \"s\")\n"),
        vec!["to() conversion requires compatible units".to_string()]
    );
    assert_eq!(
        messages("x = to(1 [m], \"bogus\")\n"),
        vec!["Invalid conversion target unit 'bogus': Unknown unit 'bogus'".to_string()]
    );
    assert_eq!(
        messages("x = to(1 [m], m)\n"),
        vec!["to(x, unit) requires a string literal unit".to_string()]
    );
    assert_eq!(
        messages("a = 1 [not_a_unit]\n"),
        vec!["Invalid unit string 'not_a_unit': Unknown unit 'not_a_unit'".to_string()]
    );
    assert!(messages("a = 2 [m] ^ 2\nb = a * 1 [m]\n").is_empty());
}

#[test]
fn analysis_reports_exponents_out_of_range() {
    assert_eq!(
        messages("a = 1 [m^2000000000] * 1 [m^2000000000]\n"),
        vec!["Unit exponent out of range".to_string()]
    );
}
