use modern_ees_core::ast::{ExprKind, StatementKind};
use modern_ees_core::calls::{
    argument_value, classify_function, plan_call, property_failure_message, state_value_unit,
    CallPlan, FunctionKind, MathFunction, StateInput,
};
use modern_ees_core::equations::known_strings;
use modern_ees_core::names::NameMap;
use modern_ees_core::parse_program;
use modern_ees_core::props::{Prop, PropsError, StateVar};
use modern_ees_core::units::Dimension;

/// The plan of the call on the right-hand side of the last statement.
fn plan_of(source: &str) -> Result<CallPlan, String> {
    let program = parse_program(source).expect("program should parse");
    let strings = known_strings(&program);
    let StatementKind::Assignment { rhs, .. } = &program.statements[program.statements.len() - 1].kind;
    match &rhs.kind {
        ExprKind::Call { callee, args } => plan_call(callee, args, &strings),
        _ => panic!("expected a call"),
    }
}

fn failure_of(plan: Result<CallPlan, String>) -> String {
    match plan {
        Err(m) => m,
        Ok(CallPlan::Property { failure: Some(m), .. }) => m,
        other => panic!("expected a failure, got {other:?}"),
    }
}

#[test]
fn functions_are_classified_ignoring_case() {
    assert_eq!(classify_function("SIN"), Some(FunctionKind::Math(MathFunction::Sin)));
    assert_eq!(classify_function("log"), Some(FunctionKind::Math(MathFunction::Ln)));
    assert_eq!(classify_function("Rho"), Some(FunctionKind::Positional(Prop::D)));
    assert_eq!(classify_function("T_from_ph"), Some(FunctionKind::Positional(Prop::T)));
    assert_eq!(classify_function("Enthalpy"), Some(FunctionKind::Keyword(Prop::H)));
    assert_eq!(classify_function("frobnicate"), None);
}

#[test]
fn keyword_call_in_any_order_reads_both_inputs() {
    match plan_of("target = 1234.5\nx = Enthalpy(\"Water\", P=101325, T=300)\n") {
        Ok(CallPlan::Property { name, fluid, out, inputs, failure }) => {
            assert_eq!(name, "Enthalpy");
            assert_eq!(fluid, "Water");
            assert_eq!(out, Prop::H);
            assert_eq!(
                inputs,
                vec![StateInput { var: StateVar::P, arg: 1 }, StateInput { var: StateVar::T, arg: 2 }]
            );
            assert_eq!(failure, None);
        }
        other => panic!("unexpected plan {other:?}"),
    }
}

#[test]
fn keyword_call_reports_duplicate_missing_and_unknown() {
    let duplicate = failure_of(plan_of("x = Enthalpy(\"Water\", T=300, T=310)\n"));
    assert_eq!(duplicate, "Function 'Enthalpy' received duplicate state key 'T'");
    let missing = failure_of(plan_of("x = Entropy(\"Water\", T=300)\n"));
    assert_eq!(missing, "Function 'Entropy' expects fluid plus two state keyword arguments");
    let unknown = failure_of(plan_of("x = Density(\"Water\", X=1, P=101325)\n"));
    assert_eq!(unknown, "Function 'Density' received unknown state key 'X'");
    let three = failure_of(plan_of("x = Density(\"Water\", T=1, P=2, H=3)\n"));
    assert_eq!(three, "Function 'Density' requires exactly two state keywords");
    let positional = failure_of(plan_of("x = Density(\"Water\", 1, P=2)\n"));
    assert_eq!(positional, "Function 'Density' expects keyword state arguments after fluid");
}

#[test]
fn positional_property_call_plans_its_inputs() {
    match plan_of("p = 100\nx = h(\"Water\", t, p)\n") {
        Ok(CallPlan::Property { name, out, inputs, failure, .. }) => {
            assert_eq!(name, "h");
            assert_eq!(out, Prop::H);
            assert_eq!(
                inputs,
                vec![StateInput { var: StateVar::T, arg: 1 }, StateInput { var: StateVar::P, arg: 2 }]
            );
            assert_eq!(failure, None);
        }
        other => panic!("unexpected plan {other:?}"),
    }
    match plan_of("x = t_from_ph(\"Water\", 1, H=2)\n") {
        Ok(CallPlan::Property { inputs, failure, .. }) => {
            assert_eq!(inputs, vec![StateInput { var: StateVar::P, arg: 1 }]);
            assert_eq!(failure, Some("Expected positional numeric argument".to_string()));
        }
        other => panic!("unexpected plan {other:?}"),
    }
    assert_eq!(
        failure_of(plan_of("x = h(\"Water\", 1)\n")),
        "Function 'h' expects 3 arguments"
    );
}

#[test]
fn fluid_from_a_string_variable() {
    match plan_of("f = \"R134a\"\nx = s(f, 280, 900000)\n") {
        Ok(CallPlan::Property { fluid, .. }) => assert_eq!(fluid, "R134a"),
        other => panic!("unexpected plan {other:?}"),
    }
    assert_eq!(
        failure_of(plan_of("x = s(g, 280, 900000)\n")),
        "Function 's' requires first argument fluid as string literal or string variable"
    );
    assert_eq!(
        failure_of(plan_of("x = Entropy(fluid=\"Water\", T=1, P=2)\n")),
        "Function 'Entropy' requires first argument fluid as positional string"
    );
}

#[test]
fn math_and_unsupported_calls() {
    assert!(matches!(plan_of("x = sqrt(2)\n"), Ok(CallPlan::Math { function: MathFunction::Sqrt })));
    assert_eq!(failure_of(plan_of("x = ln(1, 2)\n")), "Function 'ln/log' expects 1 argument");
    assert_eq!(
        failure_of(plan_of("x = cos(a=1)\n")),
        "Function 'cos' expects positional arguments"
    );
    assert_eq!(failure_of(plan_of("x = Foo(1)\n")), "Unsupported function 'Foo'");
}

#[test]
fn quantity_arguments_carry_their_units() {
    let program =
        parse_program("Density(\"Water\", T=300 [K], P=101325 [kg/m/s^2]) = 997\n").expect("parse");
    let StatementKind::Assignment { lhs, .. } = &program.statements[0].kind;
    let ExprKind::Call { args, .. } = &lhs.kind else { panic!("expected call") };
    let t = state_value_unit(argument_value(&args[1])).expect("unit should parse").expect("quantity");
    assert_eq!(t.dimension, Dimension { mass: 0, length: 0, time: 0, temperature: 1 });
    let p = state_value_unit(argument_value(&args[2])).expect("unit should parse").expect("quantity");
    assert_eq!(p.dimension, Dimension { mass: 1, length: -1, time: -2, temperature: 0 });
    assert_eq!(state_value_unit(argument_value(&args[0])), Ok(None));

    let bad = parse_program("x = Density(\"Water\", T=300 [bogus], P=1)\n").expect("parse");
    let StatementKind::Assignment { rhs, .. } = &bad.statements[0].kind;
    let ExprKind::Call { args, .. } = &rhs.kind else { panic!("expected call") };
    let err = state_value_unit(argument_value(&args[1])).expect_err("unit must not parse");
    assert!(err.starts_with("Invalid unit 'bogus' in property argument: "));
}

#[test]
fn failed_query_message() {
    let m = property_failure_message("h", &PropsError::Provider("backend offline".to_string()));
    assert_eq!(m, "Property call 'h' failed: Property provider error: backend offline");
    let _unused: NameMap<String> = NameMap::new();
}
