use modern_ees_core::units::{Dimension, Scale, Unit, UnitRegistry};

fn dim(mass: i32, length: i32, time: i32, temperature: i32) -> Dimension {
    Dimension { mass, length, time, temperature }
}

#[test]
fn dimension_product_commutes_and_associates() {
    let a = dim(1, -3, 0, 0);
    let b = dim(0, 2, -1, 1);
    let c = dim(0, 0, 2, 0);
    assert_eq!(a.add(b), b.add(a));
    assert_eq!(a.add(b).add(c), a.add(b.add(c)));
    assert_eq!(a.add(b), dim(1, -1, -1, 1));
}

#[test]
fn dimension_quotient_undoes_product() {
    let a = dim(1, -1, -2, 0);
    let b = dim(0, 1, 0, 0);
    assert_eq!(a.add(b).sub(b), a);
    assert_eq!(a.scale(1), a);
    assert!(a.scale(0).is_dimensionless());
    assert_eq!(a.add(Dimension::dimensionless()), a);
    assert_eq!(a.scale(-2), dim(-2, 2, 4, 0));
}

#[test]
fn dimension_overflow_is_detected() {
    let big = dim(i32::MAX, 0, 0, 0);
    assert_eq!(big.checked_add(dim(1, 0, 0, 0)), None);
    assert_eq!(big.checked_sub(dim(-1, 0, 0, 0)), None);
    assert_eq!(big.checked_scale(2), None);
    assert_eq!(big.checked_add(dim(-1, 0, 0, 0)), Some(dim(i32::MAX - 1, 0, 0, 0)));
}

#[test]
fn unit_quotient_undoes_product() {
    let registry = UnitRegistry::new();
    let ft = registry.parse_unit_string("ft").expect("ft");
    let lbm = registry.parse_unit_string("lbm").expect("lbm");
    assert_eq!(lbm.multiply(ft).divide(ft), lbm);
    assert_eq!(ft.power(1), ft);
    assert!(ft.compatible_with(registry.parse_unit_string("m").expect("m")));
    assert!(!ft.compatible_with(lbm));
    assert_eq!(ft.power(0).dimension, Unit::dimensionless().dimension);
}

#[test]
fn unit_strings_compose_exactly() {
    let registry = UnitRegistry::new();
    let density = registry.parse_unit_string("lbm/ft^3").expect("density");
    let product = registry
        .parse_unit_string("lbm")
        .expect("lbm")
        .divide(registry.parse_unit_string("ft").expect("ft").power(3));
    assert_eq!(density, product);
    let pressure = registry.parse_unit_string("kg / m / s^2").expect("pressure");
    assert_eq!(pressure.dimension, dim(1, -1, -2, 0));
    assert_eq!(pressure.scale, Unit::dimensionless().scale);
}

#[test]
fn unit_scales_are_exact() {
    let registry = UnitRegistry::new();
    let ft = registry.parse_unit_string("ft").expect("ft");
    // 0.3048 = 3 * 127 / (2 * 5^4)
    assert_eq!(
        ft.scale,
        Scale {
            two: -1,
            three: 1,
            five: -4,
            seven: 0,
            eleven: 0,
            ninety_seven: 0,
            one_hundred_twenty_seven: 1,
            six_thousand_seventy_three: 0,
        }
    );
    let lbm = registry.parse_unit_string("lbm").expect("lbm");
    // 0.45359237 = 7 * 11 * 97 * 6073 / 10^8
    assert_eq!(
        lbm.scale,
        Scale {
            two: -8,
            three: 0,
            five: -8,
            seven: 1,
            eleven: 1,
            ninety_seven: 1,
            one_hundred_twenty_seven: 0,
            six_thousand_seventy_three: 1,
        }
    );
    let hr = registry.parse_unit_string("hr").expect("hr");
    assert_eq!(hr.scale.two, 4);
    assert_eq!(hr.scale.three, 2);
    assert_eq!(hr.scale.five, 2);
}
