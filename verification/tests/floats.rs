use yascl::builtin::get_builtin;
use yascl::evaluator::evaluate_source;
use yascl::object::Object;
use yascl::Signal;

const FUEL: u64 = 1_000_000;

fn float_bits(src: &str) -> u64 {
    let mut env = get_builtin();
    let mut out: Vec<String> = Vec::new();
    match evaluate_source(src, &mut env, 0, &mut out, FUEL) {
        Ok(Object::Float(bits)) => bits,
        other => panic!("expected a float for {:?}, got {:?}", src, other),
    }
}

fn boolean(src: &str) -> bool {
    let mut env = get_builtin();
    let mut out: Vec<String> = Vec::new();
    match evaluate_source(src, &mut env, 0, &mut out, FUEL) {
        Ok(Object::Boolean(b)) => b,
        other => panic!("expected a boolean for {:?}, got {:?}", src, other),
    }
}

#[test]
fn float_literals_parse_to_hardware_bits() {
    assert_eq!(float_bits("1.5"), (1.5f64).to_bits());
    assert_eq!(float_bits("0.1"), (0.1f64).to_bits());
    assert_eq!(float_bits("12.625"), (12.625f64).to_bits());
}

#[test]
fn float_addition_matches_hardware() {
    assert_eq!(float_bits("1.5 + 2.25"), (1.5f64 + 2.25f64).to_bits());
    assert_eq!(float_bits("0.1 + 0.2"), (0.1f64 + 0.2f64).to_bits());
}

#[test]
fn float_subtraction_matches_hardware() {
    assert_eq!(float_bits("2.5 - 0.125"), (2.5f64 - 0.125f64).to_bits());
}

#[test]
fn float_multiplication_matches_hardware() {
    assert_eq!(float_bits("1.1 * 2.2"), (1.1f64 * 2.2f64).to_bits());
}

#[test]
fn float_division_matches_hardware() {
    assert_eq!(float_bits("1.0 / 3.0"), (1.0f64 / 3.0f64).to_bits());
}

#[test]
fn float_negation_flips_the_sign_bit() {
    assert_eq!(float_bits("-1.5"), (-1.5f64).to_bits());
    assert_eq!(float_bits("-0.0"), (-0.0f64).to_bits());
}

#[test]
fn float_comparisons_match_hardware() {
    assert!(boolean("1.5 < 2.5"));
    assert!(!boolean("2.5 < 1.5"));
    assert!(boolean("1.5 <= 1.5"));
    assert!(boolean("2.5 > 1.5"));
    assert!(boolean("1.5 >= 1.5"));
    assert!(boolean("0.1 + 0.2 > 0.3"));
}

#[test]
fn float_equality_is_ieee() {
    assert!(boolean("1.5 == 1.5"));
    assert!(!boolean("1.5 == 1.25"));
    assert!(boolean("0.0 == -0.0"));
    assert!(boolean("1.5 != 1.25"));
}

#[test]
fn zero_signs_do_not_order() {
    assert!(!boolean("0.0 < -0.0"));
    assert!(!boolean("-0.0 < 0.0"));
}

#[test]
fn mixed_kinds_never_compare_equal() {
    assert!(!boolean("1 == 1.0"));
    assert!(boolean("1 != 1.0"));
}

#[test]
fn float_division_by_zero_is_infinite() {
    assert_eq!(float_bits("1.0 / 0.0"), f64::INFINITY.to_bits());
    assert_eq!(float_bits("-1.0 / 0.0"), f64::NEG_INFINITY.to_bits());
}

#[test]
fn nan_compares_false_with_itself() {
    // 0.0 / 0.0 is a NaN; no NaN orders or equals anything.
    assert!(!boolean("0.0 / 0.0 == 0.0 / 0.0"));
    assert!(!boolean("0.0 / 0.0 < 1.0"));
    assert!(!boolean("0.0 / 0.0 <= 1.0"));
    assert!(boolean("0.0 / 0.0 != 0.0 / 0.0"));
}
