use yascl::builtin::get_builtin;
use yascl::evaluator::evaluate_source;
use yascl::object::{render_object, Object};
use yascl::{Error, Signal};

const FUEL: u64 = 1_000_000;

fn run(src: &str) -> Result<Object, Signal> {
    let mut env = get_builtin();
    let mut out: Vec<String> = Vec::new();
    evaluate_source(src, &mut env, 0, &mut out, FUEL)
}

fn run_with_output(src: &str) -> (Result<Object, Signal>, Vec<String>) {
    let mut env = get_builtin();
    let mut out: Vec<String> = Vec::new();
    let r = evaluate_source(src, &mut env, 0, &mut out, FUEL);
    (r, out)
}

fn shown(src: &str) -> String {
    match run(src) {
        Ok(v) => render_object(&v),
        Err(s) => panic!("expected a value for {:?}, got {:?}", src, s),
    }
}

fn runtime_message(src: &str) -> String {
    match run(src) {
        Err(Signal::Fault(Error::Runtime(m))) => m,
        other => panic!("expected a runtime error for {:?}, got {:?}", src, other),
    }
}

#[test]
fn precedence_mul_binds_tighter() {
    assert_eq!(shown("1 + 2 * 3"), "7");
}

#[test]
fn precedence_parens_override() {
    assert_eq!(shown("(1 + 2) * 3"), "9");
}

#[test]
fn precedence_relational_below_equality() {
    assert_eq!(shown("1 < 2 == true"), "true");
}

#[test]
fn closures_capture_by_reference() {
    let src = "let make = fun(x) { fun(y) { x + y } } \
               let add5 = make(5) \
               let both = [add5(3), add5(10)] \
               both";
    assert_eq!(shown(src), "[8, 15]");
}

#[test]
fn block_bindings_do_not_leak() {
    assert_eq!(shown("let x = 1 { let x = 2 x } x"), "1");
}

#[test]
fn block_sees_enclosing_scope() {
    assert_eq!(shown("let x = 1 { x + 1 }"), "2");
}

#[test]
fn call_frames_are_lexically_scoped() {
    // The called function sees its definition environment, not the caller's.
    let src = "let a = 10 let f = fun() { a } let g = fun(a) { f() } g(99)";
    assert_eq!(shown(src), "10");
}

#[test]
fn empty_block_is_null() {
    assert_eq!(shown("{}"), "null");
}

#[test]
fn index_at_length_is_error() {
    assert_eq!(runtime_message("[1, 2, 3][3]"), "Index '3' not valid");
}

#[test]
fn index_last_element() {
    assert_eq!(shown("[1, 2, 3][2]"), "3");
}

#[test]
fn slice_whole_array() {
    assert_eq!(shown("[1, 2, 3][0..3]"), "[1, 2, 3]");
}

#[test]
fn slice_empty_range() {
    assert_eq!(shown("[1, 2, 3][3..3]"), "[]");
}

#[test]
fn slice_out_of_range_is_error() {
    assert_eq!(runtime_message("[1, 2, 3][4..5]"), "Index '4..5' not valid");
}

#[test]
fn slice_reversed_range_is_error() {
    assert_eq!(runtime_message("[1, 2, 3][2..1]"), "Index '2..1' not valid");
}

#[test]
fn negative_index_is_error() {
    assert_eq!(runtime_message("[1, 2, 3][-1]"), "Index '-1' not valid");
}

#[test]
fn mixed_numeric_addition_is_error() {
    assert!(matches!(
        run("1 + 1.0"),
        Err(Signal::Fault(Error::Runtime(_)))
    ));
}

#[test]
fn string_concatenation() {
    assert_eq!(shown("\"a\" + \"b\""), "ab");
}

#[test]
fn equality_requires_matching_kind() {
    assert_eq!(shown("1 == 1.0"), "false");
}

#[test]
fn arity_too_few_arguments() {
    assert_eq!(
        runtime_message("let f = fun(a, b) { a } f(1)"),
        "Expected 2 argument(s), got 1"
    );
}

#[test]
fn arity_too_many_arguments() {
    assert_eq!(
        runtime_message("let f = fun(a, b) { a } f(1, 2, 3)"),
        "Expected 2 argument(s), got 3"
    );
}

#[test]
fn undefined_name_is_error() {
    assert_eq!(runtime_message("foo"), "Name 'foo' is not defined");
}

#[test]
fn integers_are_not_callable() {
    assert_eq!(runtime_message("5(1)"), "Object '5' is not callable");
}

#[test]
fn division_truncates() {
    assert_eq!(shown("7 / 2"), "3");
}

#[test]
fn division_by_zero_is_error() {
    assert_eq!(runtime_message("1 / 0"), "Division by zero");
}

#[test]
fn unary_minus_and_bang() {
    assert_eq!(shown("-5"), "-5");
    assert_eq!(shown("!true"), "false");
}

#[test]
fn bang_on_number_is_error() {
    assert_eq!(
        runtime_message("!5"),
        "Operator '!' is not defined for '5'"
    );
}

#[test]
fn bitwise_and_or() {
    assert_eq!(shown("6 & 3"), "2");
    assert_eq!(shown("6 | 3"), "7");
}

#[test]
fn range_is_a_value() {
    assert_eq!(shown("1..4"), "1..4");
}

#[test]
fn logical_operators_use_truthiness() {
    assert_eq!(shown("1 && \"\""), "true");
    assert_eq!(shown("{} || false"), "false");
    assert_eq!(shown("0 || false"), "true");
}

#[test]
fn logical_operators_evaluate_both_sides() {
    let (r, out) = run_with_output("false && { write(9) true }");
    match r {
        Ok(v) => assert_eq!(render_object(&v), "false"),
        other => panic!("unexpected {:?}", other),
    }
    assert_eq!(out, vec!["9".to_string()]);
}

#[test]
fn top_level_return_stops_the_program() {
    assert_eq!(shown("return 5 6"), "5");
}

#[test]
fn return_escapes_nested_block_to_call_boundary() {
    assert_eq!(shown("let f = fun() { if true { return 1 } 2 } f()"), "1");
}

#[test]
fn if_without_alternative_is_null() {
    assert_eq!(shown("if false { 1 }"), "null");
}

#[test]
fn if_with_alternative() {
    assert_eq!(shown("if 1 < 2 { \"yes\" } else { \"no\" }"), "yes");
}

#[test]
fn hash_literal_and_lookup() {
    assert_eq!(shown("{\"a\": 1, \"b\": 2}[\"b\"]"), "2");
}

#[test]
fn hash_missing_key_is_error() {
    assert_eq!(runtime_message("{\"a\": 1}[\"b\"]"), "Key 'b' not valid");
}

#[test]
fn hash_non_string_key_is_error() {
    assert_eq!(runtime_message("{1: 2}"), "Can not use '1' as a key");
}

#[test]
fn hash_duplicate_key_overwrites() {
    assert_eq!(shown("{\"a\": 1, \"a\": 2}[\"a\"]"), "2");
}

#[test]
fn strings_index_nothing() {
    assert_eq!(
        runtime_message("\"ab\"[0]"),
        "Object 'ab' is not indexable with '0'"
    );
}

#[test]
fn builtin_len() {
    assert_eq!(shown("len([1, 2, 3])"), "3");
    assert_eq!(shown("len(\"hello\")"), "5");
    assert_eq!(shown("len(5)"), "null");
}

#[test]
fn builtin_first_and_rest() {
    assert_eq!(shown("first([7, 8])"), "7");
    assert_eq!(shown("first([])"), "null");
    assert_eq!(shown("rest([7, 8, 9])"), "[8, 9]");
    assert_eq!(shown("rest([7])"), "null");
}

#[test]
fn builtin_append_is_non_mutating() {
    assert_eq!(
        shown("let a = [1] let b = append(a, 2, 3) let c = [a, b] c"),
        "[[1], [1, 2, 3]]"
    );
}

#[test]
fn builtin_write_logs_one_line() {
    let (r, out) = run_with_output("write(1, \"x\", [2]) 5");
    match r {
        Ok(v) => assert_eq!(render_object(&v), "5"),
        other => panic!("unexpected {:?}", other),
    }
    assert_eq!(out, vec!["1x[2]".to_string()]);
}

#[test]
fn builtin_exit_signals_a_status() {
    assert!(matches!(run("exit(3)"), Err(Signal::Exit(3))));
    assert!(matches!(run("exit()"), Err(Signal::Exit(0))));
}

#[test]
fn wrapping_arithmetic_on_overflow() {
    assert_eq!(
        shown("9223372036854775807 + 1"),
        "-9223372036854775808"
    );
}

#[test]
fn functions_render_opaquely() {
    assert_eq!(shown("fun(a, b) { a }"), "<function(a, b)>");
}

#[test]
fn fuel_exhaustion_is_reported() {
    let mut env = get_builtin();
    let mut out: Vec<String> = Vec::new();
    let r = evaluate_source(
        "let f = fun(n) { f(n) } f(1)",
        &mut env,
        0,
        &mut out,
        500,
    );
    assert!(matches!(r, Err(Signal::OutOfFuel)));
}

#[test]
fn empty_program_is_null() {
    assert_eq!(shown(""), "null");
    assert_eq!(shown("   "), "null");
}

#[test]
fn mut_binds_like_let() {
    assert_eq!(shown("mut x = 3 x + 1"), "4");
}

#[test]
fn rebinding_shadows_in_place() {
    assert_eq!(shown("let x = 1 let x = x + 1 x"), "2");
}

#[test]
fn bindings_persist_across_input_units() {
    let mut env = get_builtin();
    let mut out: Vec<String> = Vec::new();
    let first = evaluate_source("let inc = fun(n) { n + 1 }", &mut env, 0, &mut out, FUEL);
    assert!(first.is_ok());
    match evaluate_source("inc(41)", &mut env, 0, &mut out, FUEL) {
        Ok(v) => assert_eq!(render_object(&v), "42"),
        other => panic!("unexpected {:?}", other),
    }
}

#[test]
fn deep_nesting_parses_and_evaluates() {
    assert_eq!(shown("((((((((1))))))))"), "1");
    assert_eq!(shown("- - - -5"), "5");
}

#[test]
fn ranges_do_not_pair_with_floats() {
    assert!(matches!(
        run("1.0..2.0"),
        Err(Signal::Fault(Error::Runtime(_)))
    ));
}
