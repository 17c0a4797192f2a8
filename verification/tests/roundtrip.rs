use yascl::builtin::get_builtin;
use yascl::evaluator::evaluate_source;
use yascl::lexer::Lexer;
use yascl::object::{render_object, Object};
use yascl::parser::Parser;
use yascl::render::render_program;
use yascl::Signal;

const FUEL: u64 = 1_000_000;

fn rendering(src: &str) -> String {
    let mut lexer = Lexer::new(src.to_owned());
    let tokens = lexer.lex().expect("lexing failed");
    let mut parser = Parser::new(tokens);
    let program = parser.parse_program().expect("parsing failed");
    render_program(&program)
}

fn run(src: &str) -> Result<Object, Signal> {
    let mut env = get_builtin();
    let mut out: Vec<String> = Vec::new();
    evaluate_source(src, &mut env, 0, &mut out, FUEL)
}

/// Re-rendering a parsed program and re-parsing the text gives a
/// structurally equal tree (equal canonical renderings), and both texts
/// evaluate to the same value.
fn round_trips(src: &str) {
    let first = rendering(src);
    let second = rendering(&first);
    assert_eq!(first, second, "round trip changed the tree for {:?}", src);
    let a = run(src);
    let b = run(&first);
    match (&a, &b) {
        (Ok(x), Ok(y)) => assert_eq!(
            render_object(x),
            render_object(y),
            "round trip changed the value for {:?}",
            src
        ),
        _ => assert_eq!(
            format!("{:?}", a),
            format!("{:?}", b),
            "round trip changed the outcome for {:?}",
            src
        ),
    }
}

#[test]
fn round_trip_arithmetic() {
    round_trips("1 + 2 * 3");
    round_trips("(1 + 2) * 3");
    round_trips("1 < 2 == true");
}

#[test]
fn round_trip_prefix_and_postfix() {
    round_trips("-5 + -3");
    round_trips("!true");
    round_trips("[1, 2, 3][1 + 1]");
}

#[test]
fn round_trip_bindings_and_blocks() {
    round_trips("let x = 1 mut y = 2 { let z = x + y z }");
}

#[test]
fn round_trip_functions_and_calls() {
    // A statement after one that ends in an expression must not begin
    // with a parenthesis or bracket: with no statement delimiter it would
    // read as a call or index of the previous value. Binding the result
    // keeps the text unambiguous.
    round_trips("let make = fun(x) { fun(y) { x + y } } let r = make(5)(3) r");
}

#[test]
fn round_trip_conditionals() {
    round_trips("if 1 < 2 { \"yes\" } else { \"no\" }");
    round_trips("if false { 1 }");
}

#[test]
fn round_trip_hashes_and_strings() {
    round_trips("{\"a\": 1, \"b\": \"two\"}[\"b\"]");
}

#[test]
fn round_trip_ranges_and_logic() {
    round_trips("[1, 2, 3][0..2]");
    round_trips("1 && 2 || false");
    round_trips("6 & 3 | 8");
}

#[test]
fn round_trip_returns() {
    round_trips("let f = fun(n) { if n < 1 { return 0 } n } let r = f(5) + f(0) r");
}

#[test]
fn round_trip_simple_floats() {
    round_trips("1.5 + 2.25");
}

#[test]
fn rendering_is_fully_parenthesized() {
    assert_eq!(rendering("1 + 2 * 3"), "(1 + (2 * 3))");
    assert_eq!(rendering("(1 + 2) * 3"), "((1 + 2) * 3)");
    assert_eq!(rendering("let x = -1"), "let x = (- 1)");
}
