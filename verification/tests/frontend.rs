use yascl::lexer::Lexer;
use yascl::parser::Parser;
use yascl::token::{lookup_identifier, render_token, Token};
use yascl::Error;

fn lex(src: &str) -> Vec<Token> {
    let mut lexer = Lexer::new(src.to_owned());
    lexer.lex().expect("lexing failed")
}

fn lex_error(src: &str) -> String {
    let mut lexer = Lexer::new(src.to_owned());
    match lexer.lex() {
        Err(Error::Lexer(m)) => m,
        other => panic!("expected a lexer error for {:?}, got {:?}", src, other),
    }
}

fn parse_error(src: &str) -> String {
    let tokens = lex(src);
    let mut parser = Parser::new(tokens);
    match parser.parse_program() {
        Err(Error::Parser(m)) => m,
        other => panic!("expected a parser error for {:?}, got {:?}", src, other),
    }
}

#[test]
fn lexing_ends_with_exactly_one_end_marker() {
    for src in ["", "   ", "let x = 1", "a + b * c", "\"s\" [1, 2]"] {
        let tokens = lex(src);
        assert!(tokens.len() >= 1);
        assert!(matches!(tokens[tokens.len() - 1], Token::Eof));
        for t in &tokens[..tokens.len() - 1] {
            assert!(!matches!(t, Token::Eof));
        }
    }
}

#[test]
fn two_character_operators_are_greedy() {
    let tokens = lex("== != <= >= && || .. = < > & | .");
    let spellings: Vec<String> = tokens.iter().map(render_token).collect();
    assert_eq!(
        spellings,
        vec![
            "==", "!=", "<=", ">=", "&&", "||", "..", "=", "<", ">", "&", "|", ".",
            "EndOfFile"
        ]
    );
}

#[test]
fn number_lexing_splits_integer_and_float() {
    let tokens = lex("12 12.5 3..7");
    assert!(matches!(&tokens[0], Token::Integer(s) if s == "12"));
    assert!(matches!(&tokens[1], Token::Float(s) if s == "12.5"));
    assert!(matches!(&tokens[2], Token::Integer(s) if s == "3"));
    assert!(matches!(&tokens[3], Token::Spread));
    assert!(matches!(&tokens[4], Token::Integer(s) if s == "7"));
}

#[test]
fn keywords_and_identifiers() {
    assert!(matches!(lookup_identifier("let"), Token::Let));
    assert!(matches!(lookup_identifier("mut"), Token::Mut));
    assert!(matches!(lookup_identifier("fun"), Token::Function));
    assert!(matches!(lookup_identifier("if"), Token::If));
    assert!(matches!(lookup_identifier("else"), Token::Else));
    assert!(matches!(lookup_identifier("return"), Token::Return));
    assert!(matches!(lookup_identifier("true"), Token::True));
    assert!(matches!(lookup_identifier("false"), Token::False));
    assert!(matches!(lookup_identifier("letter"), Token::Identifier(s) if s == "letter"));
}

#[test]
fn string_literals_take_no_escapes() {
    let tokens = lex("\"a b\"");
    assert!(matches!(&tokens[0], Token::Str(s) if s == "a b"));
}

#[test]
fn unexpected_character_is_a_lexer_error() {
    assert_eq!(lex_error("1 $ 2"), "Unexpected character '$'");
}

#[test]
fn semicolons_are_not_part_of_the_language() {
    assert_eq!(lex_error("let x = 1;"), "Unexpected character ';'");
}

#[test]
fn unterminated_string_is_a_lexer_error() {
    assert_eq!(lex_error("\"abc"), "Unterminated string");
}

#[test]
fn let_requires_an_identifier() {
    assert_eq!(parse_error("let 5 = 3"), "Unexpected token '5', expected IDENTIFIER");
}

#[test]
fn let_requires_an_equals_sign() {
    assert_eq!(parse_error("let x 3"), "Unexpected token '3', expected '='");
}

#[test]
fn unclosed_parenthesis_is_a_parser_error() {
    assert_eq!(
        parse_error("(1 + 2"),
        "Unexpected token 'EndOfFile', expected ')'"
    );
}

#[test]
fn unclosed_bracket_is_a_parser_error() {
    assert_eq!(
        parse_error("[1, 2"),
        "Unexpected token 'EndOfFile', expected ']'"
    );
}

#[test]
fn stray_operator_is_a_parser_error() {
    assert_eq!(
        parse_error("1 + * 2"),
        "Unexpected token '*', expected IDENTIFIER"
    );
}

#[test]
fn oversized_integer_literal_is_a_parser_error() {
    assert_eq!(
        parse_error("9223372036854775808"),
        "Integer literal '9223372036854775808' out of range"
    );
}

#[test]
fn largest_integer_literal_parses() {
    let tokens = lex("9223372036854775807");
    let mut parser = Parser::new(tokens);
    assert!(parser.parse_program().is_ok());
}

#[test]
fn function_literal_requires_parentheses() {
    assert_eq!(parse_error("fun x { x }"), "Unexpected token 'x', expected '('");
}
