//! The parser: recursive descent with precedence climbing over the token
//! sequence. Binding strength, loosest to tightest: logical or, logical
//! and, bitwise or, bitwise and, equality, relational, range, additive,
//! multiplicative, unary prefix, postfix call and index, primary. Each
//! binary level is left-associative. The parse is specified by a recursive
//! model with a depth budget so large that exhausting it would need a token
//! sequence no machine can hold; the executable parser is proved equal to
//! the model.

use crate::ast::{
    lemma_exprs_model, lemma_pairs_model, lemma_stmts_model, pairs_model, stmts_model,
    ExprModel, Expression, Program, Statement, StmtModel,
};
use crate::ast::{expr_model, exprs_model};
use crate::floatbits::{f64_of_text, f64_parse};
use crate::lexer::{is_digit, is_digit_c};
use crate::token::{lemma_tokens_model, render_token, token_text, tokens_model, Token, TokenModel};
use crate::Error;
use std::rc::Rc;
use vstd::prelude::*;
use vstd::string::StringExecFns;

verus! {

/// The token at `pos`, or the end marker when `pos` is out of range.
pub open spec fn peek_m(ts: Seq<TokenModel>, pos: int) -> TokenModel {
    if 0 <= pos && pos < ts.len() {
        ts[pos]
    } else {
        TokenModel::Eof
    }
}

/// Whether a token is an operator of the given binary level; level 0 is
/// the loosest (logical or) and level 8 the tightest (multiplicative).
pub open spec fn level_op(level: int, t: TokenModel) -> bool {
    if level == 0 {
        t is PipePipe
    } else if level == 1 {
        t is AmpersandAmpersand
    } else if level == 2 {
        t is Pipe
    } else if level == 3 {
        t is Ampersand
    } else if level == 4 {
        t is Equal || t is NotEqual
    } else if level == 5 {
        t is Lesser || t is LesserOrEqual || t is Greater || t is GreaterOrEqual
    } else if level == 6 {
        t is Spread
    } else if level == 7 {
        t is Plus || t is Minus
    } else {
        t is Asterisk || t is Slash
    }
}

pub open spec fn deep_text() -> Seq<char> {
    "Expression nesting too deep"@
}

pub open spec fn unexpected_text(t: TokenModel, expected: Seq<char>) -> Seq<char> {
    "Unexpected token '"@ + token_text(t) + "', expected '"@ + expected + "'"@
}

pub open spec fn expected_ident_text(t: TokenModel) -> Seq<char> {
    "Unexpected token '"@ + token_text(t) + "', expected IDENTIFIER"@
}

pub open spec fn int_range_text(s: Seq<char>) -> Seq<char> {
    "Integer literal '"@ + s + "' out of range"@
}

/// The numeric value of a digit character.
pub open spec fn digit_val(c: char) -> int {
    c as int - 48
}

/// A nonempty run of decimal digits.
pub open spec fn is_digits(s: Seq<char>) -> bool {
    s.len() >= 1 && (forall|i: int| 0 <= i < s.len() ==> is_digit_c(#[trigger] s[i]))
}

/// The value of a digit run, most significant digit first.
pub open spec fn digits_val(s: Seq<char>) -> int
    decreases s.len(),
{
    if s.len() == 0 {
        0
    } else {
        digits_val(s.drop_last()) * 10 + digit_val(s.last())
    }
}

pub proof fn lemma_digits_val_nonneg(s: Seq<char>)
    requires
        forall|i: int| 0 <= i < s.len() ==> is_digit_c(#[trigger] s[i]),
    ensures
        digits_val(s) >= 0,
    decreases s.len(),
{
    if s.len() > 0 {
        lemma_digits_val_nonneg(s.drop_last());
    }
}

/// Extending a digit run never lowers its value: an overflowing prefix
/// means an overflowing run.
pub proof fn lemma_digits_val_prefix(s: Seq<char>, i: int)
    requires
        0 <= i <= s.len(),
        forall|k: int| 0 <= k < s.len() ==> is_digit_c(#[trigger] s[k]),
    ensures
        digits_val(s.subrange(0, i)) <= digits_val(s),
    decreases s.len() - i,
{
    if i < s.len() {
        lemma_digits_val_prefix(s, i + 1);
        let a = s.subrange(0, i);
        let b = s.subrange(0, i + 1);
        assert(b.drop_last() =~= a);
        lemma_digits_val_nonneg(a);
        assert(digits_val(b) == digits_val(a) * 10 + digit_val(b.last()));
        assert(digits_val(a) * 10 >= digits_val(a)) by {
            assert(digits_val(a) >= 0);
        }
    } else {
        assert(s.subrange(0, i) =~= s);
    }
}

/// One let or mut binding after its keyword: a name, an equals sign, and
/// the bound expression.
pub open spec fn parse_binding_m(ts: Seq<TokenModel>, pos: int, fuel: nat) -> (Result<
    (Seq<char>, ExprModel),
    Seq<char>,
>, int)
    decreases fuel, 0int,
{
    if fuel == 0 {
        (Result::Err(deep_text()), pos)
    } else {
        match peek_m(ts, pos) {
            TokenModel::Identifier(n) => {
                if peek_m(ts, pos + 1) == TokenModel::Assign {
                    let (r, p) = parse_expression_m(ts, pos + 2, (fuel - 1) as nat);
                    match r {
                        Result::Ok(e) => (Result::Ok((n, e)), p),
                        Result::Err(m) => (Result::Err(m), p),
                    }
                } else {
                    (Result::Err(unexpected_text(peek_m(ts, pos + 1), "="@)), pos + 1)
                }
            },
            t => (Result::Err(expected_ident_text(t)), pos),
        }
    }
}

pub open spec fn parse_statement_m(ts: Seq<TokenModel>, pos: int, fuel: nat) -> (Result<
    StmtModel,
    Seq<char>,
>, int)
    decreases fuel, 0int,
{
    if fuel == 0 {
        (Result::Err(deep_text()), pos)
    } else {
        match peek_m(ts, pos) {
            TokenModel::Let => {
                let (r, p) = parse_binding_m(ts, pos + 1, (fuel - 1) as nat);
                match r {
                    Result::Ok((n, e)) => (Result::Ok(StmtModel::Let(n, e)), p),
                    Result::Err(m) => (Result::Err(m), p),
                }
            },
            TokenModel::Mut => {
                let (r, p) = parse_binding_m(ts, pos + 1, (fuel - 1) as nat);
                match r {
                    Result::Ok((n, e)) => (Result::Ok(StmtModel::Mut(n, e)), p),
                    Result::Err(m) => (Result::Err(m), p),
                }
            },
            TokenModel::Return => {
                let (r, p) = parse_expression_m(ts, pos + 1, (fuel - 1) as nat);
                match r {
                    Result::Ok(e) => (Result::Ok(StmtModel::Return(e)), p),
                    Result::Err(m) => (Result::Err(m), p),
                }
            },
            _ => {
                let (r, p) = parse_expression_m(ts, pos, (fuel - 1) as nat);
                match r {
                    Result::Ok(e) => (Result::Ok(StmtModel::Expression(e)), p),
                    Result::Err(m) => (Result::Err(m), p),
                }
            },
        }
    }
}

/// The statements of a whole unit, up to the end marker.
pub open spec fn parse_program_m(ts: Seq<TokenModel>, pos: int, fuel: nat) -> (Result<
    Seq<StmtModel>,
    Seq<char>,
>, int)
    decreases fuel, 0int,
{
    if fuel == 0 {
        (Result::Err(deep_text()), pos)
    } else if peek_m(ts, pos) is Eof {
        (Result::Ok(Seq::empty()), pos)
    } else {
        let (r, p) = parse_statement_m(ts, pos, (fuel - 1) as nat);
        match r {
            Result::Err(m) => (Result::Err(m), p),
            Result::Ok(st) => {
                let (r2, p2) = parse_program_m(ts, p, (fuel - 1) as nat);
                match r2 {
                    Result::Err(m) => (Result::Err(m), p2),
                    Result::Ok(rest) => (Result::Ok(seq![st] + rest), p2),
                }
            },
        }
    }
}

/// The statements of a braced block, up to the closing brace or the end.
pub open spec fn parse_block_stmts_m(ts: Seq<TokenModel>, pos: int, fuel: nat) -> (Result<
    Seq<StmtModel>,
    Seq<char>,
>, int)
    decreases fuel, 0int,
{
    if fuel == 0 {
        (Result::Err(deep_text()), pos)
    } else if peek_m(ts, pos) is RightBrace || peek_m(ts, pos) is Eof {
        (Result::Ok(Seq::empty()), pos)
    } else {
        let (r, p) = parse_statement_m(ts, pos, (fuel - 1) as nat);
        match r {
            Result::Err(m) => (Result::Err(m), p),
            Result::Ok(st) => {
                let (r2, p2) = parse_block_stmts_m(ts, p, (fuel - 1) as nat);
                match r2 {
                    Result::Err(m) => (Result::Err(m), p2),
                    Result::Ok(rest) => (Result::Ok(seq![st] + rest), p2),
                }
            },
        }
    }
}

pub open spec fn parse_expression_m(ts: Seq<TokenModel>, pos: int, fuel: nat) -> (Result<
    ExprModel,
    Seq<char>,
>, int)
    decreases fuel, 0int,
{
    if fuel == 0 {
        (Result::Err(deep_text()), pos)
    } else {
        parse_level_m(ts, pos, 0, (fuel - 1) as nat)
    }
}

/// One binary level: its higher-precedence operand, then a left fold over
/// same-level operators.
pub open spec fn parse_level_m(ts: Seq<TokenModel>, pos: int, level: int, fuel: nat) -> (Result<
    ExprModel,
    Seq<char>,
>, int)
    decreases fuel, 0int,
{
    if fuel == 0 {
        (Result::Err(deep_text()), pos)
    } else {
        let (r, p) = if level >= 8 {
            parse_prefix_m(ts, pos, (fuel - 1) as nat)
        } else {
            parse_level_m(ts, pos, level + 1, (fuel - 1) as nat)
        };
        match r {
            Result::Err(m) => (Result::Err(m), p),
            Result::Ok(left) => parse_level_rest_m(ts, p, level, left, (fuel - 1) as nat),
        }
    }
}

pub open spec fn parse_level_rest_m(
    ts: Seq<TokenModel>,
    pos: int,
    level: int,
    left: ExprModel,
    fuel: nat,
) -> (Result<ExprModel, Seq<char>>, int)
    decreases fuel, 0int,
{
    if fuel == 0 {
        (Result::Err(deep_text()), pos)
    } else {
        let t = peek_m(ts, pos);
        if level_op(level, t) {
            let (r, p) = if level >= 8 {
                parse_prefix_m(ts, pos + 1, (fuel - 1) as nat)
            } else {
                parse_level_m(ts, pos + 1, level + 1, (fuel - 1) as nat)
            };
            match r {
                Result::Err(m) => (Result::Err(m), p),
                Result::Ok(right) => parse_level_rest_m(
                    ts,
                    p,
                    level,
                    ExprModel::Infix(Box::new(left), t, Box::new(right)),
                    (fuel - 1) as nat,
                ),
            }
        } else {
            (Result::Ok(left), pos)
        }
    }
}

/// Unary prefix: bang and minus, right-associative by recursion.
pub open spec fn parse_prefix_m(ts: Seq<TokenModel>, pos: int, fuel: nat) -> (Result<
    ExprModel,
    Seq<char>,
>, int)
    decreases fuel, 0int,
{
    if fuel == 0 {
        (Result::Err(deep_text()), pos)
    } else {
        let t = peek_m(ts, pos);
        if t is Bang || t is Minus {
            let (r, p) = parse_prefix_m(ts, pos + 1, (fuel - 1) as nat);
            match r {
                Result::Err(m) => (Result::Err(m), p),
                Result::Ok(e) => (Result::Ok(ExprModel::Prefix(t, Box::new(e))), p),
            }
        } else {
            parse_postfix_m(ts, pos, (fuel - 1) as nat)
        }
    }
}

/// Postfix call and index: both left-associative and chainable.
pub open spec fn parse_postfix_m(ts: Seq<TokenModel>, pos: int, fuel: nat) -> (Result<
    ExprModel,
    Seq<char>,
>, int)
    decreases fuel, 0int,
{
    if fuel == 0 {
        (Result::Err(deep_text()), pos)
    } else {
        let (r, p) = parse_literal_m(ts, pos, (fuel - 1) as nat);
        match r {
            Result::Err(m) => (Result::Err(m), p),
            Result::Ok(e) => parse_postfix_rest_m(ts, p, e, (fuel - 1) as nat),
        }
    }
}

pub open spec fn parse_postfix_rest_m(ts: Seq<TokenModel>, pos: int, e: ExprModel, fuel: nat) -> (
    Result<ExprModel, Seq<char>>,
    int,
)
    decreases fuel, 0int,
{
    if fuel == 0 {
        (Result::Err(deep_text()), pos)
    } else if peek_m(ts, pos) is LeftParen {
        if peek_m(ts, pos + 1) is RightParen {
            parse_postfix_rest_m(
                ts,
                pos + 2,
                ExprModel::Call(Box::new(e), Seq::empty()),
                (fuel - 1) as nat,
            )
        } else {
            let (r, p) = parse_args_m(ts, pos + 1, (fuel - 1) as nat);
            match r {
                Result::Err(m) => (Result::Err(m), p),
                Result::Ok(args) => {
                    if peek_m(ts, p) is RightParen {
                        parse_postfix_rest_m(
                            ts,
                            p + 1,
                            ExprModel::Call(Box::new(e), args),
                            (fuel - 1) as nat,
                        )
                    } else {
                        (Result::Err(unexpected_text(peek_m(ts, p), ")"@)), p)
                    }
                },
            }
        }
    } else if peek_m(ts, pos) is LeftBracket {
        let (r, p) = parse_expression_m(ts, pos + 1, (fuel - 1) as nat);
        match r {
            Result::Err(m) => (Result::Err(m), p),
            Result::Ok(idx) => {
                if peek_m(ts, p) is RightBracket {
                    parse_postfix_rest_m(
                        ts,
                        p + 1,
                        ExprModel::Index(Box::new(e), Box::new(idx)),
                        (fuel - 1) as nat,
                    )
                } else {
                    (Result::Err(unexpected_text(peek_m(ts, p), "]"@)), p)
                }
            },
        }
    } else {
        (Result::Ok(e), pos)
    }
}

/// A comma-separated, nonempty expression list.
pub open spec fn parse_args_m(ts: Seq<TokenModel>, pos: int, fuel: nat) -> (Result<
    Seq<ExprModel>,
    Seq<char>,
>, int)
    decreases fuel, 0int,
{
    if fuel == 0 {
        (Result::Err(deep_text()), pos)
    } else {
        let (r, p) = parse_expression_m(ts, pos, (fuel - 1) as nat);
        match r {
            Result::Err(m) => (Result::Err(m), p),
            Result::Ok(e) => {
                if peek_m(ts, p) is Comma {
                    let (r2, p2) = parse_args_m(ts, p + 1, (fuel - 1) as nat);
                    match r2 {
                        Result::Err(m) => (Result::Err(m), p2),
                        Result::Ok(rest) => (Result::Ok(seq![e] + rest), p2),
                    }
                } else {
                    (Result::Ok(seq![e]), p)
                }
            },
        }
    }
}

/// A comma-separated, nonempty parameter name list.
pub open spec fn parse_params_m(ts: Seq<TokenModel>, pos: int, fuel: nat) -> (Result<
    Seq<Seq<char>>,
    Seq<char>,
>, int)
    decreases fuel, 0int,
{
    if fuel == 0 {
        (Result::Err(deep_text()), pos)
    } else {
        match peek_m(ts, pos) {
            TokenModel::Identifier(n) => {
                if peek_m(ts, pos + 1) is Comma {
                    let (r, p) = parse_params_m(ts, pos + 2, (fuel - 1) as nat);
                    match r {
                        Result::Err(m) => (Result::Err(m), p),
                        Result::Ok(rest) => (Result::Ok(seq![n] + rest), p),
                    }
                } else {
                    (Result::Ok(seq![n]), pos + 1)
                }
            },
            t => (Result::Err(expected_ident_text(t)), pos),
        }
    }
}

/// A comma-separated, nonempty key/value pair list.
pub open spec fn parse_hash_items_m(ts: Seq<TokenModel>, pos: int, fuel: nat) -> (Result<
    Seq<(ExprModel, ExprModel)>,
    Seq<char>,
>, int)
    decreases fuel, 0int,
{
    if fuel == 0 {
        (Result::Err(deep_text()), pos)
    } else {
        let (r, p) = parse_expression_m(ts, pos, (fuel - 1) as nat);
        match r {
            Result::Err(m) => (Result::Err(m), p),
            Result::Ok(k) => {
                if peek_m(ts, p) is Colon {
                    let (r2, p2) = parse_expression_m(ts, p + 1, (fuel - 1) as nat);
                    match r2 {
                        Result::Err(m) => (Result::Err(m), p2),
                        Result::Ok(v) => {
                            if peek_m(ts, p2) is Comma {
                                let (r3, p3) = parse_hash_items_m(ts, p2 + 1, (fuel - 1) as nat);
                                match r3 {
                                    Result::Err(m) => (Result::Err(m), p3),
                                    Result::Ok(rest) => (Result::Ok(seq![(k, v)] + rest), p3),
                                }
                            } else {
                                (Result::Ok(seq![(k, v)]), p2)
                            }
                        },
                    }
                } else {
                    (Result::Err(unexpected_text(peek_m(ts, p), ":"@)), p)
                }
            },
        }
    }
}

/// A primary expression: a literal, an identifier, a parenthesized
/// expression, an array, a hash, a block, a conditional, or a function
/// literal. Braces open a hash when the token after the first one is a
/// colon, an empty block when they close at once, and a block otherwise.
pub open spec fn parse_literal_m(ts: Seq<TokenModel>, pos: int, fuel: nat) -> (Result<
    ExprModel,
    Seq<char>,
>, int)
    decreases fuel, 0int,
{
    if fuel == 0 {
        (Result::Err(deep_text()), pos)
    } else {
        match peek_m(ts, pos) {
            TokenModel::True => (Result::Ok(ExprModel::Boolean(true)), pos + 1),
            TokenModel::False => (Result::Ok(ExprModel::Boolean(false)), pos + 1),
            TokenModel::Integer(text) => {
                if is_digits(text) && digits_val(text) <= i64::MAX as int {
                    (Result::Ok(ExprModel::Integer(digits_val(text) as i64)), pos + 1)
                } else {
                    (Result::Err(int_range_text(text)), pos)
                }
            },
            TokenModel::Float(text) => (
                Result::Ok(ExprModel::Float(f64_of_text(text))),
                pos + 1,
            ),
            TokenModel::Str(text) => (Result::Ok(ExprModel::Str(text)), pos + 1),
            TokenModel::Identifier(n) => (Result::Ok(ExprModel::Identifier(n)), pos + 1),
            TokenModel::LeftParen => {
                let (r, p) = parse_expression_m(ts, pos + 1, (fuel - 1) as nat);
                match r {
                    Result::Err(m) => (Result::Err(m), p),
                    Result::Ok(e) => {
                        if peek_m(ts, p) is RightParen {
                            (Result::Ok(e), p + 1)
                        } else {
                            (Result::Err(unexpected_text(peek_m(ts, p), ")"@)), p)
                        }
                    },
                }
            },
            TokenModel::LeftBracket => {
                if peek_m(ts, pos + 1) is RightBracket {
                    (Result::Ok(ExprModel::Array(Seq::empty())), pos + 2)
                } else {
                    let (r, p) = parse_args_m(ts, pos + 1, (fuel - 1) as nat);
                    match r {
                        Result::Err(m) => (Result::Err(m), p),
                        Result::Ok(es) => {
                            if peek_m(ts, p) is RightBracket {
                                (Result::Ok(ExprModel::Array(es)), p + 1)
                            } else {
                                (Result::Err(unexpected_text(peek_m(ts, p), "]"@)), p)
                            }
                        },
                    }
                }
            },
            TokenModel::LeftBrace => {
                if peek_m(ts, pos + 1) is RightBrace {
                    (Result::Ok(ExprModel::Block(Seq::empty())), pos + 2)
                } else if peek_m(ts, pos + 2) is Colon {
                    let (r, p) = parse_hash_items_m(ts, pos + 1, (fuel - 1) as nat);
                    match r {
                        Result::Err(m) => (Result::Err(m), p),
                        Result::Ok(items) => {
                            if peek_m(ts, p) is RightBrace {
                                (Result::Ok(ExprModel::Hash(items)), p + 1)
                            } else {
                                (Result::Err(unexpected_text(peek_m(ts, p), "}"@)), p)
                            }
                        },
                    }
                } else {
                    let (r, p) = parse_block_stmts_m(ts, pos + 1, (fuel - 1) as nat);
                    match r {
                        Result::Err(m) => (Result::Err(m), p),
                        Result::Ok(ss) => {
                            if peek_m(ts, p) is RightBrace {
                                (Result::Ok(ExprModel::Block(ss)), p + 1)
                            } else {
                                (Result::Err(unexpected_text(peek_m(ts, p), "}"@)), p)
                            }
                        },
                    }
                }
            },
            TokenModel::If => {
                let (r, p) = parse_expression_m(ts, pos + 1, (fuel - 1) as nat);
                match r {
                    Result::Err(m) => (Result::Err(m), p),
                    Result::Ok(cond) => {
                        let (r2, p2) = parse_expression_m(ts, p, (fuel - 1) as nat);
                        match r2 {
                            Result::Err(m) => (Result::Err(m), p2),
                            Result::Ok(cons) => {
                                if peek_m(ts, p2) is Else {
                                    let (r3, p3) = parse_expression_m(
                                        ts,
                                        p2 + 1,
                                        (fuel - 1) as nat,
                                    );
                                    match r3 {
                                        Result::Err(m) => (Result::Err(m), p3),
                                        Result::Ok(alt) => (
                                            Result::Ok(
                                                ExprModel::If(
                                                    Box::new(cond),
                                                    Box::new(cons),
                                                    Option::Some(Box::new(alt)),
                                                ),
                                            ),
                                            p3,
                                        ),
                                    }
                                } else {
                                    (
                                        Result::Ok(
                                            ExprModel::If(
                                                Box::new(cond),
                                                Box::new(cons),
                                                Option::None,
                                            ),
                                        ),
                                        p2,
                                    )
                                }
                            },
                        }
                    },
                }
            },
            TokenModel::Function => {
                if !(peek_m(ts, pos + 1) is LeftParen) {
                    (Result::Err(unexpected_text(peek_m(ts, pos + 1), "("@)), pos + 1)
                } else if peek_m(ts, pos + 2) is RightParen {
                    let (r, p) = parse_expression_m(ts, pos + 3, (fuel - 1) as nat);
                    match r {
                        Result::Err(m) => (Result::Err(m), p),
                        Result::Ok(body) => (
                            Result::Ok(ExprModel::Function(Seq::empty(), Box::new(body))),
                            p,
                        ),
                    }
                } else {
                    let (r, p) = parse_params_m(ts, pos + 2, (fuel - 1) as nat);
                    match r {
                        Result::Err(m) => (Result::Err(m), p),
                        Result::Ok(params) => {
                            if peek_m(ts, p) is RightParen {
                                let (r2, p2) = parse_expression_m(ts, p + 1, (fuel - 1) as nat);
                                match r2 {
                                    Result::Err(m) => (Result::Err(m), p2),
                                    Result::Ok(body) => (
                                        Result::Ok(
                                            ExprModel::Function(params, Box::new(body)),
                                        ),
                                        p2,
                                    ),
                                }
                            } else {
                                (Result::Err(unexpected_text(peek_m(ts, p), ")"@)), p)
                            }
                        },
                    }
                }
            },
            t => (Result::Err(expected_ident_text(t)), pos),
        }
    }
}

/// The depth budget the parser starts from. A parse consumes at least one
/// token for every constant number of budget steps, so a sequence that
/// exhausts it cannot exist in memory.
pub open spec fn parse_fuel() -> nat {
    0xffff_ffff_ffff_ffff as nat
}

/// The parse of a whole token sequence.
pub open spec fn parse_model(ts: Seq<TokenModel>) -> Result<Seq<StmtModel>, Seq<char>> {
    parse_program_m(ts, 0, parse_fuel()).0
}

/// The parser's cursor over one token sequence.
#[derive(Debug)]
pub struct Parser {
    pub tokens: Vec<Token>,
    pub position: usize,
}

fn deep_err() -> (e: Error)
    ensures
        e@ == crate::ErrorModel::Parser(deep_text()),
{
    Error::Parser("Expression nesting too deep".to_owned())
}

fn unexpected_err(t: &Token, expected: &str) -> (e: Error)
    ensures
        e@ == crate::ErrorModel::Parser(unexpected_text(t@, expected@)),
{
    let mut m = "Unexpected token '".to_owned();
    let shown = render_token(t);
    m.append(shown.as_str());
    m.append("', expected '");
    m.append(expected);
    m.append("'");
    proof {
        assert(m@ =~= unexpected_text(t@, expected@));
    }
    Error::Parser(m)
}

fn expected_ident_err(t: &Token) -> (e: Error)
    ensures
        e@ == crate::ErrorModel::Parser(expected_ident_text(t@)),
{
    let mut m = "Unexpected token '".to_owned();
    let shown = render_token(t);
    m.append(shown.as_str());
    m.append("', expected IDENTIFIER");
    proof {
        assert(m@ =~= expected_ident_text(t@));
    }
    Error::Parser(m)
}

fn int_range_err(text: &str) -> (e: Error)
    ensures
        e@ == crate::ErrorModel::Parser(int_range_text(text@)),
{
    let mut m = "Integer literal '".to_owned();
    m.append(text);
    m.append("' out of range");
    proof {
        assert(m@ =~= int_range_text(text@));
    }
    Error::Parser(m)
}

fn level_op_exec(level: u8, t: &Token) -> (r: bool)
    ensures
        r == level_op(level as int, t@),
{
    if level == 0 {
        matches!(t, Token::PipePipe)
    } else if level == 1 {
        matches!(t, Token::AmpersandAmpersand)
    } else if level == 2 {
        matches!(t, Token::Pipe)
    } else if level == 3 {
        matches!(t, Token::Ampersand)
    } else if level == 4 {
        matches!(t, Token::Equal | Token::NotEqual)
    } else if level == 5 {
        matches!(
            t,
            Token::Lesser | Token::LesserOrEqual | Token::Greater | Token::GreaterOrEqual
        )
    } else if level == 6 {
        matches!(t, Token::Spread)
    } else if level == 7 {
        matches!(t, Token::Plus | Token::Minus)
    } else {
        matches!(t, Token::Asterisk | Token::Slash)
    }
}

/// The machine value of a nonempty digit run, or `None` when the text is
/// not such a run or its value does not fit.
fn parse_integer_text(s: &str) -> (r: Option<i64>)
    ensures
        ({
            if is_digits(s@) && digits_val(s@) <= i64::MAX as int {
                r == Option::Some(digits_val(s@) as i64)
            } else {
                r is None
            }
        }),
{
    let v = crate::lexer::chars_of(s);
    if v.len() == 0 {
        return None;
    }
    let mut acc: i64 = 0;
    let mut i: usize = 0;
    while i < v.len()
        invariant
            v@ == s@,
            i <= v@.len(),
            forall|k: int| 0 <= k < i ==> is_digit_c(#[trigger] v@[k]),
            acc == digits_val(v@.subrange(0, i as int)),
            acc >= 0,
        decreases v@.len() - i,
    {
        let c = v[i];
        if !is_digit(c) {
            return None;
        }
        let d: i64 = (c as u32 - 48) as i64;
        proof {
            assert(0 <= d < 10);
            assert(d == digit_val(v@[i as int]));
        }
        let step = match acc.checked_mul(10) {
            Some(x) => x.checked_add(d),
            None => None,
        };
        match step {
            Some(y) => {
                proof {
                    let a = v@.subrange(0, i as int);
                    let b = v@.subrange(0, i as int + 1);
                    assert(b.drop_last() =~= a);
                    assert(b.last() == v@[i as int]);
                }
                acc = y;
            },
            None => {
                proof {
                    let a = v@.subrange(0, i as int);
                    assert(digits_val(a) * 10 + d > i64::MAX as int);
                    if is_digits(s@) && digits_val(s@) <= i64::MAX as int {
                        let b = v@.subrange(0, i as int + 1);
                        assert(b.drop_last() =~= a);
                        assert(digits_val(b) == digits_val(a) * 10 + digit_val(b.last()));
                        lemma_digits_val_prefix(s@, i as int + 1);
                        assert(false);
                    }
                }
                return None;
            },
        }
        i += 1;
    }
    proof {
        assert(v@.subrange(0, v@.len() as int) =~= v@);
    }
    Some(acc)
}

impl Parser {
    /// A fresh parse of the given tokens, positioned at their start.
    pub fn new(tokens: Vec<Token>) -> (p: Parser)
        ensures
            p.tokens@ == tokens@,
            p.position == 0,
    {
        Parser { tokens, position: 0 }
    }

    /// The token at the cursor, or the end marker past the end.
    fn current(&self) -> (t: Token)
        ensures
            t@ == peek_m(tokens_model(self.tokens@, 0), self.position as int),
    {
        proof {
            lemma_tokens_model(self.tokens@, 0);
        }
        if self.position < self.tokens.len() {
            self.tokens[self.position].clone()
        } else {
            Token::Eof
        }
    }

    /// The token `offset` places past the cursor, or the end marker.
    fn peek_at(&self, offset: usize) -> (t: Token)
        ensures
            t@ == peek_m(tokens_model(self.tokens@, 0), self.position as int + offset as int),
    {
        proof {
            lemma_tokens_model(self.tokens@, 0);
        }
        let n = self.tokens.len();
        match self.position.checked_add(offset) {
            Some(idx) => {
                if idx < n {
                    self.tokens[idx].clone()
                } else {
                    Token::Eof
                }
            },
            None => Token::Eof,
        }
    }

    /// Parses one whole unit: statements until the end marker.
    pub fn parse_program(&mut self) -> (r: Result<Program, Error>)
        requires
            old(self).position <= old(self).tokens@.len(),
        ensures
            final(self).tokens@ == old(self).tokens@,
            final(self).position <= final(self).tokens@.len(),
            ({
                let (rs, p2) = parse_program_m(
                    tokens_model(old(self).tokens@, 0),
                    old(self).position as int,
                    parse_fuel(),
                );
                final(self).position as int == p2 && (match (r, rs) {
                    (Result::Ok(prog), Result::Ok(sm)) => prog@ == sm,
                    (Result::Err(Error::Parser(m)), Result::Err(mm)) => m@ == mm,
                    _ => false,
                })
            }),
    {
        proof {
            lemma_tokens_model(self.tokens@, 0);
        }
        let fuel: u64 = 0xffff_ffff_ffff_ffff;
        match self.parse_statements(fuel) {
            Ok(ss) => Ok(Program { statements: ss }),
            Err(e) => Err(e),
        }
    }

    fn parse_statements(&mut self, fuel: u64) -> (r: Result<Vec<Statement>, Error>)
        requires
            old(self).position <= old(self).tokens@.len(),
        ensures
            final(self).tokens@ == old(self).tokens@,
            final(self).position <= final(self).tokens@.len(),
            ({
                let (rs, p2) = parse_program_m(
                    tokens_model(old(self).tokens@, 0),
                    old(self).position as int,
                    fuel as nat,
                );
                final(self).position as int == p2 && (match (r, rs) {
                    (Result::Ok(ss), Result::Ok(sm)) => stmts_model(ss@, 0) == sm,
                    (Result::Err(Error::Parser(m)), Result::Err(mm)) => m@ == mm,
                    _ => false,
                })
            }),
        decreases fuel, 0int,
    {
        proof {
            lemma_tokens_model(self.tokens@, 0);
        }
        if fuel == 0 {
            return Err(deep_err());
        }
        let c = self.current();
        if matches!(c, Token::Eof) {
            let ss: Vec<Statement> = Vec::new();
            proof {
                assert(stmts_model(ss@, 0) =~= Seq::<StmtModel>::empty());
            }
            return Ok(ss);
        }
        match self.parse_statement(fuel - 1) {
            Err(e) => Err(e),
            Ok(st) => {
                let ghost stm = st@;
                match self.parse_statements(fuel - 1) {
                    Err(e) => Err(e),
                    Ok(mut ss) => {
                        let ghost restm = stmts_model(ss@, 0);
                        proof {
                            lemma_stmts_model(ss@, 0);
                            lemma_stmts_model(ss@.insert(0, st), 0);
                            assert(stmts_model(ss@.insert(0, st), 0) =~= seq![stm] + restm);
                        }
                        ss.insert(0, st);
                        Ok(ss)
                    },
                }
            },
        }
    }

    #[verifier::rlimit(60)]
    #[verifier::spinoff_prover]
    fn parse_statement(&mut self, fuel: u64) -> (r: Result<Statement, Error>)
        requires
            old(self).position <= old(self).tokens@.len(),
        ensures
            final(self).tokens@ == old(self).tokens@,
            final(self).position <= final(self).tokens@.len(),
            ({
                let (rs, p2) = parse_statement_m(
                    tokens_model(old(self).tokens@, 0),
                    old(self).position as int,
                    fuel as nat,
                );
                final(self).position as int == p2 && (match (r, rs) {
                    (Result::Ok(st), Result::Ok(sm)) => st@ == sm,
                    (Result::Err(Error::Parser(m)), Result::Err(mm)) => m@ == mm,
                    _ => false,
                })
            }),
        decreases fuel, 0int,
    {
        proof {
            lemma_tokens_model(self.tokens@, 0);
        }
        if fuel == 0 {
            return Err(deep_err());
        }
        let ghost ts = tokens_model(self.tokens@, 0);
        let c = self.current();
        match c {
            Token::Let => {
                proof {
                    vstd::std_specs::vec::axiom_spec_len(&self.tokens); assert(self.position < self.tokens@.len());
                }
                self.position = self.position + 1;
                match self.parse_binding(fuel - 1) {
                    Ok((n, e)) => Ok(Statement::Let(n, e)),
                    Err(e) => Err(e),
                }
            },
            Token::Mut => {
                proof {
                    vstd::std_specs::vec::axiom_spec_len(&self.tokens); assert(self.position < self.tokens@.len());
                }
                self.position = self.position + 1;
                match self.parse_binding(fuel - 1) {
                    Ok((n, e)) => Ok(Statement::Mut(n, e)),
                    Err(e) => Err(e),
                }
            },
            Token::Return => {
                proof {
                    vstd::std_specs::vec::axiom_spec_len(&self.tokens); assert(self.position < self.tokens@.len());
                }
                self.position = self.position + 1;
                match self.parse_expression(fuel - 1) {
                    Ok(e) => Ok(Statement::Return(e)),
                    Err(e) => Err(e),
                }
            },
            _ => {
                match self.parse_expression(fuel - 1) {
                    Ok(e) => Ok(Statement::Expression(e)),
                    Err(e) => Err(e),
                }
            },
        }
    }

    fn parse_binding(&mut self, fuel: u64) -> (r: Result<(String, Expression), Error>)
        requires
            old(self).position <= old(self).tokens@.len(),
        ensures
            final(self).tokens@ == old(self).tokens@,
            final(self).position <= final(self).tokens@.len(),
            ({
                let (rs, p2) = parse_binding_m(
                    tokens_model(old(self).tokens@, 0),
                    old(self).position as int,
                    fuel as nat,
                );
                final(self).position as int == p2 && (match (r, rs) {
                    (Result::Ok((n, e)), Result::Ok(bm)) => n@ == bm.0 && e@ == bm.1,
                    (Result::Err(Error::Parser(m)), Result::Err(mm)) => m@ == mm,
                    _ => false,
                })
            }),
        decreases fuel, 0int,
    {
        proof {
            lemma_tokens_model(self.tokens@, 0);
        }
        if fuel == 0 {
            return Err(deep_err());
        }
        let c = self.current();
        match c {
            Token::Identifier(n) => {
                proof {
                    vstd::std_specs::vec::axiom_spec_len(&self.tokens); assert(self.position < self.tokens@.len());
                }
                self.position = self.position + 1;
                let c2 = self.current();
                match c2 {
                    Token::Assign => {
                        proof {
                            vstd::std_specs::vec::axiom_spec_len(&self.tokens); assert(self.position < self.tokens@.len());
                        }
                        self.position = self.position + 1;
                        match self.parse_expression(fuel - 1) {
                            Ok(e) => Ok((n, e)),
                            Err(e) => Err(e),
                        }
                    },
                    other => Err(unexpected_err(&other, "=")),
                }
            },
            other => Err(expected_ident_err(&other)),
        }
    }

    fn parse_expression(&mut self, fuel: u64) -> (r: Result<Expression, Error>)
        requires
            old(self).position <= old(self).tokens@.len(),
        ensures
            final(self).tokens@ == old(self).tokens@,
            final(self).position <= final(self).tokens@.len(),
            ({
                let (rs, p2) = parse_expression_m(
                    tokens_model(old(self).tokens@, 0),
                    old(self).position as int,
                    fuel as nat,
                );
                final(self).position as int == p2 && (match (r, rs) {
                    (Result::Ok(e), Result::Ok(em)) => e@ == em,
                    (Result::Err(Error::Parser(m)), Result::Err(mm)) => m@ == mm,
                    _ => false,
                })
            }),
        decreases fuel, 0int,
    {
        proof {
            lemma_tokens_model(self.tokens@, 0);
        }
        if fuel == 0 {
            return Err(deep_err());
        }
        self.parse_infix_expression(0, fuel - 1)
    }

    fn parse_infix_expression(&mut self, level: u8, fuel: u64) -> (r: Result<Expression, Error>)
        requires
            old(self).position <= old(self).tokens@.len(),
            level <= 8,
        ensures
            final(self).tokens@ == old(self).tokens@,
            final(self).position <= final(self).tokens@.len(),
            ({
                let (rs, p2) = parse_level_m(
                    tokens_model(old(self).tokens@, 0),
                    old(self).position as int,
                    level as int,
                    fuel as nat,
                );
                final(self).position as int == p2 && (match (r, rs) {
                    (Result::Ok(e), Result::Ok(em)) => e@ == em,
                    (Result::Err(Error::Parser(m)), Result::Err(mm)) => m@ == mm,
                    _ => false,
                })
            }),
        decreases fuel, 0int,
    {
        proof {
            lemma_tokens_model(self.tokens@, 0);
        }
        if fuel == 0 {
            return Err(deep_err());
        }
        let r = if level >= 8 {
            self.parse_prefix_expression(fuel - 1)
        } else {
            self.parse_infix_expression(level + 1, fuel - 1)
        };
        match r {
            Err(e) => Err(e),
            Ok(left) => self.parse_infix_rest(level, left, fuel - 1),
        }
    }

    fn parse_infix_rest(&mut self, level: u8, left: Expression, fuel: u64) -> (r: Result<
        Expression,
        Error,
    >)
        requires
            old(self).position <= old(self).tokens@.len(),
            level <= 8,
        ensures
            final(self).tokens@ == old(self).tokens@,
            final(self).position <= final(self).tokens@.len(),
            ({
                let (rs, p2) = parse_level_rest_m(
                    tokens_model(old(self).tokens@, 0),
                    old(self).position as int,
                    level as int,
                    left@,
                    fuel as nat,
                );
                final(self).position as int == p2 && (match (r, rs) {
                    (Result::Ok(e), Result::Ok(em)) => e@ == em,
                    (Result::Err(Error::Parser(m)), Result::Err(mm)) => m@ == mm,
                    _ => false,
                })
            }),
        decreases fuel, 0int,
    {
        proof {
            lemma_tokens_model(self.tokens@, 0);
        }
        if fuel == 0 {
            return Err(deep_err());
        }
        let t = self.current();
        if level_op_exec(level, &t) {
            proof {
                vstd::std_specs::vec::axiom_spec_len(&self.tokens); assert(self.position < self.tokens@.len());
            }
            self.position = self.position + 1;
            let r = if level >= 8 {
                self.parse_prefix_expression(fuel - 1)
            } else {
                self.parse_infix_expression(level + 1, fuel - 1)
            };
            match r {
                Err(e) => Err(e),
                Ok(right) => self.parse_infix_rest(
                    level,
                    Expression::Infix(Box::new(left), t, Box::new(right)),
                    fuel - 1,
                ),
            }
        } else {
            Ok(left)
        }
    }

    fn parse_prefix_expression(&mut self, fuel: u64) -> (r: Result<Expression, Error>)
        requires
            old(self).position <= old(self).tokens@.len(),
        ensures
            final(self).tokens@ == old(self).tokens@,
            final(self).position <= final(self).tokens@.len(),
            ({
                let (rs, p2) = parse_prefix_m(
                    tokens_model(old(self).tokens@, 0),
                    old(self).position as int,
                    fuel as nat,
                );
                final(self).position as int == p2 && (match (r, rs) {
                    (Result::Ok(e), Result::Ok(em)) => e@ == em,
                    (Result::Err(Error::Parser(m)), Result::Err(mm)) => m@ == mm,
                    _ => false,
                })
            }),
        decreases fuel, 0int,
    {
        proof {
            lemma_tokens_model(self.tokens@, 0);
        }
        if fuel == 0 {
            return Err(deep_err());
        }
        let t = self.current();
        if matches!(t, Token::Bang | Token::Minus) {
            proof {
                vstd::std_specs::vec::axiom_spec_len(&self.tokens); assert(self.position < self.tokens@.len());
            }
            self.position = self.position + 1;
            match self.parse_prefix_expression(fuel - 1) {
                Err(e) => Err(e),
                Ok(e) => Ok(Expression::Prefix(t, Box::new(e))),
            }
        } else {
            self.parse_call_expression(fuel - 1)
        }
    }

    fn parse_call_expression(&mut self, fuel: u64) -> (r: Result<Expression, Error>)
        requires
            old(self).position <= old(self).tokens@.len(),
        ensures
            final(self).tokens@ == old(self).tokens@,
            final(self).position <= final(self).tokens@.len(),
            ({
                let (rs, p2) = parse_postfix_m(
                    tokens_model(old(self).tokens@, 0),
                    old(self).position as int,
                    fuel as nat,
                );
                final(self).position as int == p2 && (match (r, rs) {
                    (Result::Ok(e), Result::Ok(em)) => e@ == em,
                    (Result::Err(Error::Parser(m)), Result::Err(mm)) => m@ == mm,
                    _ => false,
                })
            }),
        decreases fuel, 0int,
    {
        proof {
            lemma_tokens_model(self.tokens@, 0);
        }
        if fuel == 0 {
            return Err(deep_err());
        }
        match self.parse_literal_expression(fuel - 1) {
            Err(e) => Err(e),
            Ok(e) => self.parse_postfix_rest(e, fuel - 1),
        }
    }

    fn parse_postfix_rest(&mut self, e: Expression, fuel: u64) -> (r: Result<Expression, Error>)
        requires
            old(self).position <= old(self).tokens@.len(),
        ensures
            final(self).tokens@ == old(self).tokens@,
            final(self).position <= final(self).tokens@.len(),
            ({
                let (rs, p2) = parse_postfix_rest_m(
                    tokens_model(old(self).tokens@, 0),
                    old(self).position as int,
                    e@,
                    fuel as nat,
                );
                final(self).position as int == p2 && (match (r, rs) {
                    (Result::Ok(e2), Result::Ok(em)) => e2@ == em,
                    (Result::Err(Error::Parser(m)), Result::Err(mm)) => m@ == mm,
                    _ => false,
                })
            }),
        decreases fuel, 0int,
    {
        proof {
            lemma_tokens_model(self.tokens@, 0);
        }
        if fuel == 0 {
            return Err(deep_err());
        }
        let ghost ts0 = tokens_model(self.tokens@, 0);
        let ghost pos0 = self.position as int;
        let ghost em0 = e@;
        let ghost full = parse_postfix_rest_m(ts0, pos0, em0, fuel as nat);
        let t = self.current();
        match t {
            Token::LeftParen => {
                proof {
                    vstd::std_specs::vec::axiom_spec_len(&self.tokens); assert(self.position < self.tokens@.len());
                }
                let nx = self.peek_at(1);
                if matches!(nx, Token::RightParen) {
                    proof {
                        vstd::std_specs::vec::axiom_spec_len(&self.tokens); assert(self.position + 1 < self.tokens@.len());
                    }
                    self.position = self.position + 2;
                    let callee = Expression::Call(Box::new(e), Vec::new());
                    proof {
                        assert(full == parse_postfix_rest_m(
                            ts0,
                            pos0 + 2,
                            ExprModel::Call(Box::new(em0), Seq::empty()),
                            (fuel - 1) as nat,
                        ));
                        assert(exprs_model(Seq::<Expression>::empty(), 0)
                            == Seq::<ExprModel>::empty());
                        assert(callee matches Expression::Call(f, args) && args@
                            == Seq::<Expression>::empty());
                        assert(expr_model(callee) == ExprModel::Call(
                            Box::new(em0),
                            Seq::empty(),
                        ));
                        assert(callee@ == ExprModel::Call(Box::new(em0), Seq::empty()));
                    }
                    self.parse_postfix_rest(callee, fuel - 1)
                } else {
                    self.position = self.position + 1;
                    match self.parse_args(fuel - 1) {
                        Err(err) => Err(err),
                        Ok(args) => {
                            let c2 = self.current();
                            if matches!(c2, Token::RightParen) {
                                proof {
                                    vstd::std_specs::vec::axiom_spec_len(&self.tokens); assert(self.position < self.tokens@.len());
                                }
                                self.position = self.position + 1;
                                self.parse_postfix_rest(
                                    Expression::Call(Box::new(e), args),
                                    fuel - 1,
                                )
                            } else {
                                Err(unexpected_err(&c2, ")"))
                            }
                        },
                    }
                }
            },
            Token::LeftBracket => {
                proof {
                    vstd::std_specs::vec::axiom_spec_len(&self.tokens); assert(self.position < self.tokens@.len());
                }
                self.position = self.position + 1;
                match self.parse_expression(fuel - 1) {
                    Err(err) => Err(err),
                    Ok(idx) => {
                        let c2 = self.current();
                        if matches!(c2, Token::RightBracket) {
                            proof {
                                vstd::std_specs::vec::axiom_spec_len(&self.tokens); assert(self.position < self.tokens@.len());
                            }
                            self.position = self.position + 1;
                            self.parse_postfix_rest(
                                Expression::Index(Box::new(e), Box::new(idx)),
                                fuel - 1,
                            )
                        } else {
                            Err(unexpected_err(&c2, "]"))
                        }
                    },
                }
            },
            _ => Ok(e),
        }
    }

    fn parse_args(&mut self, fuel: u64) -> (r: Result<Vec<Expression>, Error>)
        requires
            old(self).position <= old(self).tokens@.len(),
        ensures
            final(self).tokens@ == old(self).tokens@,
            final(self).position <= final(self).tokens@.len(),
            ({
                let (rs, p2) = parse_args_m(
                    tokens_model(old(self).tokens@, 0),
                    old(self).position as int,
                    fuel as nat,
                );
                final(self).position as int == p2 && (match (r, rs) {
                    (Result::Ok(es), Result::Ok(em)) => exprs_model(es@, 0) == em,
                    (Result::Err(Error::Parser(m)), Result::Err(mm)) => m@ == mm,
                    _ => false,
                })
            }),
        decreases fuel, 0int,
    {
        proof {
            lemma_tokens_model(self.tokens@, 0);
        }
        if fuel == 0 {
            return Err(deep_err());
        }
        match self.parse_expression(fuel - 1) {
            Err(e) => Err(e),
            Ok(first) => {
                let ghost firstm = first@;
                let c = self.current();
                if matches!(c, Token::Comma) {
                    proof {
                        vstd::std_specs::vec::axiom_spec_len(&self.tokens); assert(self.position < self.tokens@.len());
                    }
                    self.position = self.position + 1;
                    match self.parse_args(fuel - 1) {
                        Err(e) => Err(e),
                        Ok(mut es) => {
                            let ghost restm = exprs_model(es@, 0);
                            proof {
                                lemma_exprs_model(es@, 0);
                                lemma_exprs_model(es@.insert(0, first), 0);
                                assert(exprs_model(es@.insert(0, first), 0) =~= seq![firstm]
                                    + restm);
                            }
                            es.insert(0, first);
                            Ok(es)
                        },
                    }
                } else {
                    let mut es: Vec<Expression> = Vec::new();
                    proof {
                        lemma_exprs_model(es@.push(first), 0);
                        assert(exprs_model(es@.push(first), 0) =~= seq![firstm]);
                    }
                    es.push(first);
                    Ok(es)
                }
            },
        }
    }

    fn parse_params(&mut self, fuel: u64) -> (r: Result<Vec<String>, Error>)
        requires
            old(self).position <= old(self).tokens@.len(),
        ensures
            final(self).tokens@ == old(self).tokens@,
            final(self).position <= final(self).tokens@.len(),
            ({
                let (rs, p2) = parse_params_m(
                    tokens_model(old(self).tokens@, 0),
                    old(self).position as int,
                    fuel as nat,
                );
                final(self).position as int == p2 && (match (r, rs) {
                    (Result::Ok(ns), Result::Ok(nm)) => ns.deep_view() == nm,
                    (Result::Err(Error::Parser(m)), Result::Err(mm)) => m@ == mm,
                    _ => false,
                })
            }),
        decreases fuel, 0int,
    {
        proof {
            lemma_tokens_model(self.tokens@, 0);
        }
        if fuel == 0 {
            return Err(deep_err());
        }
        let c = self.current();
        match c {
            Token::Identifier(n) => {
                proof {
                    vstd::std_specs::vec::axiom_spec_len(&self.tokens); assert(self.position < self.tokens@.len());
                }
                let ghost nm = n@;
                let nx = self.peek_at(1);
                if matches!(nx, Token::Comma) {
                    proof {
                        vstd::std_specs::vec::axiom_spec_len(&self.tokens); assert(self.position + 1 < self.tokens@.len());
                    }
                    self.position = self.position + 2;
                    match self.parse_params(fuel - 1) {
                        Err(e) => Err(e),
                        Ok(mut ns) => {
                            let ghost restm = ns.deep_view();
                            proof {
                                assert(ns@.insert(0, n).len() == ns@.len() + 1);
                            }
                            ns.insert(0, n);
                            proof {
                                assert(ns.deep_view() =~= seq![nm] + restm);
                            }
                            Ok(ns)
                        },
                    }
                } else {
                    self.position = self.position + 1;
                    let mut ns: Vec<String> = Vec::new();
                    ns.push(n);
                    proof {
                        assert(ns.deep_view() =~= seq![nm]);
                    }
                    Ok(ns)
                }
            },
            other => Err(expected_ident_err(&other)),
        }
    }

    fn parse_hash_items(&mut self, fuel: u64) -> (r: Result<Vec<(Expression, Expression)>, Error>)
        requires
            old(self).position <= old(self).tokens@.len(),
        ensures
            final(self).tokens@ == old(self).tokens@,
            final(self).position <= final(self).tokens@.len(),
            ({
                let (rs, p2) = parse_hash_items_m(
                    tokens_model(old(self).tokens@, 0),
                    old(self).position as int,
                    fuel as nat,
                );
                final(self).position as int == p2 && (match (r, rs) {
                    (Result::Ok(ps), Result::Ok(pm)) => pairs_model(ps@, 0) == pm,
                    (Result::Err(Error::Parser(m)), Result::Err(mm)) => m@ == mm,
                    _ => false,
                })
            }),
        decreases fuel, 0int,
    {
        proof {
            lemma_tokens_model(self.tokens@, 0);
        }
        if fuel == 0 {
            return Err(deep_err());
        }
        match self.parse_expression(fuel - 1) {
            Err(e) => Err(e),
            Ok(k) => {
                let c = self.current();
                if matches!(c, Token::Colon) {
                    proof {
                        vstd::std_specs::vec::axiom_spec_len(&self.tokens); assert(self.position < self.tokens@.len());
                    }
                    self.position = self.position + 1;
                    match self.parse_expression(fuel - 1) {
                        Err(e) => Err(e),
                        Ok(v) => {
                            let ghost km = k@;
                            let ghost vm = v@;
                            let c2 = self.current();
                            if matches!(c2, Token::Comma) {
                                proof {
                                    vstd::std_specs::vec::axiom_spec_len(&self.tokens); assert(self.position < self.tokens@.len());
                                }
                                self.position = self.position + 1;
                                match self.parse_hash_items(fuel - 1) {
                                    Err(e) => Err(e),
                                    Ok(mut ps) => {
                                        let ghost restm = pairs_model(ps@, 0);
                                        proof {
                                            lemma_pairs_model(ps@, 0);
                                            lemma_pairs_model(ps@.insert(0, (k, v)), 0);
                                            assert(pairs_model(ps@.insert(0, (k, v)), 0) =~= seq![
                                                (km, vm),
                                            ] + restm);
                                        }
                                        ps.insert(0, (k, v));
                                        Ok(ps)
                                    },
                                }
                            } else {
                                let mut ps: Vec<(Expression, Expression)> = Vec::new();
                                proof {
                                    lemma_pairs_model(ps@.push((k, v)), 0);
                                    assert(pairs_model(ps@.push((k, v)), 0) =~= seq![(km, vm)]);
                                }
                                ps.push((k, v));
                                Ok(ps)
                            }
                        },
                    }
                } else {
                    Err(unexpected_err(&c, ":"))
                }
            },
        }
    }

    fn parse_block_statements(&mut self, fuel: u64) -> (r: Result<Vec<Statement>, Error>)
        requires
            old(self).position <= old(self).tokens@.len(),
        ensures
            final(self).tokens@ == old(self).tokens@,
            final(self).position <= final(self).tokens@.len(),
            ({
                let (rs, p2) = parse_block_stmts_m(
                    tokens_model(old(self).tokens@, 0),
                    old(self).position as int,
                    fuel as nat,
                );
                final(self).position as int == p2 && (match (r, rs) {
                    (Result::Ok(ss), Result::Ok(sm)) => stmts_model(ss@, 0) == sm,
                    (Result::Err(Error::Parser(m)), Result::Err(mm)) => m@ == mm,
                    _ => false,
                })
            }),
        decreases fuel, 0int,
    {
        proof {
            lemma_tokens_model(self.tokens@, 0);
        }
        if fuel == 0 {
            return Err(deep_err());
        }
        let c = self.current();
        if matches!(c, Token::RightBrace | Token::Eof) {
            let ss: Vec<Statement> = Vec::new();
            proof {
                assert(stmts_model(ss@, 0) =~= Seq::<StmtModel>::empty());
            }
            return Ok(ss);
        }
        match self.parse_statement(fuel - 1) {
            Err(e) => Err(e),
            Ok(st) => {
                let ghost stm = st@;
                match self.parse_block_statements(fuel - 1) {
                    Err(e) => Err(e),
                    Ok(mut ss) => {
                        let ghost restm = stmts_model(ss@, 0);
                        proof {
                            lemma_stmts_model(ss@, 0);
                            lemma_stmts_model(ss@.insert(0, st), 0);
                            assert(stmts_model(ss@.insert(0, st), 0) =~= seq![stm] + restm);
                        }
                        ss.insert(0, st);
                        Ok(ss)
                    },
                }
            },
        }
    }

    #[verifier::rlimit(100)]
    #[verifier::spinoff_prover]
    fn parse_literal_expression(&mut self, fuel: u64) -> (r: Result<Expression, Error>)
        requires
            old(self).position <= old(self).tokens@.len(),
        ensures
            final(self).tokens@ == old(self).tokens@,
            final(self).position <= final(self).tokens@.len(),
            ({
                let (rs, p2) = parse_literal_m(
                    tokens_model(old(self).tokens@, 0),
                    old(self).position as int,
                    fuel as nat,
                );
                final(self).position as int == p2 && (match (r, rs) {
                    (Result::Ok(e), Result::Ok(em)) => e@ == em,
                    (Result::Err(Error::Parser(m)), Result::Err(mm)) => m@ == mm,
                    _ => false,
                })
            }),
        decreases fuel, 1int,
    {
        proof {
            lemma_tokens_model(self.tokens@, 0);
        }
        if fuel == 0 {
            return Err(deep_err());
        }
        let c = self.current();
        match c {
            Token::True => {
                proof {
                    vstd::std_specs::vec::axiom_spec_len(&self.tokens); assert(self.position < self.tokens@.len());
                }
                self.position = self.position + 1;
                Ok(Expression::Boolean(true))
            },
            Token::False => {
                proof {
                    vstd::std_specs::vec::axiom_spec_len(&self.tokens); assert(self.position < self.tokens@.len());
                }
                self.position = self.position + 1;
                Ok(Expression::Boolean(false))
            },
            Token::Integer(text) => {
                match parse_integer_text(text.as_str()) {
                    Some(v) => {
                        proof {
                            vstd::std_specs::vec::axiom_spec_len(&self.tokens); assert(self.position < self.tokens@.len());
                        }
                        self.position = self.position + 1;
                        Ok(Expression::Integer(v))
                    },
                    None => Err(int_range_err(text.as_str())),
                }
            },
            Token::Float(text) => {
                proof {
                    vstd::std_specs::vec::axiom_spec_len(&self.tokens); assert(self.position < self.tokens@.len());
                }
                self.position = self.position + 1;
                let bits = f64_parse(text.as_str());
                Ok(Expression::Float(bits))
            },
            Token::Str(text) => {
                proof {
                    vstd::std_specs::vec::axiom_spec_len(&self.tokens); assert(self.position < self.tokens@.len());
                }
                self.position = self.position + 1;
                Ok(Expression::Str(text))
            },
            Token::Identifier(n) => {
                proof {
                    vstd::std_specs::vec::axiom_spec_len(&self.tokens); assert(self.position < self.tokens@.len());
                }
                self.position = self.position + 1;
                Ok(Expression::Identifier(n))
            },
            Token::LeftParen => {
                proof {
                    vstd::std_specs::vec::axiom_spec_len(&self.tokens); assert(self.position < self.tokens@.len());
                }
                self.position = self.position + 1;
                match self.parse_expression(fuel - 1) {
                    Err(e) => Err(e),
                    Ok(e) => {
                        let c2 = self.current();
                        if matches!(c2, Token::RightParen) {
                            proof {
                                vstd::std_specs::vec::axiom_spec_len(&self.tokens); assert(self.position < self.tokens@.len());
                            }
                            self.position = self.position + 1;
                            Ok(e)
                        } else {
                            Err(unexpected_err(&c2, ")"))
                        }
                    },
                }
            },
            Token::LeftBracket => {
                proof {
                    vstd::std_specs::vec::axiom_spec_len(&self.tokens); assert(self.position < self.tokens@.len());
                }
                let nx = self.peek_at(1);
                if matches!(nx, Token::RightBracket) {
                    proof {
                        vstd::std_specs::vec::axiom_spec_len(&self.tokens); assert(self.position + 1 < self.tokens@.len());
                    }
                    self.position = self.position + 2;
                    let es: Vec<Expression> = Vec::new();
                    proof {
                        assert(exprs_model(es@, 0) =~= Seq::<ExprModel>::empty());
                    }
                    Ok(Expression::Array(es))
                } else {
                    self.position = self.position + 1;
                    match self.parse_args(fuel - 1) {
                        Err(e) => Err(e),
                        Ok(es) => {
                            let c2 = self.current();
                            if matches!(c2, Token::RightBracket) {
                                proof {
                                    vstd::std_specs::vec::axiom_spec_len(&self.tokens); assert(self.position < self.tokens@.len());
                                }
                                self.position = self.position + 1;
                                Ok(Expression::Array(es))
                            } else {
                                Err(unexpected_err(&c2, "]"))
                            }
                        },
                    }
                }
            },
            Token::LeftBrace => self.parse_braces(fuel),
            Token::If => self.parse_conditional(fuel),
            Token::Function => self.parse_function_literal(fuel),
            other => Err(expected_ident_err(&other)),
        }
    }

    fn parse_braces(&mut self, fuel: u64) -> (r: Result<Expression, Error>)
        requires
            old(self).position <= old(self).tokens@.len(),
            fuel >= 1,
            peek_m(tokens_model(old(self).tokens@, 0), old(self).position as int)
                is LeftBrace,
        ensures
            final(self).tokens@ == old(self).tokens@,
            final(self).position <= final(self).tokens@.len(),
            ({
                let (rs, p2) = parse_literal_m(
                    tokens_model(old(self).tokens@, 0),
                    old(self).position as int,
                    fuel as nat,
                );
                final(self).position as int == p2 && (match (r, rs) {
                    (Result::Ok(e), Result::Ok(em)) => e@ == em,
                    (Result::Err(Error::Parser(m)), Result::Err(mm)) => m@ == mm,
                    _ => false,
                })
            }),
        decreases fuel, 0int,
    {
        proof {
            lemma_tokens_model(self.tokens@, 0);
        }

        proof {
            vstd::std_specs::vec::axiom_spec_len(&self.tokens); assert(self.position < self.tokens@.len());
        }
        let nx = self.peek_at(1);
        let nx2 = self.peek_at(2);
        if matches!(nx, Token::RightBrace) {
            proof {
                vstd::std_specs::vec::axiom_spec_len(&self.tokens); assert(self.position + 1 < self.tokens@.len());
            }
            self.position = self.position + 2;
            let ss: Vec<Statement> = Vec::new();
            proof {
                assert(stmts_model(ss@, 0) =~= Seq::<StmtModel>::empty());
            }
            Ok(Expression::Block(ss))
        } else if matches!(nx2, Token::Colon) {
            self.position = self.position + 1;
            match self.parse_hash_items(fuel - 1) {
                Err(e) => Err(e),
                Ok(items) => {
                    let c2 = self.current();
                    if matches!(c2, Token::RightBrace) {
                        proof {
                            vstd::std_specs::vec::axiom_spec_len(&self.tokens); assert(self.position < self.tokens@.len());
                        }
                        self.position = self.position + 1;
                        Ok(Expression::Hash(items))
                    } else {
                        Err(unexpected_err(&c2, "}"))
                    }
                },
            }
        } else {
            self.position = self.position + 1;
            match self.parse_block_statements(fuel - 1) {
                Err(e) => Err(e),
                Ok(ss) => {
                    let c2 = self.current();
                    if matches!(c2, Token::RightBrace) {
                        proof {
                            vstd::std_specs::vec::axiom_spec_len(&self.tokens); assert(self.position < self.tokens@.len());
                        }
                        self.position = self.position + 1;
                        Ok(Expression::Block(ss))
                    } else {
                        Err(unexpected_err(&c2, "}"))
                    }
                },
            }
        }
    }

    fn parse_conditional(&mut self, fuel: u64) -> (r: Result<Expression, Error>)
        requires
            old(self).position <= old(self).tokens@.len(),
            fuel >= 1,
            peek_m(tokens_model(old(self).tokens@, 0), old(self).position as int) is If,
        ensures
            final(self).tokens@ == old(self).tokens@,
            final(self).position <= final(self).tokens@.len(),
            ({
                let (rs, p2) = parse_literal_m(
                    tokens_model(old(self).tokens@, 0),
                    old(self).position as int,
                    fuel as nat,
                );
                final(self).position as int == p2 && (match (r, rs) {
                    (Result::Ok(e), Result::Ok(em)) => e@ == em,
                    (Result::Err(Error::Parser(m)), Result::Err(mm)) => m@ == mm,
                    _ => false,
                })
            }),
        decreases fuel, 0int,
    {
        proof {
            lemma_tokens_model(self.tokens@, 0);
        }

        proof {
            vstd::std_specs::vec::axiom_spec_len(&self.tokens); assert(self.position < self.tokens@.len());
        }
        self.position = self.position + 1;
        match self.parse_expression(fuel - 1) {
            Err(e) => Err(e),
            Ok(cond) => {
                match self.parse_expression(fuel - 1) {
                    Err(e) => Err(e),
                    Ok(cons) => {
                        let c2 = self.current();
                        if matches!(c2, Token::Else) {
                            proof {
                                vstd::std_specs::vec::axiom_spec_len(&self.tokens); assert(self.position < self.tokens@.len());
                            }
                            self.position = self.position + 1;
                            match self.parse_expression(fuel - 1) {
                                Err(e) => Err(e),
                                Ok(alt) => {
                                    let ghost cm = cond@;
                                    let ghost tm = cons@;
                                    let ghost am = alt@;
                                    let altopt = Some(Box::new(alt));
                                    proof {
                                        assert(crate::ast::opt_box_model(altopt)
                                            == Option::Some(Box::new(am)));
                                    }
                                    let ex = Expression::If(
                                        Box::new(cond),
                                        Box::new(cons),
                                        altopt,
                                    );
                                    proof {
                                        assert(ex@ == ExprModel::If(
                                            Box::new(cm),
                                            Box::new(tm),
                                            Option::Some(Box::new(am)),
                                        ));
                                    }
                                    Ok(ex)
                                },
                            }
                        } else {
                            let ghost cm = cond@;
                            let ghost tm = cons@;
                            let altopt: Option<Box<Expression>> = None;
                            proof {
                                assert(crate::ast::opt_box_model(altopt)
                                    == Option::<Box<ExprModel>>::None);
                            }
                            let ex = Expression::If(Box::new(cond), Box::new(cons), altopt);
                            proof {
                                assert(ex@ == ExprModel::If(
                                    Box::new(cm),
                                    Box::new(tm),
                                    Option::<Box<ExprModel>>::None,
                                ));
                            }
                            Ok(ex)
                        }
                    },
                }
            },
        }
    }

    fn parse_function_literal(&mut self, fuel: u64) -> (r: Result<Expression, Error>)
        requires
            old(self).position <= old(self).tokens@.len(),
            fuel >= 1,
            peek_m(tokens_model(old(self).tokens@, 0), old(self).position as int)
                is Function,
        ensures
            final(self).tokens@ == old(self).tokens@,
            final(self).position <= final(self).tokens@.len(),
            ({
                let (rs, p2) = parse_literal_m(
                    tokens_model(old(self).tokens@, 0),
                    old(self).position as int,
                    fuel as nat,
                );
                final(self).position as int == p2 && (match (r, rs) {
                    (Result::Ok(e), Result::Ok(em)) => e@ == em,
                    (Result::Err(Error::Parser(m)), Result::Err(mm)) => m@ == mm,
                    _ => false,
                })
            }),
        decreases fuel, 0int,
    {
        proof {
            lemma_tokens_model(self.tokens@, 0);
        }

        proof {
            vstd::std_specs::vec::axiom_spec_len(&self.tokens); assert(self.position < self.tokens@.len());
        }
        let nx = self.peek_at(1);
        if !matches!(nx, Token::LeftParen) {
            self.position = self.position + 1;
            Err(unexpected_err(&nx, "("))
        } else {
            let nx2 = self.peek_at(2);
            if matches!(nx2, Token::RightParen) {
                proof {
                    vstd::std_specs::vec::axiom_spec_len(&self.tokens); assert(self.position + 2 < self.tokens@.len());
                }
                self.position = self.position + 3;
                match self.parse_expression(fuel - 1) {
                    Err(e) => Err(e),
                    Ok(body) => {
                        let ns: Vec<String> = Vec::new();
                        proof {
                            assert(ns.deep_view() =~= Seq::<Seq<char>>::empty());
                        }
                        Ok(Expression::Function(ns, Rc::new(body)))
                    },
                }
            } else {
                proof {
                    vstd::std_specs::vec::axiom_spec_len(&self.tokens); assert(self.position + 1 < self.tokens@.len());
                }
                self.position = self.position + 2;
                match self.parse_params(fuel - 1) {
                    Err(e) => Err(e),
                    Ok(params) => {
                        let c2 = self.current();
                        if matches!(c2, Token::RightParen) {
                            proof {
                                vstd::std_specs::vec::axiom_spec_len(&self.tokens); assert(self.position < self.tokens@.len());
                            }
                            self.position = self.position + 1;
                            match self.parse_expression(fuel - 1) {
                                Err(e) => Err(e),
                                Ok(body) => Ok(
                                    Expression::Function(params, Rc::new(body)),
                                ),
                            }
                        } else {
                            Err(unexpected_err(&c2, ")"))
                        }
                    },
                }
            }
        }
    }

}

} // verus!
