//! A small dynamically typed scripting language: source text in, evaluated
//! value out. The pipeline is a lexer, a recursive-descent parser with
//! precedence climbing, and a tree-walking evaluator over lexically scoped,
//! closure-capturing environments. Each stage is specified by a mathematical
//! model of the same shape, and the executable code is proved equal to it.

pub mod ast;
pub mod builtin;
pub mod environment;
pub mod evaluator;
pub mod floatbits;
pub mod lexer;
pub mod object;
pub mod ops;
pub mod parser;
pub mod render;
pub mod text;
pub mod token;

use vstd::prelude::*;

verus! {

/// Classifies a failure of one pipeline stage; evaluation of the unit that
/// produced it stops at that point. The message names the offending
/// character, token, name or value.
#[derive(Debug)]
pub enum Error {
    Lexer(String),
    Parser(String),
    Runtime(String),
}

/// Ghost model of an error.
pub enum ErrorModel {
    Lexer(Seq<char>),
    Parser(Seq<char>),
    Runtime(Seq<char>),
}

impl View for Error {
    type V = ErrorModel;

    open spec fn view(&self) -> ErrorModel {
        match self {
            Error::Lexer(m) => ErrorModel::Lexer(m@),
            Error::Parser(m) => ErrorModel::Parser(m@),
            Error::Runtime(m) => ErrorModel::Runtime(m@),
        }
    }
}

impl Error {
    /// The message text, without its kind.
    pub fn message(&self) -> (r: &str)
        ensures
            r@ == match self@ {
                ErrorModel::Lexer(m) => m,
                ErrorModel::Parser(m) => m,
                ErrorModel::Runtime(m) => m,
            },
    {
        match self {
            Error::Lexer(m) => m.as_str(),
            Error::Parser(m) => m.as_str(),
            Error::Runtime(m) => m.as_str(),
        }
    }

    /// The kind's name, as a report prefixes it.
    pub fn kind(&self) -> (r: &'static str)
        ensures
            r@ == match self@ {
                ErrorModel::Lexer(_) => "LexerError"@,
                ErrorModel::Parser(_) => "ParserError"@,
                ErrorModel::Runtime(_) => "RuntimeError"@,
            },
    {
        match self {
            Error::Lexer(_) => "LexerError",
            Error::Parser(_) => "ParserError",
            Error::Runtime(_) => "RuntimeError",
        }
    }
}

/// What stops an evaluation besides a normal value: a runtime fault, a
/// request from the `exit` builtin to end the process with a status, or an
/// exhausted evaluation budget.
#[derive(Debug)]
pub enum Signal {
    Fault(Error),
    Exit(i64),
    OutOfFuel,
}

/// Ghost model of a signal.
pub enum SignalModel {
    Fault(ErrorModel),
    Exit(i64),
    OutOfFuel,
}

impl View for Signal {
    type V = SignalModel;

    open spec fn view(&self) -> SignalModel {
        match self {
            Signal::Fault(e) => SignalModel::Fault(e@),
            Signal::Exit(c) => SignalModel::Exit(*c),
            Signal::OutOfFuel => SignalModel::OutOfFuel,
        }
    }
}

} // verus!
