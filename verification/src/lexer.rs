//! The lexer: one forward pass over the source's characters with one
//! character of lookahead. Two-character operators are taken greedily
//! before their single-character forms. The scan is specified by a
//! recursive model over the character sequence, the executable pass is
//! proved equal to it, and the pass is proved to terminate with exactly
//! one end-of-input token.

use crate::text::push_char;
use crate::token::{
    lookup_identifier, lookup_identifier_model, tokens_model, Token, TokenModel,
};
use crate::Error;
use vstd::prelude::*;
use vstd::string::{StrSliceExecFns, StringExecFns};

verus! {

/// An identifier may start with these and continue with these or digits.
pub open spec fn is_letter_c(c: char) -> bool {
    c == '_' || ('a' <= c && c <= 'z') || ('A' <= c && c <= 'Z')
}

/// A decimal digit.
pub open spec fn is_digit_c(c: char) -> bool {
    '0' <= c && c <= '9'
}

/// The whitespace the lexer skips.
pub open spec fn is_whitespace_c(c: char) -> bool {
    c == ' ' || c == '\t' || c == '\r' || c == '\n'
}

pub fn is_letter(character: char) -> (r: bool)
    ensures
        r == is_letter_c(character),
{
    character == '_' || ('a' <= character && character <= 'z') || ('A' <= character
        && character <= 'Z')
}

pub fn is_digit(character: char) -> (r: bool)
    ensures
        r == is_digit_c(character),
{
    '0' <= character && character <= '9'
}

pub fn is_whitespace(character: char) -> (r: bool)
    ensures
        r == is_whitespace_c(character),
{
    character == ' ' || character == '\t' || character == '\r' || character == '\n'
}

/// The first position at or after `i` holding no whitespace.
pub open spec fn skip_ws(s: Seq<char>, i: int) -> int
    decreases s.len() - i,
{
    if 0 <= i && i < s.len() && is_whitespace_c(s[i]) {
        skip_ws(s, i + 1)
    } else {
        i
    }
}

/// The first position at or after `i` holding no identifier character.
pub open spec fn ident_end(s: Seq<char>, i: int) -> int
    decreases s.len() - i,
{
    if 0 <= i && i < s.len() && (is_letter_c(s[i]) || is_digit_c(s[i])) {
        ident_end(s, i + 1)
    } else {
        i
    }
}

/// The first position at or after `i` holding no digit.
pub open spec fn digits_end(s: Seq<char>, i: int) -> int
    decreases s.len() - i,
{
    if 0 <= i && i < s.len() && is_digit_c(s[i]) {
        digits_end(s, i + 1)
    } else {
        i
    }
}

/// The first position at or after `i` holding a closing quote, or the end.
pub open spec fn string_end(s: Seq<char>, i: int) -> int
    decreases s.len() - i,
{
    if 0 <= i && i < s.len() && s[i] != '"' {
        string_end(s, i + 1)
    } else {
        i
    }
}

pub proof fn lemma_skip_ws_bounds(s: Seq<char>, i: int)
    requires
        0 <= i <= s.len(),
    ensures
        i <= skip_ws(s, i) <= s.len(),
    decreases s.len() - i,
{
    if i < s.len() && is_whitespace_c(s[i]) {
        lemma_skip_ws_bounds(s, i + 1);
    }
}

pub proof fn lemma_ident_end_bounds(s: Seq<char>, i: int)
    requires
        0 <= i <= s.len(),
    ensures
        i <= ident_end(s, i) <= s.len(),
    decreases s.len() - i,
{
    if i < s.len() && (is_letter_c(s[i]) || is_digit_c(s[i])) {
        lemma_ident_end_bounds(s, i + 1);
    }
}

pub proof fn lemma_digits_end_bounds(s: Seq<char>, i: int)
    requires
        0 <= i <= s.len(),
    ensures
        i <= digits_end(s, i) <= s.len(),
    decreases s.len() - i,
{
    if i < s.len() && is_digit_c(s[i]) {
        lemma_digits_end_bounds(s, i + 1);
    }
}

pub proof fn lemma_string_end_bounds(s: Seq<char>, i: int)
    requires
        0 <= i <= s.len(),
    ensures
        i <= string_end(s, i) <= s.len(),
    decreases s.len() - i,
{
    if i < s.len() && s[i] != '"' {
        lemma_string_end_bounds(s, i + 1);
    }
}

/// The next token starting at `pos`, and the position just after it.
/// Whitespace is skipped first; at the end of input the token is `Eof`;
/// an unexpected character or an unterminated string is an error text.
pub open spec fn next_token_model(s: Seq<char>, pos: int) -> (Result<TokenModel, Seq<char>>, int) {
    let i = skip_ws(s, pos);
    if i >= s.len() {
        (Result::Ok(TokenModel::Eof), i)
    } else {
        let c = s[i];
        if c == '=' {
            if i + 1 < s.len() && s[i + 1] == '=' {
                (Result::Ok(TokenModel::Equal), i + 2)
            } else {
                (Result::Ok(TokenModel::Assign), i + 1)
            }
        } else if c == '.' {
            if i + 1 < s.len() && s[i + 1] == '.' {
                (Result::Ok(TokenModel::Spread), i + 2)
            } else {
                (Result::Ok(TokenModel::Dot), i + 1)
            }
        } else if c == '!' {
            if i + 1 < s.len() && s[i + 1] == '=' {
                (Result::Ok(TokenModel::NotEqual), i + 2)
            } else {
                (Result::Ok(TokenModel::Bang), i + 1)
            }
        } else if c == '<' {
            if i + 1 < s.len() && s[i + 1] == '=' {
                (Result::Ok(TokenModel::LesserOrEqual), i + 2)
            } else {
                (Result::Ok(TokenModel::Lesser), i + 1)
            }
        } else if c == '>' {
            if i + 1 < s.len() && s[i + 1] == '=' {
                (Result::Ok(TokenModel::GreaterOrEqual), i + 2)
            } else {
                (Result::Ok(TokenModel::Greater), i + 1)
            }
        } else if c == '&' {
            if i + 1 < s.len() && s[i + 1] == '&' {
                (Result::Ok(TokenModel::AmpersandAmpersand), i + 2)
            } else {
                (Result::Ok(TokenModel::Ampersand), i + 1)
            }
        } else if c == '|' {
            if i + 1 < s.len() && s[i + 1] == '|' {
                (Result::Ok(TokenModel::PipePipe), i + 2)
            } else {
                (Result::Ok(TokenModel::Pipe), i + 1)
            }
        } else if c == '+' {
            (Result::Ok(TokenModel::Plus), i + 1)
        } else if c == '-' {
            (Result::Ok(TokenModel::Minus), i + 1)
        } else if c == '*' {
            (Result::Ok(TokenModel::Asterisk), i + 1)
        } else if c == '/' {
            (Result::Ok(TokenModel::Slash), i + 1)
        } else if c == ',' {
            (Result::Ok(TokenModel::Comma), i + 1)
        } else if c == ':' {
            (Result::Ok(TokenModel::Colon), i + 1)
        } else if c == '(' {
            (Result::Ok(TokenModel::LeftParen), i + 1)
        } else if c == ')' {
            (Result::Ok(TokenModel::RightParen), i + 1)
        } else if c == '{' {
            (Result::Ok(TokenModel::LeftBrace), i + 1)
        } else if c == '}' {
            (Result::Ok(TokenModel::RightBrace), i + 1)
        } else if c == '[' {
            (Result::Ok(TokenModel::LeftBracket), i + 1)
        } else if c == ']' {
            (Result::Ok(TokenModel::RightBracket), i + 1)
        } else if c == '"' {
            let e = string_end(s, i + 1);
            if e >= s.len() {
                (Result::Err("Unterminated string"@), e)
            } else {
                (Result::Ok(TokenModel::Str(s.subrange(i + 1, e))), e + 1)
            }
        } else if is_letter_c(c) {
            let e = ident_end(s, i);
            (Result::Ok(lookup_identifier_model(s.subrange(i, e))), e)
        } else if is_digit_c(c) {
            let e = digits_end(s, i);
            if e < s.len() && s[e] == '.' && e + 1 < s.len() && is_digit_c(s[e + 1]) {
                let e2 = digits_end(s, e + 1);
                (Result::Ok(TokenModel::Float(s.subrange(i, e2))), e2)
            } else {
                (Result::Ok(TokenModel::Integer(s.subrange(i, e))), e)
            }
        } else {
            (Result::Err("Unexpected character '"@ + seq![c] + "'"@), i)
        }
    }
}

/// A non-terminal token always advances the scan, and the scan stays in
/// bounds: lexing cannot loop.
pub proof fn lemma_next_token_advances(s: Seq<char>, pos: int)
    requires
        0 <= pos <= s.len(),
    ensures
        ({
            let (r, p2) = next_token_model(s, pos);
            pos <= p2 <= s.len() && (match r {
                Result::Ok(t) => !(t is Eof) ==> p2 > pos,
                Result::Err(_) => true,
            })
        }),
{
    lemma_skip_ws_bounds(s, pos);
    let i = skip_ws(s, pos);
    if i < s.len() {
        let c = s[i];
        if c == '"' {
            lemma_string_end_bounds(s, i + 1);
        } else if c == '=' || c == '.' || c == '!' || c == '<' || c == '>' || c == '&' || c
            == '|' || c == '+' || c == '-' || c == '*' || c == '/' || c == ',' || c == ':' || c
            == '(' || c == ')' || c == '{' || c == '}' || c == '[' || c == ']' {
        } else if is_letter_c(c) {
            lemma_ident_end_bounds(s, i + 1);
            assert(ident_end(s, i) == ident_end(s, i + 1));
        } else if is_digit_c(c) {
            lemma_digits_end_bounds(s, i + 1);
            assert(digits_end(s, i) == digits_end(s, i + 1));
            let e = digits_end(s, i);
            if e < s.len() && s[e] == '.' && e + 1 < s.len() && is_digit_c(s[e + 1]) {
                lemma_digits_end_bounds(s, e + 1);
            }
        }
    }
}

/// The token sequence of the source from `pos` on: each token in scan
/// order, ending with the single `Eof`, or the first scan error.
pub open spec fn lex_from(s: Seq<char>, pos: int) -> Result<Seq<TokenModel>, Seq<char>>
    decreases s.len() - pos
        via lex_from_decreases
{
    if pos < 0 {
        Result::Err(Seq::empty())
    } else {
        let (r, p2) = next_token_model(s, pos);
        match r {
            Result::Err(m) => Result::Err(m),
            Result::Ok(t) => if t is Eof {
                Result::Ok(seq![t])
            } else {
                match lex_from(s, p2) {
                    Result::Ok(rest) => Result::Ok(seq![t] + rest),
                    Result::Err(m) => Result::Err(m),
                }
            },
        }
    }
}

#[via_fn]
proof fn lex_from_decreases(s: Seq<char>, pos: int) {
    if 0 <= pos && pos <= s.len() {
        lemma_next_token_advances(s, pos);
    } else if pos > s.len() {
        lemma_skip_ws_bounds(s, s.len() as int);
        assert(skip_ws(s, pos) == pos);
    }
}

/// The token sequence of a whole source text.
pub open spec fn lex_model(s: Seq<char>) -> Result<Seq<TokenModel>, Seq<char>> {
    lex_from(s, 0)
}

/// A successful scan yields at least the end marker, the end marker comes
/// last, and it appears exactly once.
pub proof fn lemma_lex_single_eof(s: Seq<char>, pos: int)
    requires
        0 <= pos <= s.len(),
    ensures
        match lex_from(s, pos) {
            Result::Ok(ts) => ts.len() >= 1 && ts[ts.len() - 1] is Eof && (forall|i: int|
                0 <= i < ts.len() - 1 ==> !((#[trigger] ts[i]) is Eof)),
            Result::Err(_) => true,
        },
    decreases s.len() - pos,
{
    lemma_next_token_advances(s, pos);
    let (r, p2) = next_token_model(s, pos);
    match r {
        Result::Ok(t) => {
            if !(t is Eof) {
                lemma_lex_single_eof(s, p2);
            }
        },
        Result::Err(_) => {},
    }
}

pub(crate) fn chars_of(s: &str) -> (v: Vec<char>)
    ensures
        v@ == s@,
{
    let n = s.unicode_len();
    let mut v: Vec<char> = Vec::new();
    let mut i: usize = 0;
    while i < n
        invariant
            n == s@.len(),
            i <= n,
            v@.len() == i,
            forall|j: int| 0 <= j < i ==> v@[j] == s@[j],
        decreases n - i,
    {
        v.push(s.get_char(i));
        i += 1;
    }
    proof {
        assert(v@ =~= s@);
    }
    v
}

fn chars_to_string(v: &Vec<char>, from: usize, to: usize) -> (s: String)
    requires
        from <= to <= v@.len(),
    ensures
        s@ == v@.subrange(from as int, to as int),
{
    let mut s = String::new();
    let mut i: usize = from;
    while i < to
        invariant
            from <= i <= to <= v@.len(),
            s@.len() == i - from,
            forall|j: int| 0 <= j < i - from ==> s@[j] == v@[from + j],
        decreases to - i,
    {
        push_char(&mut s, v[i]);
        i += 1;
    }
    proof {
        assert(s@ =~= v@.subrange(from as int, to as int));
    }
    s
}

fn skip_whitespace(src: &Vec<char>, pos: usize) -> (r: usize)
    requires
        pos <= src@.len(),
    ensures
        r as int == skip_ws(src@, pos as int),
        pos <= r <= src@.len(),
{
    let mut i = pos;
    while i < src.len() && is_whitespace(src[i])
        invariant
            pos <= i <= src@.len(),
            skip_ws(src@, pos as int) == skip_ws(src@, i as int),
        decreases src@.len() - i,
    {
        i += 1;
    }
    i
}

fn read_identifier(src: &Vec<char>, pos: usize) -> (r: usize)
    requires
        pos <= src@.len(),
    ensures
        r as int == ident_end(src@, pos as int),
        pos <= r <= src@.len(),
{
    let mut i = pos;
    while i < src.len() && (is_letter(src[i]) || is_digit(src[i]))
        invariant
            pos <= i <= src@.len(),
            ident_end(src@, pos as int) == ident_end(src@, i as int),
        decreases src@.len() - i,
    {
        i += 1;
    }
    i
}

fn read_number(src: &Vec<char>, pos: usize) -> (r: usize)
    requires
        pos <= src@.len(),
    ensures
        r as int == digits_end(src@, pos as int),
        pos <= r <= src@.len(),
{
    let mut i = pos;
    while i < src.len() && is_digit(src[i])
        invariant
            pos <= i <= src@.len(),
            digits_end(src@, pos as int) == digits_end(src@, i as int),
        decreases src@.len() - i,
    {
        i += 1;
    }
    i
}

fn read_string(src: &Vec<char>, pos: usize) -> (r: usize)
    requires
        pos <= src@.len(),
    ensures
        r as int == string_end(src@, pos as int),
        pos <= r <= src@.len(),
{
    let mut i = pos;
    while i < src.len() && src[i] != '"'
        invariant
            pos <= i <= src@.len(),
            string_end(src@, pos as int) == string_end(src@, i as int),
        decreases src@.len() - i,
    {
        i += 1;
    }
    i
}

/// One token of `src` starting at `pos`, and the position just after it;
/// the executable twin of `next_token_model`.
fn next_token(src: &Vec<char>, pos: usize) -> (r: (Result<Token, Error>, usize))
    requires
        pos <= src@.len(),
    ensures
        ({
            let (rs, p2) = next_token_model(src@, pos as int);
            r.1 as int == p2 && (match (r.0, rs) {
                (Result::Ok(t), Result::Ok(tm)) => t@ == tm,
                (Result::Err(Error::Lexer(m)), Result::Err(mm)) => m@ == mm,
                _ => false,
            })
        }),
{
    let i = skip_whitespace(src, pos);
    if i >= src.len() {
        return (Ok(Token::Eof), i);
    }
    let c = src[i];
    if c == '=' {
        if i + 1 < src.len() && src[i + 1] == '=' {
            (Ok(Token::Equal), i + 2)
        } else {
            (Ok(Token::Assign), i + 1)
        }
    } else if c == '.' {
        if i + 1 < src.len() && src[i + 1] == '.' {
            (Ok(Token::Spread), i + 2)
        } else {
            (Ok(Token::Dot), i + 1)
        }
    } else if c == '!' {
        if i + 1 < src.len() && src[i + 1] == '=' {
            (Ok(Token::NotEqual), i + 2)
        } else {
            (Ok(Token::Bang), i + 1)
        }
    } else if c == '<' {
        if i + 1 < src.len() && src[i + 1] == '=' {
            (Ok(Token::LesserOrEqual), i + 2)
        } else {
            (Ok(Token::Lesser), i + 1)
        }
    } else if c == '>' {
        if i + 1 < src.len() && src[i + 1] == '=' {
            (Ok(Token::GreaterOrEqual), i + 2)
        } else {
            (Ok(Token::Greater), i + 1)
        }
    } else if c == '&' {
        if i + 1 < src.len() && src[i + 1] == '&' {
            (Ok(Token::AmpersandAmpersand), i + 2)
        } else {
            (Ok(Token::Ampersand), i + 1)
        }
    } else if c == '|' {
        if i + 1 < src.len() && src[i + 1] == '|' {
            (Ok(Token::PipePipe), i + 2)
        } else {
            (Ok(Token::Pipe), i + 1)
        }
    } else if c == '+' {
        (Ok(Token::Plus), i + 1)
    } else if c == '-' {
        (Ok(Token::Minus), i + 1)
    } else if c == '*' {
        (Ok(Token::Asterisk), i + 1)
    } else if c == '/' {
        (Ok(Token::Slash), i + 1)
    } else if c == ',' {
        (Ok(Token::Comma), i + 1)
    } else if c == ':' {
        (Ok(Token::Colon), i + 1)
    } else if c == '(' {
        (Ok(Token::LeftParen), i + 1)
    } else if c == ')' {
        (Ok(Token::RightParen), i + 1)
    } else if c == '{' {
        (Ok(Token::LeftBrace), i + 1)
    } else if c == '}' {
        (Ok(Token::RightBrace), i + 1)
    } else if c == '[' {
        (Ok(Token::LeftBracket), i + 1)
    } else if c == ']' {
        (Ok(Token::RightBracket), i + 1)
    } else if c == '"' {
        let e = read_string(src, i + 1);
        if e >= src.len() {
            (Err(Error::Lexer("Unterminated string".to_owned())), e)
        } else {
            let text = chars_to_string(src, i + 1, e);
            (Ok(Token::Str(text)), e + 1)
        }
    } else if is_letter(c) {
        let e = read_identifier(src, i);
        let text = chars_to_string(src, i, e);
        (Ok(lookup_identifier(text.as_str())), e)
    } else if is_digit(c) {
        let e = read_number(src, i);
        if e < src.len() && src[e] == '.' && e + 1 < src.len() && is_digit(src[e + 1]) {
            let e2 = read_number(src, e + 1);
            let text = chars_to_string(src, i, e2);
            (Ok(Token::Float(text)), e2)
        } else {
            let text = chars_to_string(src, i, e);
            (Ok(Token::Integer(text)), e)
        }
    } else {
        let mut m = "Unexpected character '".to_owned();
        push_char(&mut m, c);
        m.append("'");
        proof {
            assert(m@ =~= "Unexpected character '"@ + seq![c] + "'"@);
        }
        (Err(Error::Lexer(m)), i)
    }
}

/// The lexer's cursor over one source text.
#[derive(Debug)]
pub struct Lexer {
    pub source: Vec<char>,
    pub position: usize,
}

impl Lexer {
    /// A fresh scan of the given source, positioned at its start.
    pub fn new(source: String) -> (l: Lexer)
        ensures
            l.source@ == source@,
            l.position == 0,
    {
        Lexer { source: chars_of(source.as_str()), position: 0 }
    }

    /// Scans the whole remaining source to a token sequence ending in the
    /// one end-of-input marker, or stops at the first malformed character.
    pub fn lex(&mut self) -> (r: Result<Vec<Token>, Error>)
        requires
            old(self).position <= old(self).source@.len(),
        ensures
            final(self).source@ == old(self).source@,
            ({
                let spec_r = lex_from(old(self).source@, old(self).position as int);
                match (r, spec_r) {
                    (Result::Ok(ts), Result::Ok(tsm)) => tokens_model(ts@, 0) == tsm,
                    (Result::Err(Error::Lexer(m)), Result::Err(mm)) => m@ == mm,
                    _ => false,
                }
            }),
    {
        let ghost src = self.source@;
        let ghost pos0 = self.position as int;
        let mut tokens: Vec<Token> = Vec::new();
        proof {
            crate::token::lemma_tokens_model(tokens@, 0);
            match lex_from(src, pos0) {
                Result::Ok(rest) => {
                    assert(tokens_model(tokens@, 0) + rest =~= rest);
                },
                Result::Err(_) => {},
            }
        }
        loop
            invariant
                src == old(self).source@,
                pos0 == old(self).position as int,
                self.source@ == src,
                self.position <= src.len(),
                lex_from(src, pos0) == (match lex_from(src, self.position as int) {
                    Result::Ok(rest) => Result::Ok(tokens_model(tokens@, 0) + rest),
                    Result::Err(m) => Result::Err(m),
                }),
            decreases src.len() - self.position,
        {
            proof {
                lemma_next_token_advances(src, self.position as int);
            }
            let ghost before = self.position as int;
            let (r, p2) = next_token(&self.source, self.position);
            self.position = p2;
            match r {
                Err(e) => {
                    proof {
                        assert(self.source@ == src);
                        assert(src == old(self).source@);
                    }
                    return Err(e);
                },
                Ok(t) => {
                    let is_eof = match t {
                        Token::Eof => true,
                        _ => false,
                    };
                    let ghost tm = t@;
                    let ghost oldmodel = tokens_model(tokens@, 0);
                    proof {
                        crate::token::lemma_tokens_model(tokens@, 0);
                        crate::token::lemma_tokens_model(tokens@.push(t), 0);
                        assert(tokens_model(tokens@.push(t), 0) =~= oldmodel + seq![tm]);
                    }
                    tokens.push(t);
                    if is_eof {
                        proof {
                            assert(lex_from(src, before) == Result::<
                                Seq<TokenModel>,
                                Seq<char>,
                            >::Ok(seq![tm]));
                        }
                        return Ok(tokens);
                    }
                    proof {
                        match lex_from(src, self.position as int) {
                            Result::Ok(rest) => {
                                assert(oldmodel + (seq![tm] + rest) =~= (oldmodel + seq![tm])
                                    + rest);
                            },
                            Result::Err(_) => {},
                        }
                    }
                },
            }
        }
    }
}

} // verus!
