use vstd::prelude::*;
use vstd::string::StringExecFns;

verus! {

/// The smallest lexical unit of a source text. The lexer produces these;
/// the parser consumes them. `Eof` is emitted exactly once, at the end.
#[derive(Debug)]
pub enum Token {
    Eof,

    Identifier(String),
    Integer(String),
    Float(String),
    Str(String),

    Assign,

    Spread,
    Dot,

    Plus,
    Minus,
    Bang,
    Asterisk,
    Slash,

    Lesser,
    LesserOrEqual,
    Greater,
    GreaterOrEqual,

    Equal,
    NotEqual,

    Ampersand,
    AmpersandAmpersand,
    Pipe,
    PipePipe,

    Comma,
    Colon,

    LeftParen,
    RightParen,
    LeftBrace,
    RightBrace,
    LeftBracket,
    RightBracket,

    Let,
    Mut,
    Function,
    If,
    Else,
    Return,
    True,
    False,
}

/// Mathematical model of a token: the same tags, with character sequences
/// in place of owned strings.
pub enum TokenModel {
    Eof,
    Identifier(Seq<char>),
    Integer(Seq<char>),
    Float(Seq<char>),
    Str(Seq<char>),
    Assign,
    Spread,
    Dot,
    Plus,
    Minus,
    Bang,
    Asterisk,
    Slash,
    Lesser,
    LesserOrEqual,
    Greater,
    GreaterOrEqual,
    Equal,
    NotEqual,
    Ampersand,
    AmpersandAmpersand,
    Pipe,
    PipePipe,
    Comma,
    Colon,
    LeftParen,
    RightParen,
    LeftBrace,
    RightBrace,
    LeftBracket,
    RightBracket,
    Let,
    Mut,
    Function,
    If,
    Else,
    Return,
    True,
    False,
}

impl View for Token {
    type V = TokenModel;

    open spec fn view(&self) -> TokenModel {
        match self {
            Token::Eof => TokenModel::Eof,
            Token::Identifier(s) => TokenModel::Identifier(s@),
            Token::Integer(s) => TokenModel::Integer(s@),
            Token::Float(s) => TokenModel::Float(s@),
            Token::Str(s) => TokenModel::Str(s@),
            Token::Assign => TokenModel::Assign,
            Token::Spread => TokenModel::Spread,
            Token::Dot => TokenModel::Dot,
            Token::Plus => TokenModel::Plus,
            Token::Minus => TokenModel::Minus,
            Token::Bang => TokenModel::Bang,
            Token::Asterisk => TokenModel::Asterisk,
            Token::Slash => TokenModel::Slash,
            Token::Lesser => TokenModel::Lesser,
            Token::LesserOrEqual => TokenModel::LesserOrEqual,
            Token::Greater => TokenModel::Greater,
            Token::GreaterOrEqual => TokenModel::GreaterOrEqual,
            Token::Equal => TokenModel::Equal,
            Token::NotEqual => TokenModel::NotEqual,
            Token::Ampersand => TokenModel::Ampersand,
            Token::AmpersandAmpersand => TokenModel::AmpersandAmpersand,
            Token::Pipe => TokenModel::Pipe,
            Token::PipePipe => TokenModel::PipePipe,
            Token::Comma => TokenModel::Comma,
            Token::Colon => TokenModel::Colon,
            Token::LeftParen => TokenModel::LeftParen,
            Token::RightParen => TokenModel::RightParen,
            Token::LeftBrace => TokenModel::LeftBrace,
            Token::RightBrace => TokenModel::RightBrace,
            Token::LeftBracket => TokenModel::LeftBracket,
            Token::RightBracket => TokenModel::RightBracket,
            Token::Let => TokenModel::Let,
            Token::Mut => TokenModel::Mut,
            Token::Function => TokenModel::Function,
            Token::If => TokenModel::If,
            Token::Else => TokenModel::Else,
            Token::Return => TokenModel::Return,
            Token::True => TokenModel::True,
            Token::False => TokenModel::False,
        }
    }
}

impl Clone for Token {
    fn clone(&self) -> (r: Token)
        ensures
            r@ == self@,
    {
        match self {
            Token::Eof => Token::Eof,
            Token::Identifier(s) => Token::Identifier(s.clone()),
            Token::Integer(s) => Token::Integer(s.clone()),
            Token::Float(s) => Token::Float(s.clone()),
            Token::Str(s) => Token::Str(s.clone()),
            Token::Assign => Token::Assign,
            Token::Spread => Token::Spread,
            Token::Dot => Token::Dot,
            Token::Plus => Token::Plus,
            Token::Minus => Token::Minus,
            Token::Bang => Token::Bang,
            Token::Asterisk => Token::Asterisk,
            Token::Slash => Token::Slash,
            Token::Lesser => Token::Lesser,
            Token::LesserOrEqual => Token::LesserOrEqual,
            Token::Greater => Token::Greater,
            Token::GreaterOrEqual => Token::GreaterOrEqual,
            Token::Equal => Token::Equal,
            Token::NotEqual => Token::NotEqual,
            Token::Ampersand => Token::Ampersand,
            Token::AmpersandAmpersand => Token::AmpersandAmpersand,
            Token::Pipe => Token::Pipe,
            Token::PipePipe => Token::PipePipe,
            Token::Comma => Token::Comma,
            Token::Colon => Token::Colon,
            Token::LeftParen => Token::LeftParen,
            Token::RightParen => Token::RightParen,
            Token::LeftBrace => Token::LeftBrace,
            Token::RightBrace => Token::RightBrace,
            Token::LeftBracket => Token::LeftBracket,
            Token::RightBracket => Token::RightBracket,
            Token::Let => Token::Let,
            Token::Mut => Token::Mut,
            Token::Function => Token::Function,
            Token::If => Token::If,
            Token::Else => Token::Else,
            Token::Return => Token::Return,
            Token::True => Token::True,
            Token::False => Token::False,
        }
    }
}

/// The spelling a token is reported with in a parser error message.
pub open spec fn token_text(t: TokenModel) -> Seq<char> {
    match t {
        TokenModel::Eof => "EndOfFile"@,
        TokenModel::Identifier(s) => s,
        TokenModel::Integer(s) => s,
        TokenModel::Float(s) => s,
        TokenModel::Str(s) => "\""@ + s + "\""@,
        TokenModel::Assign => "="@,
        TokenModel::Spread => ".."@,
        TokenModel::Dot => "."@,
        TokenModel::Plus => "+"@,
        TokenModel::Minus => "-"@,
        TokenModel::Bang => "!"@,
        TokenModel::Asterisk => "*"@,
        TokenModel::Slash => "/"@,
        TokenModel::Lesser => "<"@,
        TokenModel::LesserOrEqual => "<="@,
        TokenModel::Greater => ">"@,
        TokenModel::GreaterOrEqual => ">="@,
        TokenModel::Equal => "=="@,
        TokenModel::NotEqual => "!="@,
        TokenModel::Ampersand => "&"@,
        TokenModel::AmpersandAmpersand => "&&"@,
        TokenModel::Pipe => "|"@,
        TokenModel::PipePipe => "||"@,
        TokenModel::Comma => ","@,
        TokenModel::Colon => ":"@,
        TokenModel::LeftParen => "("@,
        TokenModel::RightParen => ")"@,
        TokenModel::LeftBrace => "{"@,
        TokenModel::RightBrace => "}"@,
        TokenModel::LeftBracket => "["@,
        TokenModel::RightBracket => "]"@,
        TokenModel::Let => "let"@,
        TokenModel::Mut => "mut"@,
        TokenModel::Function => "fun"@,
        TokenModel::If => "if"@,
        TokenModel::Else => "else"@,
        TokenModel::Return => "return"@,
        TokenModel::True => "true"@,
        TokenModel::False => "false"@,
    }
}

/// Executable companion of `token_text`.
pub fn render_token(t: &Token) -> (r: String)
    ensures
        r@ == token_text(t@),
{
    match t {
        Token::Eof => "EndOfFile".to_owned(),
        Token::Identifier(s) => s.clone(),
        Token::Integer(s) => s.clone(),
        Token::Float(s) => s.clone(),
        Token::Str(s) => {
            let mut r = "\"".to_owned();
            r.append(s.as_str());
            r.append("\"");
            r
        },
        Token::Assign => "=".to_owned(),
        Token::Spread => "..".to_owned(),
        Token::Dot => ".".to_owned(),
        Token::Plus => "+".to_owned(),
        Token::Minus => "-".to_owned(),
        Token::Bang => "!".to_owned(),
        Token::Asterisk => "*".to_owned(),
        Token::Slash => "/".to_owned(),
        Token::Lesser => "<".to_owned(),
        Token::LesserOrEqual => "<=".to_owned(),
        Token::Greater => ">".to_owned(),
        Token::GreaterOrEqual => ">=".to_owned(),
        Token::Equal => "==".to_owned(),
        Token::NotEqual => "!=".to_owned(),
        Token::Ampersand => "&".to_owned(),
        Token::AmpersandAmpersand => "&&".to_owned(),
        Token::Pipe => "|".to_owned(),
        Token::PipePipe => "||".to_owned(),
        Token::Comma => ",".to_owned(),
        Token::Colon => ":".to_owned(),
        Token::LeftParen => "(".to_owned(),
        Token::RightParen => ")".to_owned(),
        Token::LeftBrace => "{".to_owned(),
        Token::RightBrace => "}".to_owned(),
        Token::LeftBracket => "[".to_owned(),
        Token::RightBracket => "]".to_owned(),
        Token::Let => "let".to_owned(),
        Token::Mut => "mut".to_owned(),
        Token::Function => "fun".to_owned(),
        Token::If => "if".to_owned(),
        Token::Else => "else".to_owned(),
        Token::Return => "return".to_owned(),
        Token::True => "true".to_owned(),
        Token::False => "false".to_owned(),
    }
}

/// The keyword table: which identifier spellings are keywords, and the
/// token each one stands for.
pub open spec fn lookup_identifier_model(s: Seq<char>) -> TokenModel {
    if s == "let"@ {
        TokenModel::Let
    } else if s == "mut"@ {
        TokenModel::Mut
    } else if s == "fun"@ {
        TokenModel::Function
    } else if s == "if"@ {
        TokenModel::If
    } else if s == "else"@ {
        TokenModel::Else
    } else if s == "return"@ {
        TokenModel::Return
    } else if s == "true"@ {
        TokenModel::True
    } else if s == "false"@ {
        TokenModel::False
    } else {
        TokenModel::Identifier(s)
    }
}

pub open spec fn tokens_model(ts: Seq<Token>, i: int) -> Seq<TokenModel>
    decreases ts.len() - i,
{
    if i < 0 || i >= ts.len() {
        Seq::empty()
    } else {
        seq![ts[i]@] + tokens_model(ts, i + 1)
    }
}

/// The model of a suffix of a token list is the list of the tokens'
/// models.
pub proof fn lemma_tokens_model(ts: Seq<Token>, i: int)
    requires
        0 <= i <= ts.len(),
    ensures
        tokens_model(ts, i).len() == ts.len() - i,
        forall|k: int| 0 <= k < ts.len() - i ==> tokens_model(ts, i)[k] == ts[i + k]@,
    decreases ts.len() - i,
{
    if i < ts.len() {
        lemma_tokens_model(ts, i + 1);
    }
}

/// Compares two string slices by their character sequences.
pub fn str_eq(a: &str, b: &str) -> (r: bool)
    ensures
        r == (a@ == b@),
{
    let x = a.to_owned();
    let y = b.to_owned();
    x == y
}

/// Turns an identifier's spelling into the keyword token it names, or
/// into an `Identifier` token if it names none.
pub fn lookup_identifier(identifier: &str) -> (r: Token)
    ensures
        r@ == lookup_identifier_model(identifier@),
{
    if str_eq(identifier, "let") {
        Token::Let
    } else if str_eq(identifier, "mut") {
        Token::Mut
    } else if str_eq(identifier, "fun") {
        Token::Function
    } else if str_eq(identifier, "if") {
        Token::If
    } else if str_eq(identifier, "else") {
        Token::Else
    } else if str_eq(identifier, "return") {
        Token::Return
    } else if str_eq(identifier, "true") {
        Token::True
    } else if str_eq(identifier, "false") {
        Token::False
    } else {
        Token::Identifier(identifier.to_owned())
    }
}

} // verus!
