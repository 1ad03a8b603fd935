use vstd::prelude::*;

use crate::syntax_tree::ValueType;

verus! {

/// One lexical unit with the 1-based line it was found on.
#[derive(Debug, Clone)]
pub struct Token {
    pub token_type: TokenType,
    pub line_number: u32,
}

/// The closed set of token kinds. A decimal literal keeps the digits it was
/// written with.
#[derive(Debug, Clone)]
pub enum TokenType {
    EndOfFile,
    // literals
    Identifier(String),
    Integer(i64),
    Decimal(String),
    StringLiteral(String),
    // keywords
    Output,
    Let,
    Loop,
    Break,
    If,
    Else,
    F32,
    Str,
    Bool,
    True,
    False,
    // operators and punctuation
    LeftParen,
    RightParen,
    LeftBrace,
    RightBrace,
    Colon,
    Plus,
    Minus,
    Star,
    Slash,
    Equals,
    DoubleEquals,
    GreaterThan,
    LessThan,
    GreaterEqualTo,
    LessEqualTo,
    And,
    Or,
}

/// The value type that a type keyword (`f32`, `str`, `bool`) declares.
pub open spec fn declared_type(t: TokenType) -> Option<ValueType> {
    match t {
        TokenType::F32 => Some(ValueType::Float),
        TokenType::Str => Some(ValueType::String),
        TokenType::Bool => Some(ValueType::Boolean),
        _ => None,
    }
}

/// Whether a token kind carries a value that can be spelled out.
pub open spec fn has_value(t: TokenType) -> bool {
    match t {
        TokenType::Identifier(_) | TokenType::Integer(_) | TokenType::Decimal(_)
        | TokenType::StringLiteral(_) | TokenType::True | TokenType::False => true,
        _ => false,
    }
}

/// The source spelling of a valued token; string literals are quoted.
pub open spec fn value_text(t: TokenType) -> Seq<char> {
    match t {
        TokenType::Identifier(id) => id@,
        TokenType::Integer(n) => int_text(n as int),
        TokenType::Decimal(d) => d@,
        TokenType::StringLiteral(s) => seq!['"'] + s@ + seq!['"'],
        TokenType::True => "true"@,
        TokenType::False => "false"@,
        _ => Seq::empty(),
    }
}

/// Decimal digits of a natural number.
pub open spec fn nat_text(n: nat) -> Seq<char>
    decreases n,
{
    if n < 10 {
        seq![digit_char(n)]
    } else {
        nat_text(n / 10) + seq![digit_char(n % 10)]
    }
}

pub open spec fn digit_char(d: nat) -> char {
    (('0' as u8) + (d as u8)) as char
}

/// Decimal spelling of an integer, with a leading minus when negative.
pub open spec fn int_text(n: int) -> Seq<char> {
    if n < 0 {
        seq!['-'] + nat_text((-n) as nat)
    } else {
        nat_text(n as nat)
    }
}

impl Token {
    pub fn new(token_type: TokenType, line_number: u32) -> (r: Token)
        ensures
            r.token_type == token_type,
            r.line_number == line_number,
    {
        Token { token_type, line_number }
    }

    /// A copy of this token, equal to it.
    pub fn duplicate(&self) -> (r: Token)
        ensures
            r == *self,
    {
        let token_type = match &self.token_type {
            TokenType::Identifier(s) => TokenType::Identifier(s.clone()),
            TokenType::Decimal(s) => TokenType::Decimal(s.clone()),
            TokenType::StringLiteral(s) => TokenType::StringLiteral(s.clone()),
            TokenType::Integer(n) => TokenType::Integer(*n),
            TokenType::EndOfFile => TokenType::EndOfFile,
            TokenType::Output => TokenType::Output,
            TokenType::Let => TokenType::Let,
            TokenType::Loop => TokenType::Loop,
            TokenType::Break => TokenType::Break,
            TokenType::If => TokenType::If,
            TokenType::Else => TokenType::Else,
            TokenType::F32 => TokenType::F32,
            TokenType::Str => TokenType::Str,
            TokenType::Bool => TokenType::Bool,
            TokenType::True => TokenType::True,
            TokenType::False => TokenType::False,
            TokenType::LeftParen => TokenType::LeftParen,
            TokenType::RightParen => TokenType::RightParen,
            TokenType::LeftBrace => TokenType::LeftBrace,
            TokenType::RightBrace => TokenType::RightBrace,
            TokenType::Colon => TokenType::Colon,
            TokenType::Plus => TokenType::Plus,
            TokenType::Minus => TokenType::Minus,
            TokenType::Star => TokenType::Star,
            TokenType::Slash => TokenType::Slash,
            TokenType::Equals => TokenType::Equals,
            TokenType::DoubleEquals => TokenType::DoubleEquals,
            TokenType::GreaterThan => TokenType::GreaterThan,
            TokenType::LessThan => TokenType::LessThan,
            TokenType::GreaterEqualTo => TokenType::GreaterEqualTo,
            TokenType::LessEqualTo => TokenType::LessEqualTo,
            TokenType::And => TokenType::And,
            TokenType::Or => TokenType::Or,
        };
        Token { token_type, line_number: self.line_number }
    }

    /// The spelling of a valued token: an identifier's name, a number's
    /// digits, a quoted string, or `true` / `false`.
    pub fn get_value(&self) -> (r: String)
        requires
            has_value(self.token_type),
        ensures
            r@ == value_text(self.token_type),
    {
        match &self.token_type {
            TokenType::Identifier(id) => id.clone(),
            TokenType::Integer(n) => crate::generator::integer_text(*n),
            TokenType::Decimal(d) => d.clone(),
            TokenType::StringLiteral(lit) => {
                let mut out = String::from_str("\"");
                proof {
                    reveal_strlit("\"");
                }
                out.append(lit.as_str());
                out.append("\"");
                out
            },
            TokenType::True => {
                proof {
                    reveal_strlit("true");
                }
                String::from_str("true")
            },
            _ => {
                proof {
                    reveal_strlit("false");
                }
                String::from_str("false")
            },
        }
    }

    /// The value type declared by a type keyword token.
    pub fn get_value_type_declaration(&self) -> (r: ValueType)
        requires
            declared_type(self.token_type) is Some,
        ensures
            declared_type(self.token_type) == Some(r),
    {
        match &self.token_type {
            TokenType::F32 => ValueType::Float,
            TokenType::Str => ValueType::String,
            _ => ValueType::Boolean,
        }
    }
}

} // verus!
