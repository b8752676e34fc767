use vstd::prelude::*;
use vstd::string::StringExecFns;

use crate::text::{debug_str, int_decimal, int_to_string, str_debug};

verus! {

/// A token of the language, as the lexer hands it to the parser.
#[derive(Debug)]
pub enum Token {
    // Keywords
    Let,
    Print,
    Fn,
    For,
    In,
    Return,
    Mut,
    If,
    Else,
    True,
    False,
    // Identifier and literals
    Ident(String),
    Int(i64),
    Str(String),
    // Operators and punctuation
    Amp,
    Plus,
    Minus,
    Star,
    Slash,
    Percent,
    Eq,
    EqEq,
    NotEq,
    Lt,
    Le,
    Gt,
    Ge,
    LParen,
    RParen,
    LBracket,
    RBracket,
    LBrace,
    RBrace,
    Comma,
    Semi,
    Eof,
}

/// The mathematical model of a [`Token`]: the same variants, with the text of an
/// identifier or a string literal as a sequence of characters.
pub enum SpecToken {
    Let,
    Print,
    Fn,
    For,
    In,
    Return,
    Mut,
    If,
    Else,
    True,
    False,
    Ident(Seq<char>),
    Int(i64),
    Str(Seq<char>),
    Amp,
    Plus,
    Minus,
    Star,
    Slash,
    Percent,
    Eq,
    EqEq,
    NotEq,
    Lt,
    Le,
    Gt,
    Ge,
    LParen,
    RParen,
    LBracket,
    RBracket,
    LBrace,
    RBrace,
    Comma,
    Semi,
    Eof,
}

impl View for Token {
    type V = SpecToken;

    open spec fn view(&self) -> SpecToken {
        match self {
            Token::Let => SpecToken::Let,
            Token::Print => SpecToken::Print,
            Token::Fn => SpecToken::Fn,
            Token::For => SpecToken::For,
            Token::In => SpecToken::In,
            Token::Return => SpecToken::Return,
            Token::Mut => SpecToken::Mut,
            Token::If => SpecToken::If,
            Token::Else => SpecToken::Else,
            Token::True => SpecToken::True,
            Token::False => SpecToken::False,
            Token::Ident(s) => SpecToken::Ident(s@),
            Token::Int(n) => SpecToken::Int(*n),
            Token::Str(s) => SpecToken::Str(s@),
            Token::Amp => SpecToken::Amp,
            Token::Plus => SpecToken::Plus,
            Token::Minus => SpecToken::Minus,
            Token::Star => SpecToken::Star,
            Token::Slash => SpecToken::Slash,
            Token::Percent => SpecToken::Percent,
            Token::Eq => SpecToken::Eq,
            Token::EqEq => SpecToken::EqEq,
            Token::NotEq => SpecToken::NotEq,
            Token::Lt => SpecToken::Lt,
            Token::Le => SpecToken::Le,
            Token::Gt => SpecToken::Gt,
            Token::Ge => SpecToken::Ge,
            Token::LParen => SpecToken::LParen,
            Token::RParen => SpecToken::RParen,
            Token::LBracket => SpecToken::LBracket,
            Token::RBracket => SpecToken::RBracket,
            Token::LBrace => SpecToken::LBrace,
            Token::RBrace => SpecToken::RBrace,
            Token::Comma => SpecToken::Comma,
            Token::Semi => SpecToken::Semi,
            Token::Eof => SpecToken::Eof,
        }
    }
}

/// The variant of a token, as a number (its position in the declaration).
pub open spec fn spec_token_kind(t: SpecToken) -> u8 {
    match t {
        SpecToken::Let => 0,
        SpecToken::Print => 1,
        SpecToken::Fn => 2,
        SpecToken::For => 3,
        SpecToken::In => 4,
        SpecToken::Return => 5,
        SpecToken::Mut => 6,
        SpecToken::If => 7,
        SpecToken::Else => 8,
        SpecToken::True => 9,
        SpecToken::False => 10,
        SpecToken::Ident(_) => 11,
        SpecToken::Int(_) => 12,
        SpecToken::Str(_) => 13,
        SpecToken::Amp => 14,
        SpecToken::Plus => 15,
        SpecToken::Minus => 16,
        SpecToken::Star => 17,
        SpecToken::Slash => 18,
        SpecToken::Percent => 19,
        SpecToken::Eq => 20,
        SpecToken::EqEq => 21,
        SpecToken::NotEq => 22,
        SpecToken::Lt => 23,
        SpecToken::Le => 24,
        SpecToken::Gt => 25,
        SpecToken::Ge => 26,
        SpecToken::LParen => 27,
        SpecToken::RParen => 28,
        SpecToken::LBracket => 29,
        SpecToken::RBracket => 30,
        SpecToken::LBrace => 31,
        SpecToken::RBrace => 32,
        SpecToken::Comma => 33,
        SpecToken::Semi => 34,
        SpecToken::Eof => 35,
    }
}

/// What `{:?}` makes of a token: the name of its variant, with its payload in brackets.
pub open spec fn token_debug(t: SpecToken) -> Seq<char> {
    match t {
        SpecToken::Ident(s) => "Ident("@ + debug_str(s) + ")"@,
        SpecToken::Int(n) => "Int("@ + int_decimal(n as int) + ")"@,
        SpecToken::Str(s) => "Str("@ + debug_str(s) + ")"@,
        SpecToken::Let => "Let"@,
        SpecToken::Print => "Print"@,
        SpecToken::Fn => "Fn"@,
        SpecToken::For => "For"@,
        SpecToken::In => "In"@,
        SpecToken::Return => "Return"@,
        SpecToken::Mut => "Mut"@,
        SpecToken::If => "If"@,
        SpecToken::Else => "Else"@,
        SpecToken::True => "True"@,
        SpecToken::False => "False"@,
        SpecToken::Amp => "Amp"@,
        SpecToken::Plus => "Plus"@,
        SpecToken::Minus => "Minus"@,
        SpecToken::Star => "Star"@,
        SpecToken::Slash => "Slash"@,
        SpecToken::Percent => "Percent"@,
        SpecToken::Eq => "Eq"@,
        SpecToken::EqEq => "EqEq"@,
        SpecToken::NotEq => "NotEq"@,
        SpecToken::Lt => "Lt"@,
        SpecToken::Le => "Le"@,
        SpecToken::Gt => "Gt"@,
        SpecToken::Ge => "Ge"@,
        SpecToken::LParen => "LParen"@,
        SpecToken::RParen => "RParen"@,
        SpecToken::LBracket => "LBracket"@,
        SpecToken::RBracket => "RBracket"@,
        SpecToken::LBrace => "LBrace"@,
        SpecToken::RBrace => "RBrace"@,
        SpecToken::Comma => "Comma"@,
        SpecToken::Semi => "Semi"@,
        SpecToken::Eof => "Eof"@,
    }
}

impl Clone for Token {
    fn clone(&self) -> (r: Self)
        ensures
            r@ == self@,
    {
        match self {
            Token::Ident(s) => Token::Ident(s.clone()),
            Token::Str(s) => Token::Str(s.clone()),
            Token::Int(n) => Token::Int(*n),
            Token::Let => Token::Let,
            Token::Print => Token::Print,
            Token::Fn => Token::Fn,
            Token::For => Token::For,
            Token::In => Token::In,
            Token::Return => Token::Return,
            Token::Mut => Token::Mut,
            Token::If => Token::If,
            Token::Else => Token::Else,
            Token::True => Token::True,
            Token::False => Token::False,
            Token::Amp => Token::Amp,
            Token::Plus => Token::Plus,
            Token::Minus => Token::Minus,
            Token::Star => Token::Star,
            Token::Slash => Token::Slash,
            Token::Percent => Token::Percent,
            Token::Eq => Token::Eq,
            Token::EqEq => Token::EqEq,
            Token::NotEq => Token::NotEq,
            Token::Lt => Token::Lt,
            Token::Le => Token::Le,
            Token::Gt => Token::Gt,
            Token::Ge => Token::Ge,
            Token::LParen => Token::LParen,
            Token::RParen => Token::RParen,
            Token::LBracket => Token::LBracket,
            Token::RBracket => Token::RBracket,
            Token::LBrace => Token::LBrace,
            Token::RBrace => Token::RBrace,
            Token::Comma => Token::Comma,
            Token::Semi => Token::Semi,
            Token::Eof => Token::Eof,
        }
    }
}

impl Token {
    /// The `{:?}` form of the token.
    pub fn debug_string(&self) -> (r: String)
        ensures
            r@ == token_debug(self@),
    {
        match self {
            Token::Ident(s) => String::from_str("Ident(").concat(str_debug(s.as_str()).as_str()).concat(")"),
            Token::Int(n) => String::from_str("Int(").concat(int_to_string(*n).as_str()).concat(")"),
            Token::Str(s) => String::from_str("Str(").concat(str_debug(s.as_str()).as_str()).concat(")"),
            Token::Let => String::from_str("Let"),
            Token::Print => String::from_str("Print"),
            Token::Fn => String::from_str("Fn"),
            Token::For => String::from_str("For"),
            Token::In => String::from_str("In"),
            Token::Return => String::from_str("Return"),
            Token::Mut => String::from_str("Mut"),
            Token::If => String::from_str("If"),
            Token::Else => String::from_str("Else"),
            Token::True => String::from_str("True"),
            Token::False => String::from_str("False"),
            Token::Amp => String::from_str("Amp"),
            Token::Plus => String::from_str("Plus"),
            Token::Minus => String::from_str("Minus"),
            Token::Star => String::from_str("Star"),
            Token::Slash => String::from_str("Slash"),
            Token::Percent => String::from_str("Percent"),
            Token::Eq => String::from_str("Eq"),
            Token::EqEq => String::from_str("EqEq"),
            Token::NotEq => String::from_str("NotEq"),
            Token::Lt => String::from_str("Lt"),
            Token::Le => String::from_str("Le"),
            Token::Gt => String::from_str("Gt"),
            Token::Ge => String::from_str("Ge"),
            Token::LParen => String::from_str("LParen"),
            Token::RParen => String::from_str("RParen"),
            Token::LBracket => String::from_str("LBracket"),
            Token::RBracket => String::from_str("RBracket"),
            Token::LBrace => String::from_str("LBrace"),
            Token::RBrace => String::from_str("RBrace"),
            Token::Comma => String::from_str("Comma"),
            Token::Semi => String::from_str("Semi"),
            Token::Eof => String::from_str("Eof"),
        }
    }

    /// The variant of the token, as a number.
    pub fn kind(&self) -> (k: u8)
        ensures
            k == spec_token_kind(self@),
    {
        match self {
            Token::Let => 0,
            Token::Print => 1,
            Token::Fn => 2,
            Token::For => 3,
            Token::In => 4,
            Token::Return => 5,
            Token::Mut => 6,
            Token::If => 7,
            Token::Else => 8,
            Token::True => 9,
            Token::False => 10,
            Token::Ident(_) => 11,
            Token::Int(_) => 12,
            Token::Str(_) => 13,
            Token::Amp => 14,
            Token::Plus => 15,
            Token::Minus => 16,
            Token::Star => 17,
            Token::Slash => 18,
            Token::Percent => 19,
            Token::Eq => 20,
            Token::EqEq => 21,
            Token::NotEq => 22,
            Token::Lt => 23,
            Token::Le => 24,
            Token::Gt => 25,
            Token::Ge => 26,
            Token::LParen => 27,
            Token::RParen => 28,
            Token::LBracket => 29,
            Token::RBracket => 30,
            Token::LBrace => 31,
            Token::RBrace => 32,
            Token::Comma => 33,
            Token::Semi => 34,
            Token::Eof => 35,
        }
    }

    /// Token equality, as the parser compares the current token with an expected one.
    pub fn same(&self, other: &Token) -> (r: bool)
        ensures
            r == (self@ == other@),
    {
        match self {
            Token::Ident(a) => match other {
                Token::Ident(b) => a.eq(b),
                _ => false,
            },
            Token::Str(a) => match other {
                Token::Str(b) => a.eq(b),
                _ => false,
            },
            Token::Int(a) => match other {
                Token::Int(b) => *a == *b,
                _ => false,
            },
            _ => self.kind() == other.kind(),
        }
    }
}

} // verus!
