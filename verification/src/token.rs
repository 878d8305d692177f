use vstd::prelude::*;

use crate::chars::string_from_chars;
use crate::decimal::{int_text, push_int_text};

verus! {

/// The lexical units the tokenizer can produce.
///
/// Numbers carry a 64-bit signed integer: this interpreter uses integer
/// arithmetic with truncating division throughout.
#[derive(Debug, PartialEq)]
pub enum Token {
    Plus,
    Minus,
    Asterfisk,
    Slash,
    Lparen,
    Rparen,
    Eof,
    True,
    Nil,
    Illegal(String),
    Number(i64),
    String(String),
    Literal(String),
}

/// The mathematical shape of a token: text as character sequences, the
/// numeric payload as an unbounded integer.
pub enum TokenModel {
    Plus,
    Minus,
    Asterfisk,
    Slash,
    Lparen,
    Rparen,
    Eof,
    True,
    Nil,
    Illegal(Seq<char>),
    Number(int),
    String(Seq<char>),
    Literal(Seq<char>),
}

impl View for Token {
    type V = TokenModel;

    open spec fn view(&self) -> TokenModel {
        match self {
            Token::Plus => TokenModel::Plus,
            Token::Minus => TokenModel::Minus,
            Token::Asterfisk => TokenModel::Asterfisk,
            Token::Slash => TokenModel::Slash,
            Token::Lparen => TokenModel::Lparen,
            Token::Rparen => TokenModel::Rparen,
            Token::Eof => TokenModel::Eof,
            Token::True => TokenModel::True,
            Token::Nil => TokenModel::Nil,
            Token::Illegal(s) => TokenModel::Illegal(s@),
            Token::Number(n) => TokenModel::Number(*n as int),
            Token::String(s) => TokenModel::String(s@),
            Token::Literal(s) => TokenModel::Literal(s@),
        }
    }
}

/// The display text of a token.
pub open spec fn token_text(t: TokenModel) -> Seq<char> {
    match t {
        TokenModel::Plus => "+"@,
        TokenModel::Minus => "-"@,
        TokenModel::Asterfisk => "*"@,
        TokenModel::Slash => "/"@,
        TokenModel::Lparen => "("@,
        TokenModel::Rparen => ")"@,
        TokenModel::Eof => "EOF"@,
        TokenModel::True => "T"@,
        TokenModel::Nil => "NIL"@,
        TokenModel::Illegal(s) => "ILLEGAL("@ + s + ")"@,
        TokenModel::Number(n) => int_text(n),
        TokenModel::String(s) => s,
        TokenModel::Literal(s) => s,
    }
}

impl Token {
    /// Renders the token as its display text.
    pub fn render(&self) -> (r: String)
        ensures
            r@ == token_text(self@),
    {
        match self {
            Token::Plus => String::from_str("+"),
            Token::Minus => String::from_str("-"),
            Token::Asterfisk => String::from_str("*"),
            Token::Slash => String::from_str("/"),
            Token::Lparen => String::from_str("("),
            Token::Rparen => String::from_str(")"),
            Token::Eof => String::from_str("EOF"),
            Token::True => String::from_str("T"),
            Token::Nil => String::from_str("NIL"),
            Token::Illegal(s) => {
                let mut r = String::from_str("ILLEGAL(");
                r.append(s.as_str());
                r.append(")");
                r
            },
            Token::Number(n) => {
                let mut v: Vec<char> = Vec::new();
                push_int_text(&mut v, *n);
                string_from_chars(v.as_slice())
            },
            Token::String(s) => s.clone(),
            Token::Literal(s) => s.clone(),
        }
    }
}

} // verus!
