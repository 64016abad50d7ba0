//! Conversions between values of the language and Rust values.
use vstd::prelude::*;
use vstd::std_specs::convert::FromSpecImpl;
use crate::types::Token;

verus! {

impl From<i32> for Token {
    fn from(value: i32) -> (r: Token) {
        Token::Int(value)
    }
}

impl FromSpecImpl<i32> for Token {
    open spec fn obeys_from_spec() -> bool {
        true
    }

    open spec fn from_spec(v: i32) -> Token {
        Token::Int(v)
    }
}

impl From<bool> for Token {
    fn from(value: bool) -> (r: Token) {
        Token::Bool(value)
    }
}

impl FromSpecImpl<bool> for Token {
    open spec fn obeys_from_spec() -> bool {
        true
    }

    open spec fn from_spec(v: bool) -> Token {
        Token::Bool(v)
    }
}

impl From<char> for Token {
    fn from(value: char) -> (r: Token) {
        Token::Char(value)
    }
}

impl FromSpecImpl<char> for Token {
    open spec fn obeys_from_spec() -> bool {
        true
    }

    open spec fn from_spec(v: char) -> Token {
        Token::Char(v)
    }
}

impl From<String> for Token {
    fn from(value: String) -> (r: Token) {
        Token::String(value)
    }
}

impl FromSpecImpl<String> for Token {
    open spec fn obeys_from_spec() -> bool {
        true
    }

    open spec fn from_spec(v: String) -> Token {
        Token::String(v)
    }
}

impl From<Vec<Token>> for Token {
    fn from(value: Vec<Token>) -> (r: Token) {
        Token::Collection(value)
    }
}

impl FromSpecImpl<Vec<Token>> for Token {
    open spec fn obeys_from_spec() -> bool {
        true
    }

    open spec fn from_spec(v: Vec<Token>) -> Token {
        Token::Collection(v)
    }
}

impl From<Token> for i32 {
    fn from(value: Token) -> (r: i32) {
        match value {
            Token::Int(i) => i,
            _ => 0,
        }
    }
}

impl FromSpecImpl<Token> for i32 {
    open spec fn obeys_from_spec() -> bool {
        true
    }

    open spec fn from_spec(v: Token) -> i32 {
        match v {
            Token::Int(i) => i,
            _ => 0,
        }
    }
}

impl From<Token> for bool {
    fn from(value: Token) -> (r: bool) {
        match value {
            Token::Bool(b) => b,
            _ => false,
        }
    }
}

impl FromSpecImpl<Token> for bool {
    open spec fn obeys_from_spec() -> bool {
        true
    }

    open spec fn from_spec(v: Token) -> bool {
        match v {
            Token::Bool(b) => b,
            _ => false,
        }
    }
}

impl From<Token> for char {
    fn from(value: Token) -> (r: char) {
        match value {
            Token::Char(c) => c,
            _ => ' ',
        }
    }
}

impl FromSpecImpl<Token> for char {
    open spec fn obeys_from_spec() -> bool {
        true
    }

    open spec fn from_spec(v: Token) -> char {
        match v {
            Token::Char(c) => c,
            _ => ' ',
        }
    }
}

} // verus!
