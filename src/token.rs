//! The tokens that a literal's input is made of.

use vstd::prelude::*;
use crate::error::{fails_with, ErrorKind, Expected, LitError};

verus! {

/// One input token. Number literals carry their base-10 digits, without
/// separators or type suffix (`1_000u32` is `Int("1000")`).
#[derive(Debug)]
pub enum Token {
    /// A string literal, by its value.
    Str(String),
    /// A punctuation character.
    Punct(char),
    /// An integer literal.
    Int(String),
    /// A floating-point literal.
    Float(String),
    /// Any other token.
    Other,
}

pub open spec fn is_operator(t: Token) -> bool {
    t == Token::Punct('*') || t == Token::Punct('/')
}

pub open spec fn is_number(t: Token) -> bool {
    t is Int || t is Float
}

/// The text that a string or number literal carries.
pub open spec fn token_text(t: Token) -> Seq<char> {
    match t {
        Token::Str(s) => s@,
        Token::Int(s) => s@,
        Token::Float(s) => s@,
        _ => Seq::empty(),
    }
}

/// An input made of one string literal alone: its text, or the kind and
/// position of the error.
pub open spec fn single_string(tokens: Seq<Token>) -> Result<Seq<char>, (ErrorKind, nat)> {
    if tokens.len() == 0 || !(tokens[0] is Str) {
        Err((ErrorKind::Syntax(Expected::StringLiteral), 0))
    } else if tokens.len() > 1 {
        Err((ErrorKind::Syntax(Expected::End), 1))
    } else {
        Ok(token_text(tokens[0]))
    }
}

/// Reads an input made of one string literal alone.
pub fn read_single_string(tokens: &Vec<Token>) -> (r: Result<&String, LitError>)
    ensures
        match single_string(tokens@) {
            Ok(s) => r matches Ok(v) && v@ == s,
            Err((k, p)) => fails_with(r, k, p, Seq::empty(), Seq::empty()),
        },
{
    if tokens.len() == 0 {
        return Err(LitError::syntax(Expected::StringLiteral, 0));
    }
    match &tokens[0] {
        Token::Str(s) => {
            if tokens.len() > 1 {
                Err(LitError::syntax(Expected::End, 1))
            } else {
                Ok(s)
            }
        },
        _ => Err(LitError::syntax(Expected::StringLiteral, 0)),
    }
}

} // verus!
