//! Tokens: what the lexer hands to the parser.
use vstd::prelude::*;
use crate::error::CalcError;
use crate::expr::TrigKind;

verus! {

#[derive(Clone, Debug, PartialEq)]
pub enum Token {
    Identifier(String),
    /// A numeric constant, as the bits of a double.
    Const(u64),
    /// One of `+ - * / ^ ( ) , =`.
    Operator(char),
    /// The keyword `log`.
    Log,
    /// The name of a trigonometric function.
    Trig(TrigKind),
}

/// The model of a `Token`.
pub enum Lexeme {
    Ident(Seq<char>),
    Num(u64),
    Op(char),
    Log,
    Trig(TrigKind),
}

impl View for Token {
    type V = Lexeme;

    open spec fn view(&self) -> Lexeme {
        match self {
            Token::Identifier(s) => Lexeme::Ident(s@),
            Token::Const(c) => Lexeme::Num(*c),
            Token::Operator(c) => Lexeme::Op(*c),
            Token::Log => Lexeme::Log,
            Token::Trig(k) => Lexeme::Trig(*k),
        }
    }
}

impl Token {
    /// The name that an identifier token holds.
    pub fn as_identifier(&self) -> (r: Result<String, CalcError>)
        ensures
            match self@ {
                Lexeme::Ident(s) => r is Ok && r->Ok_0@ == s,
                _ => r == Err::<String, CalcError>(CalcError::UnexpectedToken),
            },
    {
        match self {
            Token::Identifier(s) => Ok(s.clone()),
            _ => Err(CalcError::UnexpectedToken),
        }
    }

    /// The constant that a constant token holds.
    pub fn as_const(&self) -> (r: Result<u64, CalcError>)
        ensures
            match self@ {
                Lexeme::Num(c) => r == Ok::<u64, CalcError>(c),
                _ => r == Err::<u64, CalcError>(CalcError::UnexpectedToken),
            },
    {
        match self {
            Token::Const(c) => Ok(*c),
            _ => Err(CalcError::UnexpectedToken),
        }
    }

    /// The character of an operator token.
    pub fn as_operator(&self) -> (r: Result<char, CalcError>)
        ensures
            match self@ {
                Lexeme::Op(c) => r == Ok::<char, CalcError>(c),
                _ => r == Err::<char, CalcError>(CalcError::UnexpectedToken),
            },
    {
        match self {
            Token::Operator(c) => Ok(*c),
            _ => Err(CalcError::UnexpectedToken),
        }
    }

    /// The name of the token's kind; a trigonometric token has none.
    pub fn get_type(&self) -> (r: Result<String, CalcError>)
        ensures
            match self@ {
                Lexeme::Ident(_) => r is Ok && r->Ok_0@ == "identifier"@,
                Lexeme::Num(_) => r is Ok && r->Ok_0@ == "const"@,
                Lexeme::Op(_) => r is Ok && r->Ok_0@ == "operator"@,
                Lexeme::Log => r is Ok && r->Ok_0@ == "log"@,
                Lexeme::Trig(_) => r == Err::<String, CalcError>(CalcError::UnexpectedToken),
            },
    {
        match self {
            Token::Identifier(_) => Ok(String::from_str("identifier")),
            Token::Const(_) => Ok(String::from_str("const")),
            Token::Operator(_) => Ok(String::from_str("operator")),
            Token::Log => Ok(String::from_str("log")),
            Token::Trig(_) => Err(CalcError::UnexpectedToken),
        }
    }

    /// Whether this is the operator `c`.
    pub fn is_op(&self, c: char) -> (r: bool)
        ensures
            r == (self@ == Lexeme::Op(c)),
    {
        match self {
            Token::Operator(d) => *d == c,
            _ => false,
        }
    }
}

} // verus!
