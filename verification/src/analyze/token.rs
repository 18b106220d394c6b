//! The token set of the surface language.

use vstd::prelude::*;

verus! {

#[derive(Debug, Clone)]
pub enum Token {
    Keyword(Keyword),
    Number(i64),
    Character(char),
    Ident(String),
    Semicolon,
    Operator(Operator),
}

#[derive(Debug, Clone, Copy, PartialEq, Eq, Structural)]
pub enum Operator {
    Declare,
    Equality,
    LeftParenthesis,
    RightParenthesis,
    LeftCurlyBracket,
    RightCurlyBracket,
    Assign,
    Plus,
    Minus,
    Star,
    Slash,
}

impl Operator {
    /// Which operator a character starts, and whether the token also consumes
    /// the lookahead character.
    pub open spec fn parse_spec(current: char, lookahead: Option<char>) -> Option<(Operator, bool)> {
        if current == ':' && lookahead == Some('=') {
            Some((Operator::Declare, true))
        } else if current == '=' && lookahead == Some('=') {
            Some((Operator::Equality, true))
        } else if current == '(' {
            Some((Operator::LeftParenthesis, false))
        } else if current == ')' {
            Some((Operator::RightParenthesis, false))
        } else if current == '{' {
            Some((Operator::LeftCurlyBracket, false))
        } else if current == '}' {
            Some((Operator::RightCurlyBracket, false))
        } else if current == '=' {
            Some((Operator::Assign, false))
        } else if current == '+' {
            Some((Operator::Plus, false))
        } else if current == '-' {
            Some((Operator::Minus, false))
        } else if current == '*' {
            Some((Operator::Star, false))
        } else if current == '/' {
            Some((Operator::Slash, false))
        } else {
            None
        }
    }

    pub fn parse(current: char, lookahead: Option<char>) -> (r: Option<(Operator, bool)>)
        ensures
            r == Operator::parse_spec(current, lookahead),
    {
        if current == ':' && lookahead == Some('=') {
            Some((Operator::Declare, true))
        } else if current == '=' && lookahead == Some('=') {
            Some((Operator::Equality, true))
        } else if current == '(' {
            Some((Operator::LeftParenthesis, false))
        } else if current == ')' {
            Some((Operator::RightParenthesis, false))
        } else if current == '{' {
            Some((Operator::LeftCurlyBracket, false))
        } else if current == '}' {
            Some((Operator::RightCurlyBracket, false))
        } else if current == '=' {
            Some((Operator::Assign, false))
        } else if current == '+' {
            Some((Operator::Plus, false))
        } else if current == '-' {
            Some((Operator::Minus, false))
        } else if current == '*' {
            Some((Operator::Star, false))
        } else if current == '/' {
            Some((Operator::Slash, false))
        } else {
            None
        }
    }
}

#[derive(Debug, Clone, Copy, PartialEq, Eq, Structural)]
pub enum Keyword {
    Function,
    Return,
}

impl Keyword {
    /// Which keyword a word is, if any.
    pub open spec fn parse_spec(value: Seq<char>) -> Option<Keyword> {
        if value == "fn"@ {
            Some(Keyword::Function)
        } else if value == "return"@ {
            Some(Keyword::Return)
        } else {
            None
        }
    }

    pub fn parse(value: &str) -> (r: Option<Keyword>)
        ensures
            r == Keyword::parse_spec(value@),
    {
        let word: String = value.to_owned();
        if word == ("fn").to_owned() {
            Some(Keyword::Function)
        } else if word == ("return").to_owned() {
            Some(Keyword::Return)
        } else {
            None
        }
    }
}

} // verus!
