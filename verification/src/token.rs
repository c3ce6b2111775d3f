use vstd::prelude::*;

verus! {

/// The closed token vocabulary handed over by the token source. Keywords
/// (`func`, `return`) are ordinary identifiers here: the parser recognizes
/// them contextually.
#[derive(Debug)]
pub enum TokenType {
    /// An integer number literal.
    Number(i64),
    /// A bare word: a variable name, function name, or contextual keyword.
    Identifier(String),
    Plus,
    Minus,
    Asterisk,
    ForwardSlash,
    Carat,
    Equals,
    DoubleEquals,
    GreaterThan,
    LessThan,
    GreaterThanOrEqualTo,
    LessThanOrEqualTo,
    OpenParenthesis,
    CloseParenthesis,
    OpenBraces,
    CloseBraces,
    Comma,
    Newline,
    EOF,
}

impl TokenType {
    /// An exact copy of the token.
    pub fn duplicate(&self) -> (r: TokenType)
        ensures
            r == *self,
    {
        match self {
            TokenType::Number(x) => TokenType::Number(*x),
            TokenType::Identifier(s) => TokenType::Identifier(s.clone()),
            TokenType::Plus => TokenType::Plus,
            TokenType::Minus => TokenType::Minus,
            TokenType::Asterisk => TokenType::Asterisk,
            TokenType::ForwardSlash => TokenType::ForwardSlash,
            TokenType::Carat => TokenType::Carat,
            TokenType::Equals => TokenType::Equals,
            TokenType::DoubleEquals => TokenType::DoubleEquals,
            TokenType::GreaterThan => TokenType::GreaterThan,
            TokenType::LessThan => TokenType::LessThan,
            TokenType::GreaterThanOrEqualTo => TokenType::GreaterThanOrEqualTo,
            TokenType::LessThanOrEqualTo => TokenType::LessThanOrEqualTo,
            TokenType::OpenParenthesis => TokenType::OpenParenthesis,
            TokenType::CloseParenthesis => TokenType::CloseParenthesis,
            TokenType::OpenBraces => TokenType::OpenBraces,
            TokenType::CloseBraces => TokenType::CloseBraces,
            TokenType::Comma => TokenType::Comma,
            TokenType::Newline => TokenType::Newline,
            TokenType::EOF => TokenType::EOF,
        }
    }
}

} // verus!
