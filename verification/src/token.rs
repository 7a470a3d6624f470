//! Lexical tokens produced by the tokenizer.
use vstd::prelude::*;

verus! {

/// One lexical token of the surface syntax.
#[derive(Debug, PartialEq)]
pub enum Token {
    OpenParen,
    CloseParen,
    Identifier(String),
    Integer(isize),
    Boolean(bool),
    StringToken(String),
}

/// Spec-level model of a `Token`.
pub enum SpecToken {
    OpenParen,
    CloseParen,
    Identifier(Seq<char>),
    Integer(int),
    Boolean(bool),
    StringToken(Seq<char>),
}

/// The model a `Token` value stands for.
pub open spec fn token_view(t: Token) -> SpecToken {
    match t {
        Token::OpenParen => SpecToken::OpenParen,
        Token::CloseParen => SpecToken::CloseParen,
        Token::Identifier(s) => SpecToken::Identifier(s@),
        Token::Integer(v) => SpecToken::Integer(v as int),
        Token::Boolean(b) => SpecToken::Boolean(b),
        Token::StringToken(s) => SpecToken::StringToken(s@),
    }
}

/// The models of a sequence of tokens, in order.
pub open spec fn tokens_view(s: Seq<Token>) -> Seq<SpecToken> {
    Seq::new(s.len(), |i: int| token_view(s[i]))
}

} // verus!
