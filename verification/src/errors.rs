//! The three error kinds of the pipeline, one per stage, with their
//! rendered message forms.
use vstd::prelude::*;

use crate::numfmt::spec_nat_digits;
use crate::numfmt::usize_to_string;

verus! {

/// Raised while the input program is being tokenized.
///
/// `InvalidSymbol` carries the 1-based line, the 1-based column (the
/// character index within the whole input plus one) and a message naming
/// the offending character.
#[derive(Debug)]
pub enum SyntaxError {
    InvalidSymbol(usize, usize, String),
    StringNotClosed,
    UnexpectedEOL,
}

/// Spec-level model of a `SyntaxError`.
pub enum SpecLexErr {
    InvalidSymbol(int, int, Seq<char>),
    StringNotClosed,
    UnexpectedEOL,
}

/// The model a `SyntaxError` value stands for.
pub open spec fn syntax_error_view(e: SyntaxError) -> SpecLexErr {
    match e {
        SyntaxError::InvalidSymbol(line, col, msg) => SpecLexErr::InvalidSymbol(
            line as int,
            col as int,
            msg@,
        ),
        SyntaxError::StringNotClosed => SpecLexErr::StringNotClosed,
        SyntaxError::UnexpectedEOL => SpecLexErr::UnexpectedEOL,
    }
}

/// The rendered message of a tokenizer error.
pub open spec fn spec_syntax_error_msg(e: SpecLexErr) -> Seq<char> {
    match e {
        SpecLexErr::InvalidSymbol(line, col, msg) => "SyntaxError: "@ + msg + " (line: "@
            + spec_nat_digits(line as nat) + ", column: "@ + spec_nat_digits(col as nat) + ")"@,
        SpecLexErr::StringNotClosed => "SyntaxError: String literal is not properly closed"@,
        SpecLexErr::UnexpectedEOL => "SyntaxError: Unexpected end of input"@,
    }
}

impl SyntaxError {
    /// The message shown to the user for this error.
    pub fn render(&self) -> (r: String)
        ensures
            r@ == spec_syntax_error_msg(syntax_error_view(*self)),
    {
        match self {
            SyntaxError::InvalidSymbol(line, col, msg) => {
                proof {
                    reveal_strlit("SyntaxError: ");
                    reveal_strlit(" (line: ");
                    reveal_strlit(", column: ");
                    reveal_strlit(")");
                }
                let mut s = String::from_str("SyntaxError: ");
                s.append(msg.as_str());
                s.append(" (line: ");
                let line_str = usize_to_string(*line);
                s.append(line_str.as_str());
                s.append(", column: ");
                let col_str = usize_to_string(*col);
                s.append(col_str.as_str());
                s.append(")");
                s
            },
            SyntaxError::StringNotClosed => {
                String::from_str("SyntaxError: String literal is not properly closed")
            },
            SyntaxError::UnexpectedEOL => String::from_str("SyntaxError: Unexpected end of input"),
        }
    }
}

/// Raised while the token sequence is being shaped into syntax nodes.
#[derive(Debug)]
pub enum ParseError {
    ClosingParenWithoutOpening,
    UnexpectedEOI,
}

/// The rendered message of a parser error.
pub open spec fn spec_parse_error_msg(e: ParseError) -> Seq<char> {
    match e {
        ParseError::ClosingParenWithoutOpening => {
            "ParseError: Closing parens don't match the opening ones"@
        },
        ParseError::UnexpectedEOI => "ParseError: Unexpected end of input"@,
    }
}

impl ParseError {
    /// The message shown to the user for this error.
    pub fn render(&self) -> (r: String)
        ensures
            r@ == spec_parse_error_msg(*self),
    {
        match self {
            ParseError::ClosingParenWithoutOpening => {
                String::from_str("ParseError: Closing parens don't match the opening ones")
            },
            ParseError::UnexpectedEOI => String::from_str("ParseError: Unexpected end of input"),
        }
    }
}

/// Raised while syntax nodes are being evaluated; carries a free-text
/// message describing the violated contract.
#[derive(Debug)]
pub struct RuntimeError {
    pub message: String,
}

/// The rendered message of an evaluation error, given its message text.
pub open spec fn spec_runtime_error_msg(message: Seq<char>) -> Seq<char> {
    "RuntimeError: "@ + message
}

impl RuntimeError {
    /// The message shown to the user for this error.
    pub fn render(&self) -> (r: String)
        ensures
            r@ == spec_runtime_error_msg(self.message@),
    {
        proof {
            reveal_strlit("RuntimeError: ");
        }
        let mut s = String::from_str("RuntimeError: ");
        s.append(self.message.as_str());
        s
    }
}

} // verus!
