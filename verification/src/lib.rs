//! A small interpreter for a Scheme-flavoured expression language.
//!
//! Program text is tokenized, parsed into a forest of syntax nodes, and
//! evaluated against a chain of lexical scopes.  Every stage is specified
//! by spec-level functions and the executable pipeline is verified against
//! them: the tokenizer in `lexer` against `lex_spec`, the parser in
//! `parser` against its stack-machine spec, and the evaluator in
//! `interpreter` against `eval_spec`.  General properties of the language
//! are stated and proved in `laws`.
pub mod errors;
pub mod eval_frames;
pub mod eval_spec;
pub mod interpreter;
pub mod laws;
pub mod lex_spec;
pub mod lexer;
pub mod numfmt;
pub mod parser;
pub mod runtime;
pub mod strutil;
pub mod token;
pub mod value;

pub use errors::ParseError;
pub use errors::RuntimeError;
pub use errors::SyntaxError;
pub use interpreter::eval;
pub use interpreter::run;
pub use lexer::LexerIterator;
pub use lexer::tokenize;
pub use parser::ASTNode;
pub use parser::parse;
pub use runtime::Runtime;
pub use token::Token;
pub use value::Value;
