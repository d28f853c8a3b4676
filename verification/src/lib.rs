//! Nightbug is a small Lisp-like expression language.
//!
//! Source text is turned into tokens by [`lexer`], tokens into a tree of
//! spanned expressions by [`parser`], and the tree into a value by
//! [`interpreter`]. Spans are offsets into the source text and travel with
//! the tokens and expressions from the first stage to the last.
//!
//! A stage that fails says so twice: it returns an error, and it reports one
//! diagnostic, built with the types of [`errors`]. Nothing is printed here.
//! A diagnostic is reported by appending it to a log that the caller hands
//! in; [`errors::builder::Diagnostic::render`] gives the text to print.
//!
//! Each stage comes with a specification of what it computes
//! ([`lexer::tokenize`], [`parser::parse_all`], [`interpreter::eval::eval`]),
//! and its contract says that it computes just that.

pub mod errors;
pub mod interpreter;
pub mod lexer;
pub mod parser;
pub mod text;
