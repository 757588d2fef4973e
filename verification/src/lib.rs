//! A small query language for picking elements, attributes and text out of an
//! HTML document: a lexer, a recursive-descent parser, a validator of the
//! parsed tree, and an interpreter that runs the tree against a document.

pub mod strings;
pub mod lexer;
pub mod parser;
pub mod interpreter;

