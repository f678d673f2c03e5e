//! A lexical scanner and recursive-descent expression parser for a small,
//! C-style expression language.
//!
//! Source text is turned into a token stream by [`scanner::scan_program`],
//! and the token stream is turned into an abstract syntax tree by
//! [`parser::parse`].  Both passes are specified against recursive
//! specification functions over the input sequence, so the token stream and
//! the tree returned at runtime are exactly the ones the specification
//! describes.

pub mod parser;
pub mod scanner;
pub mod token;
