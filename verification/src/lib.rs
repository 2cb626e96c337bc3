pub mod chars;
pub mod cli;
pub mod diagnostics;
pub mod driver;
pub mod encoding;
pub mod error;
pub mod format;
pub mod grammar;
pub mod lexer;
pub mod literal;
pub mod source;
pub mod span;
