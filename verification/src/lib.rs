//! A small scripting-language front end: a word splitter, a tokenizer that
//! assembles multi-word strings and bracketed arrays, and an executor that
//! runs `let` bindings over chained arithmetic and string expressions.

pub mod number;
pub mod pipeline;
pub mod runtime;
pub mod runtime_laws;
pub mod scanner;
pub mod scanner_laws;
pub mod text;
pub mod tokenize;
pub mod tokenize_laws;
