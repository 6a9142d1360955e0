//! Front end of a lexical-analyzer generator: a reader for lex-style
//! specification files, a registry of named pattern fragments with
//! placeholder resolution, and a tokenizer for pattern strings.

pub mod lexer;
pub mod reader;
pub mod registry;
pub mod section;
pub mod text;
