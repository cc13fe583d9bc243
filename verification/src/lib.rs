//! A verified SQL tokenizer: it turns source text, given as bytes, into a
//! stream of classified tokens, each carrying the byte span of its lexeme.

pub mod keyword;
pub mod kind;
pub mod token;
pub mod tokenizer;
