//! Lexical front end of the Viscon language: the tokenizer, with its rule
//! table and literal decoders, and the syntax tree that its tokens feed.

pub mod frontend;
