pub mod token;
pub mod classes;
pub mod grammar;
pub mod pieces;
pub mod munch;
pub mod text;
pub mod numbers;
pub mod escape;
pub mod scanner;
pub mod lexer;
pub mod laws;
