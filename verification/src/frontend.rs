pub mod parsing;
pub mod structures;
