pub mod analyzer;
pub mod parser;
pub mod syntax;
