//! Display filters: their syntax tree and the parser for the filter language.
pub mod ast;
pub mod parser;
