pub mod grammar;
pub mod round_trip;
pub mod lexer;
pub mod parser;
pub mod token;
