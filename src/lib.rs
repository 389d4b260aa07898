pub mod chars;
pub mod laws;
pub mod lexer;
pub mod model;
pub mod token;
