pub mod context;
pub mod dictionary;
pub mod id;
pub mod lexer;
pub mod stack;
