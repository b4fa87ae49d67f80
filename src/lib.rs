//! Front end of a literate reactive dataflow language: a lossless
//! ordered-choice grammar over source bytes, and a lowering compiler that
//! turns syntax trees into register-addressed instruction blocks.

pub mod token;
pub mod node;
pub mod rules;
pub mod grammar;
pub mod parser;
pub mod compiler;
pub mod registers;
