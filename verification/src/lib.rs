//! A small command interpreter: scanning a line into tokens, parsing tokens
//! into a pipeline, planning how the pipeline is run, a history store and a
//! line editor, each with a verified contract.

pub mod text;
pub mod tokenizer;
pub mod parser;
pub mod history;
pub mod completion;
pub mod commands;
pub mod eval;
pub mod terminal;
pub mod shell;
