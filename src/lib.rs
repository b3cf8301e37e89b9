//! A front end and evaluator for NASL, the scripting language of vulnerability
//! tests: a tokenizer, a Pratt parser, a value model with its coercions, the
//! operators, the assignment rules that build arrays and dictionaries on write,
//! a register of scoped variables, and a tree-walking interpreter.
pub mod token;
pub mod value;
pub mod error;
pub mod operator;
pub mod statement;
pub mod register;
pub mod assign;
pub mod parser;
pub mod interpreter;
pub mod laws;
