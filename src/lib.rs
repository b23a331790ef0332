//! Front end and resolution core of an assembler for a small register machine:
//! line normalisation, operand and statement parsing, and two-pass symbol
//! resolution followed by encoding.
pub mod syntax;
pub mod text;
pub mod lexer;
pub mod encode;
pub mod resolve;
pub mod laws;
