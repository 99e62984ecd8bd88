//! A verified interpreter for a tiny eight-symbol tape language.
//!
//! The pipeline has three stages: a lexer that turns source bytes into
//! primitive operation symbols, an encoder that run-length-compresses
//! consecutive identical symbols, and an interpreter that executes the
//! compressed instruction stream against a fixed-size byte tape.

pub mod encoder;
pub mod errors;
pub mod input;
pub mod lexer;
pub mod machine;
