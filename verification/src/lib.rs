//! Random generation of Guarded Command Language (GCL) programs for testing
//! compiler and interpreter environments, together with the run
//! configuration of a program under test.

pub mod ast;
pub mod random;
pub mod compiler_gen;
pub mod memory;
pub mod bounds;
pub mod interpreter_gen;
pub mod guards;
pub mod config;
pub mod print;
pub mod xml;
pub mod coverage;
