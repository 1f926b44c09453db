//! A verified interpreter for an eight-instruction tape language.
//!
//! `program` holds the mathematical model of instruction sequences and of
//! bracket matching, `loader` turns raw source bytes into a program, and
//! `cpu` executes a program on a byte tape.

pub mod cpu;
pub mod loader;
pub mod program;
