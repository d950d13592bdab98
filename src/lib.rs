//! An interpreter for the eight-command tape language: a loader that keeps
//! only command bytes, a resolver that pairs loop brackets, and a machine
//! that executes the program one instruction at a time.
pub mod brackets;
pub mod engine;
pub mod instruction;
