//! A lightweight static type checker for the assignment-statement subset of a
//! dynamically typed language.
//!
//! The checker walks an already-parsed statement sequence, infers the type set
//! of each assignment, and accumulates a name-sorted symbol table. A statement
//! that reassigns a name with a type outside the recorded type set stops the
//! pass with a diagnostic.

pub mod classes;
pub mod strcmp;
pub mod typycheck;
