//! A tree-walking interpreter for a small dynamically typed, class-based
//! scripting language.
//!
//! A program passes four stages, each of which may stop it:
//!
//! 1. [`scanner`] turns the source text into tokens ([`token`],
//!    [`token_type`]);
//! 2. [`parser`] turns the tokens into statements ([`expr`], [`stmt`]) and
//!    gives every expression node an identifier of its own; [`grammar`]
//!    holds the grammar that the parser follows;
//! 3. [`resolver`] records, for every reference to a local variable, how
//!    many scopes out its binding lies, and reports what is wrong without
//!    running the program;
//! 4. [`interpreter`] runs the statements. [`semantics`] holds what a step
//!    of it does; [`soundness`], [`handles`] and [`plain`] hold what every
//!    step keeps true; [`laws`] holds what follows for programs.
//!
//! The interpreter does not run a program in one call. It takes one step at
//! a time and tells its host what the step asks for: to print a line, or to
//! do the arithmetic of 64-bit floating-point numbers, which this library
//! holds as their bits ([`number`]) and leaves to the host. So printing, the
//! clock and floating-point arithmetic stay outside, and every step is a
//! total function of the interpreter's state and the host's last answer.
//!
//! Scopes, functions, classes and instances live in tables ([`environment`],
//! [`callable`], [`class`], [`instance`], [`machine`]); a value holds an
//! index into a table, so that two copies of a closure or of an instance
//! share their state. [`dict`] is the map from names to values that scopes,
//! fields and method tables are made of.
//!
//! [`report`] writes the lines that report errors, [`ast_display`] writes
//! expressions, and [`text`] and [`utils`] hold what the others share.

pub mod ast_display;
pub mod callable;
pub mod class;
pub mod dict;
pub mod environment;
pub mod expr;
pub mod grammar;
pub mod handles;
pub mod instance;
pub mod interpreter;
pub mod laws;
pub mod machine;
pub mod number;
pub mod parser;
pub mod plain;
pub mod report;
pub mod resolver;
pub mod scanner;
pub mod semantics;
pub mod soundness;
pub mod stmt;
pub mod text;
pub mod token;
pub mod token_type;
pub mod utils;
