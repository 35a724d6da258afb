//! An interpreter for arithmetic expressions and simple variable statements,
//! verified with Verus.
//!
//! A text is evaluated line by line. [`source`] splits it into logical
//! statements, [`tokenizer`] turns a statement into tokens, [`parser`] turns
//! the tokens into a statement of the syntax tree in [`ast`], and
//! [`executor`] compiles the expression of the statement to code for a stack
//! machine, runs the code against the variables that earlier statements
//! defined, and gathers the results. [`executor::evaluate_lines`] does all of
//! this for a whole text.
//!
//! Each step has a contract that says exactly what it computes, over a
//! mathematical model of its data: a text is a sequence of characters, an
//! environment is a map from names to numbers, and each data type has a view
//! with sequences in place of strings. [`laws`] holds the theorems that tie
//! the steps together, among them that compiling an expression and running
//! the code gives the value of the expression.
//!
//! [`repl`] holds the decisions of an interactive loop around the
//! interpreter: which lines are commands, and when the lines that were typed
//! make a text to evaluate.
//!
//! Numbers are IEEE-754 double-precision values, held as their bits; see
//! [`number`]. The interpreter does not compute with them: the caller hands
//! it the four arithmetic operations and the reading of literals as
//! functions, and the contracts say what the interpreter does with whatever
//! these functions compute.

pub mod ast;
pub mod errors;
pub mod executor;
pub mod laws;
pub mod number;
pub mod parser;
pub mod repl;
pub mod source;
pub mod text;
pub mod tokenizer;
