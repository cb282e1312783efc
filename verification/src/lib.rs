//! An evaluator of infix arithmetic expressions over `i32`: integers, the
//! operators `+ - * /`, parentheses and unary minus.
//!
//! The text of an expression passes through three stages:
//!
//! - [`lexer`] turns it into tokens,
//! - [`parser`] builds an expression tree from the tokens, by operator
//!   precedence on two stacks,
//! - the tree is evaluated in checked arithmetic.
//!
//! [`pipeline`] runs the three in a row. Each stage is proved to compute a
//! function that is stated as a state machine, and every failure is a typed
//! error: no input makes the library panic.
//!
//! The modules whose names end in `_laws` hold what is proved of those
//! functions: that the text of a tree is read back as that tree, so that
//! evaluation respects precedence and association; that a number evaluates
//! to itself; that parentheses keep a value and blanks change nothing; and
//! that unknown characters, unbalanced parentheses and divisions by zero
//! always fail. [`grammar`] and [`decimal`] define the notation that these
//! laws speak of.
pub mod decimal;
pub mod eval_laws;
pub mod grammar;
pub mod lexer;
pub mod lexer_laws;
pub mod parser;
pub mod parser_laws;
pub mod pipeline;
pub mod pipeline_laws;
