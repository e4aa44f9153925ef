//! A front end and evaluation engine for a small dynamically typed scripting
//! language: scanner, parser, resolver, lexical environments and a stepwise
//! tree-walking evaluator, each with a machine-checked contract.
//!
//! The stages run in this order: `Scanner` turns text into tokens, `Parser`
//! turns tokens into statements, `Resolver` records in an `Interpreter` how
//! far each local variable is from its declaration, and the `Interpreter`
//! evaluates the statements.
//!
//! The evaluator never computes with floating-point numbers and never
//! writes output itself. It is driven by its host: `Interpreter::run` takes
//! steps until there is something for the host to do, which the returned
//! `Action` names. For `Action::Print` the host writes a line; for
//! `Action::Ask` it computes a number, as the bits of a double-precision
//! float, and hands it to the next call of `run`.
pub mod balance;
pub mod callable;
pub mod environment;
pub mod expr;
pub mod fragment;
pub mod grammar;
pub mod interpreter;
pub mod machine;
pub mod number;
pub mod parsed;
pub mod parser;
pub mod reparse;
pub mod rescan;
pub mod resolver;
pub mod roundtrip;
pub mod runs;
pub mod scanner;
pub mod stmt;
pub mod table;
pub mod text;
pub mod token;
pub mod value;
pub mod writes;

pub use callable::Callable;
pub use environment::Environment;
pub use expr::Expr;
pub use interpreter::{Action, Arithmetic, Interpreter, InterpreterStatus, Request};
pub use parser::{ParseError, Parser};
pub use resolver::{BindingError, FunctionType, Resolver};
pub use scanner::Scanner;
pub use stmt::Stmt;
pub use token::{Token, TokenLiteral, TokenType};
pub use value::{ExprValue, Output, RuntimeError};
