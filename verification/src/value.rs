//! Runtime values, what they display as, and runtime errors.
use vstd::prelude::*;
use crate::callable::{Callable, function_text};
use crate::text::{decimal, push_decimal};

verus! {

/// A runtime value. A number is held as the bit pattern of an IEEE 754
/// double-precision float.
#[derive(Debug, PartialEq, Eq)]
pub enum ExprValue<'a> {
    Bool(bool),
    Number(u64),
    String(String),
    Nil,
    Call(Callable<'a>),
}

/// The mathematical content of an `ExprValue`.
pub enum ValueView<'a> {
    Bool(bool),
    Number(u64),
    String(Seq<char>),
    Nil,
    Call(Callable<'a>),
}

impl<'a> View for ExprValue<'a> {
    type V = ValueView<'a>;

    open spec fn view(&self) -> ValueView<'a> {
        match self {
            ExprValue::Bool(b) => ValueView::Bool(*b),
            ExprValue::Number(n) => ValueView::Number(*n),
            ExprValue::String(s) => ValueView::String(s@),
            ExprValue::Nil => ValueView::Nil,
            ExprValue::Call(f) => ValueView::Call(*f),
        }
    }
}

/// The contents of a list of values, one for one.
pub open spec fn value_views<'a>(list: Seq<ExprValue<'a>>) -> Seq<ValueView<'a>> {
    Seq::new(list.len(), |i: int| list[i]@)
}

/// What is written for a value: a text, or a number that the host formats.
#[derive(Debug, PartialEq, Eq)]
pub enum Output {
    Text(String),
    Number(u64),
}

/// The mathematical content of an `Output`.
pub enum OutputView {
    Text(Seq<char>),
    Number(u64),
}

impl View for Output {
    type V = OutputView;

    open spec fn view(&self) -> OutputView {
        match self {
            Output::Text(s) => OutputView::Text(s@),
            Output::Number(n) => OutputView::Number(*n),
        }
    }
}

/// Every value but nil and false counts as true.
pub open spec fn truthy(value: ValueView) -> bool {
    match value {
        ValueView::Nil => false,
        ValueView::Bool(b) => b,
        _ => true,
    }
}

/// What a value displays as.
pub open spec fn shown(value: ValueView) -> OutputView {
    match value {
        ValueView::Bool(b) => OutputView::Text(
            if b {
                "true"@
            } else {
                "false"@
            },
        ),
        ValueView::Number(n) => OutputView::Number(n),
        ValueView::String(s) => OutputView::Text(s),
        ValueView::Nil => OutputView::Text("nil"@),
        ValueView::Call(f) => OutputView::Text(function_text(f.name.lexeme@)),
    }
}

impl<'a> Clone for ExprValue<'a> {
    fn clone(&self) -> (r: Self)
        ensures
            r == *self,
    {
        match self {
            ExprValue::Bool(b) => ExprValue::Bool(*b),
            ExprValue::Number(n) => ExprValue::Number(*n),
            ExprValue::String(s) => ExprValue::String(s.clone()),
            ExprValue::Nil => ExprValue::Nil,
            ExprValue::Call(f) => ExprValue::Call(*f),
        }
    }
}

impl<'a> ExprValue<'a> {
    pub fn is_truthy(&self) -> (r: bool)
        ensures
            r == truthy(self@),
    {
        match self {
            ExprValue::Nil => false,
            ExprValue::Bool(b) => *b,
            _ => true,
        }
    }

    /// What this value displays as.
    pub fn display(&self) -> (r: Output)
        ensures
            r@ == shown(self@),
    {
        match self {
            ExprValue::Bool(b) => Output::Text(
                String::from_str(
                    if *b {
                        "true"
                    } else {
                        "false"
                    },
                ),
            ),
            ExprValue::Number(n) => Output::Number(*n),
            ExprValue::String(s) => Output::Text(s.clone()),
            ExprValue::Nil => Output::Text(String::from_str("nil")),
            ExprValue::Call(f) => Output::Text(f.describe()),
        }
    }
}

/// Why evaluation stopped: an error of the program to report, a `return`
/// that no call took up, or a state of the evaluator that no rightly
/// resolved program leads to, which is no error of the program.
#[derive(Debug, PartialEq, Eq)]
pub enum RuntimeError<'a> {
    RTE { token: String, message: String, line: usize },
    Return(ExprValue<'a>),
    Inconsistent,
}

/// The mathematical content of a `RuntimeError`.
pub enum RuntimeErrorView<'a> {
    RTE { token: Seq<char>, message: Seq<char>, line: usize },
    Return(ValueView<'a>),
    Inconsistent,
}

impl<'a> View for RuntimeError<'a> {
    type V = RuntimeErrorView<'a>;

    open spec fn view(&self) -> RuntimeErrorView<'a> {
        match self {
            RuntimeError::RTE { token, message, line } => RuntimeErrorView::RTE {
                token: token@,
                message: message@,
                line: *line,
            },
            RuntimeError::Return(value) => RuntimeErrorView::Return(value@),
            RuntimeError::Inconsistent => RuntimeErrorView::Inconsistent,
        }
    }
}

/// The report of an error with the given message on the given line.
pub open spec fn report_text(line: usize, message: Seq<char>) -> Seq<char> {
    "[line "@ + decimal(line as nat) + "] Runtime Error: "@ + message
}

impl<'a> RuntimeError<'a> {
    /// An error at `token` with the given message.
    pub fn at(token: &crate::token::Token, message: String) -> (r: Self)
        ensures
            r@ == (RuntimeErrorView::RTE { token: token.lexeme@, message: message@, line: token.line }),
    {
        RuntimeError::RTE { token: token.lexeme.clone(), message, line: token.line }
    }

    /// The report of an error; nothing for a `return`, which is no error.
    pub fn describe(&self) -> (r: Option<String>)
        ensures
            match self@ {
                RuntimeErrorView::RTE { message, line, .. } => r is Some && r->0@ == report_text(
                    line,
                    message,
                ),
                RuntimeErrorView::Return(_) => r is None,
                RuntimeErrorView::Inconsistent => r is Some && r->0@
                    == "Internal Error: The evaluator's state is inconsistent."@,
            },
    {
        match self {
            RuntimeError::RTE { message, line, .. } => {
                let mut out = String::from_str("[line ");
                push_decimal(&mut out, *line);
                out.append("] Runtime Error: ");
                out.append(message.as_str());
                assert(out@ =~= report_text(*line, message@));
                Some(out)
            },
            RuntimeError::Return(_) => None,
            RuntimeError::Inconsistent => Some(
                String::from_str("Internal Error: The evaluator's state is inconsistent."),
            ),
        }
    }
}

} // verus!
