//! The runtime form of a user-defined function: its declaration and the
//! scope frame that was current where it was declared.
use vstd::prelude::*;
use crate::stmt::Stmt;
use crate::token::Token;

verus! {

/// A function value. Several variables may hold the same function; all of
/// them share its closure frame.
#[derive(Clone, Copy, Debug, PartialEq, Eq)]
pub struct Callable<'a> {
    pub name: &'a Token,
    pub params: &'a Vec<Token>,
    pub body: &'a Stmt,
    /// The frame in which free variables of the body are looked up.
    pub closure: usize,
}

/// What a function displays as.
pub open spec fn function_text(name: Seq<char>) -> Seq<char> {
    "<fn "@ + name + ">"@
}

impl<'a> Callable<'a> {
    /// The number of parameters.
    pub fn arity(&self) -> (r: usize)
        ensures
            r == self.params@.len(),
    {
        self.params.len()
    }

    /// What this function displays as.
    pub fn describe(&self) -> (r: String)
        ensures
            r@ == function_text(self.name.lexeme@),
    {
        let mut out = String::from_str("<fn ");
        out.append(self.name.lexeme.as_str());
        out.append(">");
        out
    }
}

} // verus!
