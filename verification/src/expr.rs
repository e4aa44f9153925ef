//! Expressions: the recursive value type that the parser builds and every
//! later stage reads, and its canonical parenthesised rendering.
use vstd::prelude::*;
use crate::token::{Token, TokenView, token_text};

verus! {

/// An expression. Each composite node owns its children. A variable
/// reference and an assignment carry the number of their site, which no
/// other site of the same program has.
#[derive(Debug, PartialEq, Eq)]
pub enum Expr {
    /// A numeric literal, as the canonical decimal text of its written
    /// digits.
    Number(String),
    String(String),
    Bool(bool),
    Nil,
    Grouping(Box<Expr>),
    Unary { operator: Token, right: Box<Expr> },
    Binary { operator: Token, left: Box<Expr>, right: Box<Expr> },
    Variable(usize, Token),
    Assign(usize, Token, Box<Expr>),
    Logical { operator: Token, left: Box<Expr>, right: Box<Expr> },
    /// A call; `paren` is the closing parenthesis, kept for error locations.
    Call { callee: Box<Expr>, paren: Token, arguments: Vec<Expr> },
}

/// The mathematical content of an `Expr`.
pub enum ExprView {
    Number(Seq<char>),
    String(Seq<char>),
    Bool(bool),
    Nil,
    Grouping(Box<ExprView>),
    Unary { operator: TokenView, right: Box<ExprView> },
    Binary { operator: TokenView, left: Box<ExprView>, right: Box<ExprView> },
    Variable(usize, TokenView),
    Assign(usize, TokenView, Box<ExprView>),
    Logical { operator: TokenView, left: Box<ExprView>, right: Box<ExprView> },
    Call { callee: Box<ExprView>, paren: TokenView, arguments: Seq<ExprView> },
}

pub open spec fn expr_view(e: Expr) -> ExprView
    decreases e,
{
    match e {
        Expr::Number(text) => ExprView::Number(text@),
        Expr::String(text) => ExprView::String(text@),
        Expr::Bool(b) => ExprView::Bool(b),
        Expr::Nil => ExprView::Nil,
        Expr::Grouping(inner) => ExprView::Grouping(Box::new(expr_view(*inner))),
        Expr::Unary { operator, right } => ExprView::Unary {
            operator: operator@,
            right: Box::new(expr_view(*right)),
        },
        Expr::Binary { operator, left, right } => ExprView::Binary {
            operator: operator@,
            left: Box::new(expr_view(*left)),
            right: Box::new(expr_view(*right)),
        },
        Expr::Variable(id, name) => ExprView::Variable(id, name@),
        Expr::Assign(id, name, value) => ExprView::Assign(id, name@, Box::new(expr_view(*value))),
        Expr::Logical { operator, left, right } => ExprView::Logical {
            operator: operator@,
            left: Box::new(expr_view(*left)),
            right: Box::new(expr_view(*right)),
        },
        Expr::Call { callee, paren, arguments } => ExprView::Call {
            callee: Box::new(expr_view(*callee)),
            paren: paren@,
            arguments: Seq::new(
                arguments@.len(),
                |i: int|
                    if 0 <= i < arguments@.len() {
                        expr_view(arguments@[i])
                    } else {
                        ExprView::Nil
                    },
            ),
        },
    }
}

impl View for Expr {
    type V = ExprView;

    open spec fn view(&self) -> ExprView {
        expr_view(*self)
    }
}

/// The contents of a list of expressions, one for one.
pub open spec fn expr_views(list: Seq<Expr>) -> Seq<ExprView> {
    Seq::new(list.len(), |i: int| list[i]@)
}

/// The canonical rendering of an expression: a unary or binary operation as
/// `(op operands)`, a grouping as `(group inner)`, a call as
/// `callee(arguments)`.
pub open spec fn expr_text(e: ExprView) -> Seq<char>
    decreases e, 0int,
{
    match e {
        ExprView::Number(text) => text,
        ExprView::String(text) => text,
        ExprView::Bool(b) => if b {
            "true"@
        } else {
            "false"@
        },
        ExprView::Nil => "nil"@,
        ExprView::Grouping(inner) => "(group "@ + expr_text(*inner) + ")"@,
        ExprView::Unary { operator, right } => "("@ + operator.lexeme + " "@ + expr_text(*right)
            + ")"@,
        ExprView::Binary { operator, left, right } => "("@ + operator.lexeme + " "@ + expr_text(
            *left,
        ) + " "@ + expr_text(*right) + ")"@,
        ExprView::Variable(_, name) => name.lexeme,
        ExprView::Assign(_, name, value) => name.lexeme + " = "@ + expr_text(*value),
        ExprView::Logical { operator, left, right } => expr_text(*left) + " "@ + token_text(
            operator,
        ) + " "@ + expr_text(*right),
        ExprView::Call { callee, paren, arguments } => expr_text(*callee) + "("@ + list_text(
            arguments,
            arguments.len() as int,
        ) + ")"@,
    }
}

/// The renderings of the first `count` expressions of `list`, separated by
/// a comma and a space.
pub open spec fn list_text(list: Seq<ExprView>, count: int) -> Seq<char>
    decreases list, count,
{
    if count <= 0 || count > list.len() {
        Seq::empty()
    } else if count == 1 {
        expr_text(list[0])
    } else {
        list_text(list, count - 1) + ", "@ + expr_text(list[count - 1])
    }
}

impl Expr {
    /// Appends the canonical rendering of this expression to `out`.
    pub fn render_into(&self, out: &mut String)
        ensures
            final(out)@ == old(out)@ + expr_text(self@),
        decreases self,
    {
        match self {
            Expr::Number(text) => {
                out.append(text.as_str());
            },
            Expr::String(text) => {
                out.append(text.as_str());
            },
            Expr::Bool(b) => {
                if *b {
                    out.append("true");
                } else {
                    out.append("false");
                }
            },
            Expr::Nil => {
                out.append("nil");
            },
            Expr::Grouping(inner) => {
                out.append("(group ");
                inner.render_into(out);
                out.append(")");
                assert(out@ =~= old(out)@ + expr_text(self@));
            },
            Expr::Unary { operator, right } => {
                out.append("(");
                out.append(operator.lexeme.as_str());
                out.append(" ");
                right.render_into(out);
                out.append(")");
                assert(out@ =~= old(out)@ + expr_text(self@));
            },
            Expr::Binary { operator, left, right } => {
                out.append("(");
                out.append(operator.lexeme.as_str());
                out.append(" ");
                left.render_into(out);
                out.append(" ");
                right.render_into(out);
                out.append(")");
                assert(out@ =~= old(out)@ + expr_text(self@));
            },
            Expr::Variable(_, name) => {
                out.append(name.lexeme.as_str());
            },
            Expr::Assign(_, name, value) => {
                out.append(name.lexeme.as_str());
                out.append(" = ");
                value.render_into(out);
                assert(out@ =~= old(out)@ + expr_text(self@));
            },
            Expr::Logical { operator, left, right } => {
                left.render_into(out);
                out.append(" ");
                operator.render_into(out);
                out.append(" ");
                right.render_into(out);
                assert(out@ =~= old(out)@ + expr_text(self@));
            },
            Expr::Call { callee, paren, arguments } => {
                callee.render_into(out);
                out.append("(");
                let ghost base = out@;
                let ghost list = self@->Call_arguments;
                let mut i: usize = 0;
                while i < arguments.len()
                    invariant
                        *self matches Expr::Call { arguments: a, .. } && a == arguments,
                        list == self@->Call_arguments,
                        i <= arguments.len(),
                        out@ == base + list_text(list, i as int),
                    decreases arguments.len() - i,
                {
                    if i > 0 {
                        out.append(", ");
                    }
                    arguments[i].render_into(out);
                    i = i + 1;
                    assert(out@ =~= base + list_text(list, i as int));
                }
                out.append(")");
                assert(out@ =~= old(out)@ + expr_text(self@));
            },
        }
    }

    /// The canonical rendering of this expression.
    pub fn render(&self) -> (r: String)
        ensures
            r@ == expr_text(self@),
    {
        let mut out = String::new();
        self.render_into(&mut out);
        out
    }
}

} // verus!
