//! Statements, and their canonical rendering.
use vstd::prelude::*;
use crate::expr::{Expr, ExprView, expr_text};
use crate::token::{Token, TokenView, token_text, token_views};

verus! {

/// A statement. A block introduces a new scope; a function declaration
/// holds the function's name, its parameters and its body.
#[derive(Debug, PartialEq, Eq)]
pub enum Stmt {
    Expression(Expr),
    Print(Expr),
    Var(Token, Expr),
    Block(Vec<Stmt>),
    If { condition: Expr, then_branch: Box<Stmt>, else_branch: Option<Box<Stmt>> },
    While { condition: Expr, body: Box<Stmt> },
    Function { name: Token, params: Vec<Token>, body: Box<Stmt> },
    Return(Token, Option<Expr>),
}

/// The mathematical content of a `Stmt`.
pub enum StmtView {
    Expression(ExprView),
    Print(ExprView),
    Var(TokenView, ExprView),
    Block(Seq<StmtView>),
    If { condition: ExprView, then_branch: Box<StmtView>, else_branch: Option<Box<StmtView>> },
    While { condition: ExprView, body: Box<StmtView> },
    Function { name: TokenView, params: Seq<TokenView>, body: Box<StmtView> },
    Return(TokenView, Option<ExprView>),
}

pub open spec fn stmt_view(s: Stmt) -> StmtView
    decreases s,
{
    match s {
        Stmt::Expression(e) => StmtView::Expression(e@),
        Stmt::Print(e) => StmtView::Print(e@),
        Stmt::Var(name, e) => StmtView::Var(name@, e@),
        Stmt::Block(list) => StmtView::Block(
            Seq::new(
                list@.len(),
                |i: int|
                    if 0 <= i < list@.len() {
                        stmt_view(list@[i])
                    } else {
                        StmtView::Block(Seq::empty())
                    },
            ),
        ),
        Stmt::If { condition, then_branch, else_branch } => StmtView::If {
            condition: condition@,
            then_branch: Box::new(stmt_view(*then_branch)),
            else_branch: match else_branch {
                Some(branch) => Some(Box::new(stmt_view(*branch))),
                None => None,
            },
        },
        Stmt::While { condition, body } => StmtView::While {
            condition: condition@,
            body: Box::new(stmt_view(*body)),
        },
        Stmt::Function { name, params, body } => StmtView::Function {
            name: name@,
            params: token_views(params@),
            body: Box::new(stmt_view(*body)),
        },
        Stmt::Return(keyword, value) => StmtView::Return(
            keyword@,
            match value {
                Some(e) => Some(e@),
                None => None,
            },
        ),
    }
}

impl View for Stmt {
    type V = StmtView;

    open spec fn view(&self) -> StmtView {
        stmt_view(*self)
    }
}

/// The contents of a list of statements, one for one.
pub open spec fn stmt_views(list: Seq<Stmt>) -> Seq<StmtView> {
    Seq::new(list.len(), |i: int| list[i]@)
}

/// The renderings of the first `count` tokens of `list`, separated by a
/// comma and a space.
pub open spec fn params_text(list: Seq<TokenView>, count: int) -> Seq<char>
    decreases count,
{
    if count <= 0 || count > list.len() {
        Seq::empty()
    } else if count == 1 {
        token_text(list[0])
    } else {
        params_text(list, count - 1) + ", "@ + token_text(list[count - 1])
    }
}

/// The canonical rendering of a statement.
pub open spec fn stmt_text(s: StmtView) -> Seq<char>
    decreases s, 0int,
{
    match s {
        StmtView::Expression(e) => expr_text(e),
        StmtView::Print(e) => expr_text(e),
        StmtView::Var(name, e) => name.lexeme + " = "@ + expr_text(e),
        StmtView::Block(list) => block_text(list, list.len() as int),
        StmtView::If { condition, then_branch, else_branch } => "if ("@ + expr_text(condition)
            + ") {\n"@ + stmt_text(*then_branch) + "\n"@ + match else_branch {
            Some(branch) => "} else {\n"@ + stmt_text(*branch),
            None => Seq::empty(),
        } + "}\n"@,
        StmtView::While { condition, body } => "while ("@ + expr_text(condition) + ") {\n"@
            + stmt_text(*body) + "\n"@ + "}\n"@,
        StmtView::Function { name, params, body } => "fun "@ + name.lexeme + "("@ + params_text(
            params,
            params.len() as int,
        ) + ") {\n"@ + stmt_text(*body) + "}"@,
        StmtView::Return(_, value) => match value {
            Some(e) => expr_text(e),
            None => "nil"@,
        },
    }
}

/// The renderings of the first `count` statements of `list`, one per line.
pub open spec fn block_text(list: Seq<StmtView>, count: int) -> Seq<char>
    decreases list, count,
{
    if count <= 0 || count > list.len() {
        Seq::empty()
    } else if count == 1 {
        stmt_text(list[0])
    } else {
        block_text(list, count - 1) + "\n"@ + stmt_text(list[count - 1])
    }
}

impl Stmt {
    /// Appends the canonical rendering of this statement to `out`.
    pub fn render_into(&self, out: &mut String)
        ensures
            final(out)@ == old(out)@ + stmt_text(self@),
        decreases self,
    {
        match self {
            Stmt::Expression(e) => {
                e.render_into(out);
            },
            Stmt::Print(e) => {
                e.render_into(out);
            },
            Stmt::Var(name, e) => {
                out.append(name.lexeme.as_str());
                out.append(" = ");
                e.render_into(out);
                assert(out@ =~= old(out)@ + stmt_text(self@));
            },
            Stmt::Block(list) => {
                let ghost base = out@;
                let ghost views = self@->Block_0;
                let mut i: usize = 0;
                while i < list.len()
                    invariant
                        *self matches Stmt::Block(l) && l == list,
                        views == self@->Block_0,
                        i <= list.len(),
                        out@ == base + block_text(views, i as int),
                    decreases list.len() - i,
                {
                    if i > 0 {
                        out.append("\n");
                    }
                    list[i].render_into(out);
                    i = i + 1;
                    assert(out@ =~= base + block_text(views, i as int));
                }
                assert(out@ =~= old(out)@ + stmt_text(self@));
            },
            Stmt::If { condition, then_branch, else_branch } => {
                out.append("if (");
                condition.render_into(out);
                out.append(") {\n");
                then_branch.render_into(out);
                out.append("\n");
                match else_branch {
                    Some(branch) => {
                        out.append("} else {\n");
                        branch.render_into(out);
                    },
                    None => {},
                }
                out.append("}\n");
                assert(out@ =~= old(out)@ + stmt_text(self@));
            },
            Stmt::While { condition, body } => {
                out.append("while (");
                condition.render_into(out);
                out.append(") {\n");
                body.render_into(out);
                out.append("\n");
                out.append("}\n");
                assert(out@ =~= old(out)@ + stmt_text(self@));
            },
            Stmt::Function { name, params, body } => {
                out.append("fun ");
                out.append(name.lexeme.as_str());
                out.append("(");
                let ghost base = out@;
                let mut i: usize = 0;
                while i < params.len()
                    invariant
                        i <= params.len(),
                        out@ == base + params_text(token_views(params@), i as int),
                    decreases params.len() - i,
                {
                    if i > 0 {
                        out.append(", ");
                    }
                    params[i].render_into(out);
                    i = i + 1;
                    assert(out@ =~= base + params_text(token_views(params@), i as int));
                }
                out.append(") {\n");
                body.render_into(out);
                out.append("}");
                assert(out@ =~= old(out)@ + stmt_text(self@));
            },
            Stmt::Return(_, value) => {
                match value {
                    Some(e) => {
                        e.render_into(out);
                    },
                    None => {
                        out.append("nil");
                    },
                }
            },
        }
    }

    /// The canonical rendering of this statement.
    pub fn render(&self) -> (r: String)
        ensures
            r@ == stmt_text(self@),
    {
        let mut out = String::new();
        self.render_into(&mut out);
        out
    }
}

} // verus!
