//! The resolver: a static pass over the statements that computes, for each
//! site of a local variable, how many scopes lie between the site and the
//! declaration, and records it in the evaluator's binding table.
use vstd::prelude::*;
use crate::expr::Expr;
use crate::interpreter::Interpreter;
use crate::stmt::Stmt;
use crate::table::Table;
use crate::text::{decimal, push_decimal};
use crate::token::Token;

verus! {

/// An error of the static pass.
#[derive(Debug, PartialEq, Eq)]
pub struct BindingError {
    pub token: String,
    pub message: &'static str,
    pub line: usize,
}

/// The mathematical content of a `BindingError`.
pub struct BindingErrorView {
    pub token: Seq<char>,
    pub message: Seq<char>,
    pub line: usize,
}

impl View for BindingError {
    type V = BindingErrorView;

    open spec fn view(&self) -> BindingErrorView {
        BindingErrorView { token: self.token@, message: self.message@, line: self.line }
    }
}

/// What a binding error displays as.
pub open spec fn binding_text(error: BindingErrorView) -> Seq<char> {
    "[line "@ + decimal(error.line as nat) + "] Binding Error: "@ + error.message + " : "@
        + error.token
}

impl BindingError {
    /// What this error displays as.
    pub fn describe(&self) -> (r: String)
        ensures
            r@ == binding_text(self@),
    {
        let mut out = String::from_str("[line ");
        push_decimal(&mut out, self.line);
        out.append("] Binding Error: ");
        out.append(self.message);
        out.append(" : ");
        out.append(self.token.as_str());
        assert(out@ =~= binding_text(self@));
        out
    }
}

/// Whether the code being resolved lies inside a function.
#[derive(Debug, Copy, Clone, PartialEq, Eq, Structural)]
pub enum FunctionType {
    TopLevel,
    Function,
}

/// The state of the static pass: the stack of open scopes, innermost last,
/// in which a name maps to whether it is fully defined; the binding table;
/// and the kind of function around the current code.
pub struct Scopes {
    pub scopes: Seq<Map<Seq<char>, bool>>,
    pub locals: Map<usize, usize>,
    pub current_function: FunctionType,
}

/// The state after part of the pass, and the error that ended it, if any.
pub struct Resolved {
    pub state: Scopes,
    pub error: Option<BindingErrorView>,
}

/// A part of the pass that ended without an error.
pub open spec fn passed(state: Scopes) -> Resolved {
    Resolved { state, error: None }
}

/// A part of the pass that ended with an error.
pub open spec fn stopped(state: Scopes, token: Seq<char>, message: Seq<char>, line: usize) -> Resolved {
    Resolved { state, error: Some(BindingErrorView { token, message, line }) }
}

impl Scopes {
    pub open spec fn begin(self) -> Scopes {
        Scopes { scopes: self.scopes.push(Map::empty()), ..self }
    }

    pub open spec fn end(self) -> Scopes {
        if self.scopes.len() > 0 {
            Scopes { scopes: self.scopes.drop_last(), ..self }
        } else {
            self
        }
    }

    /// The state after `name` was given the flag `defined` in the
    /// innermost scope.
    pub open spec fn mark(self, name: Seq<char>, defined: bool) -> Scopes {
        if self.scopes.len() > 0 {
            Scopes {
                scopes: self.scopes.update(
                    self.scopes.len() - 1,
                    self.scopes.last().insert(name, defined),
                ),
                ..self
            }
        } else {
            self
        }
    }

    /// Declares `name` in the innermost scope, as not yet defined. A scope
    /// cannot declare a name twice. Outside all scopes nothing is tracked.
    pub open spec fn declare(self, name: Token) -> Resolved {
        if self.scopes.len() > 0 && self.scopes.last().contains_key(name.lexeme@) {
            stopped(
                self,
                name.lexeme@,
                "Already a variable with this name in the current scope"@,
                name.line,
            )
        } else {
            passed(self.mark(name.lexeme@, false))
        }
    }

    pub open spec fn define(self, name: Token) -> Scopes {
        self.mark(name.lexeme@, true)
    }

    /// The number of scopes, counted from `from` scopes out of the innermost
    /// one, to the nearest scope that holds `name`.
    pub open spec fn distance(self, name: Seq<char>, from: nat) -> Option<nat>
        decreases self.scopes.len() - from,
    {
        if from >= self.scopes.len() {
            None
        } else if self.scopes[self.scopes.len() - 1 - from].contains_key(name) {
            Some(from)
        } else {
            self.distance(name, from + 1)
        }
    }

    /// Records the distance of the site `id` of the variable `name`, where
    /// a scope holds the name. A name that no scope holds is global, and
    /// nothing is recorded.
    pub open spec fn note(self, id: usize, name: Token) -> Scopes {
        match self.distance(name.lexeme@, 0) {
            Some(d) => Scopes { locals: self.locals.insert(id, d as usize), ..self },
            None => self,
        }
    }

    /// The name is declared in the innermost scope and not yet defined.
    pub open spec fn pending(self, name: Seq<char>) -> bool {
        self.scopes.len() > 0 && self.scopes.last().contains_key(name) && !self.scopes.last()[name]
    }

    /// Resolves the variables of an expression, in the order of evaluation.
    pub open spec fn resolve_expr(self, e: Expr) -> Resolved
        decreases e, 0nat,
    {
        match e {
            Expr::Variable(id, name) => if self.pending(name.lexeme@) {
                stopped(
                    self,
                    name.lexeme@,
                    "Can't read local variable in its own initializer"@,
                    name.line,
                )
            } else {
                passed(self.note(id, name))
            },
            Expr::Assign(id, name, value) => {
                let r = self.resolve_expr(*value);
                if r.error is Some {
                    r
                } else {
                    passed(r.state.note(id, name))
                }
            },
            Expr::Unary { operator, right } => self.resolve_expr(*right),
            Expr::Binary { operator, left, right } => {
                let r = self.resolve_expr(*left);
                if r.error is Some {
                    r
                } else {
                    r.state.resolve_expr(*right)
                }
            },
            Expr::Logical { operator, left, right } => {
                let r = self.resolve_expr(*left);
                if r.error is Some {
                    r
                } else {
                    r.state.resolve_expr(*right)
                }
            },
            Expr::Call { callee, paren, arguments } => {
                let r = self.resolve_expr(*callee);
                if r.error is Some {
                    r
                } else {
                    r.state.resolve_exprs(arguments@, 0)
                }
            },
            Expr::Grouping(inner) => self.resolve_expr(*inner),
            _ => passed(self),
        }
    }

    /// Resolves the expressions of `list` from `from` on, in order.
    pub open spec fn resolve_exprs(self, list: Seq<Expr>, from: nat) -> Resolved
        decreases list, list.len() - from,
    {
        if from >= list.len() {
            passed(self)
        } else {
            let r = self.resolve_expr(list[from as int]);
            if r.error is Some {
                r
            } else {
                r.state.resolve_exprs(list, from + 1)
            }
        }
    }

    /// Resolves a statement. A block and a function body open a scope; a
    /// variable is declared before and defined behind its initializer.
    pub open spec fn resolve_stmt(self, s: Stmt) -> Resolved
        decreases s, 0nat,
    {
        match s {
            Stmt::Block(list) => {
                let r = self.begin().resolve_stmts(list@, 0);
                if r.error is Some {
                    r
                } else {
                    passed(r.state.end())
                }
            },
            Stmt::Expression(e) => self.resolve_expr(e),
            Stmt::Print(e) => self.resolve_expr(e),
            Stmt::If { condition, then_branch, else_branch } => {
                let c = self.resolve_expr(condition);
                if c.error is Some {
                    c
                } else {
                    let t = c.state.resolve_stmt(*then_branch);
                    if t.error is Some {
                        t
                    } else {
                        match else_branch {
                            Some(branch) => t.state.resolve_stmt(*branch),
                            None => t,
                        }
                    }
                }
            },
            Stmt::Return(keyword, value) => if self.current_function == FunctionType::TopLevel {
                stopped(self, Seq::empty(), "Can't return from top-level code."@, keyword.line)
            } else {
                match value {
                    Some(e) => self.resolve_expr(e),
                    None => passed(self),
                }
            },
            Stmt::Var(name, initializer) => {
                let d = self.declare(name);
                if d.error is Some {
                    d
                } else {
                    let r = d.state.resolve_expr(initializer);
                    if r.error is Some {
                        r
                    } else {
                        passed(r.state.define(name))
                    }
                }
            },
            Stmt::While { condition, body } => {
                let c = self.resolve_expr(condition);
                if c.error is Some {
                    c
                } else {
                    c.state.resolve_stmt(*body)
                }
            },
            Stmt::Function { name, params, body } => {
                let d = self.declare(name);
                if d.error is Some {
                    d
                } else {
                    d.state.define(name).resolve_function(params@, *body, FunctionType::Function)
                }
            },
        }
    }

    /// Resolves the statements of `list` from `from` on, in order.
    pub open spec fn resolve_stmts(self, list: Seq<Stmt>, from: nat) -> Resolved
        decreases list, list.len() - from,
    {
        if from >= list.len() {
            passed(self)
        } else {
            let r = self.resolve_stmt(list[from as int]);
            if r.error is Some {
                r
            } else {
                r.state.resolve_stmts(list, from + 1)
            }
        }
    }

    /// Declares and defines the parameters of `params` from `from` on.
    pub open spec fn parameters(self, params: Seq<Token>, from: nat) -> Resolved
        decreases params.len() - from,
    {
        if from >= params.len() {
            passed(self)
        } else {
            let d = self.declare(params[from as int]);
            if d.error is Some {
                d
            } else {
                d.state.define(params[from as int]).parameters(params, from + 1)
            }
        }
    }

    /// Resolves a function: its parameters in a scope of their own, then
    /// its body, as code of the given kind.
    pub open spec fn resolve_function(self, params: Seq<Token>, body: Stmt, kind: FunctionType) -> Resolved
        decreases body, 1nat,
    {
        let p = (Scopes { current_function: kind, ..self.begin() }).parameters(params, 0);
        if p.error is Some {
            p
        } else {
            let r = p.state.resolve_stmt(body);
            if r.error is Some {
                r
            } else {
                passed(Scopes { current_function: self.current_function, ..r.state.end() })
            }
        }
    }
}

/// The expression reads the variable `name` somewhere.
pub open spec fn reads(e: Expr, name: Seq<char>) -> bool
    decreases e,
{
    match e {
        Expr::Variable(_, token) => token.lexeme@ == name,
        Expr::Assign(_, _, value) => reads(*value, name),
        Expr::Unary { operator, right } => reads(*right, name),
        Expr::Binary { operator, left, right } => reads(*left, name) || reads(*right, name),
        Expr::Logical { operator, left, right } => reads(*left, name) || reads(*right, name),
        Expr::Call { callee, paren, arguments } => reads(*callee, name) || exists|i: int|
            0 <= i < arguments@.len() && reads(#[trigger] arguments@[i], name),
        Expr::Grouping(inner) => reads(*inner, name),
        _ => false,
    }
}

/// Resolving expressions opens and closes no scope.
pub proof fn lemma_expr_keeps_scopes(state: Scopes, e: Expr)
    ensures
        state.resolve_expr(e).state.scopes == state.scopes,
        state.resolve_expr(e).state.current_function == state.current_function,
    decreases e, 0nat,
{
    match e {
        Expr::Assign(id, name, value) => {
            lemma_expr_keeps_scopes(state, *value);
        },
        Expr::Unary { operator, right } => {
            lemma_expr_keeps_scopes(state, *right);
        },
        Expr::Binary { operator, left, right } => {
            lemma_expr_keeps_scopes(state, *left);
            lemma_expr_keeps_scopes(state.resolve_expr(*left).state, *right);
        },
        Expr::Logical { operator, left, right } => {
            lemma_expr_keeps_scopes(state, *left);
            lemma_expr_keeps_scopes(state.resolve_expr(*left).state, *right);
        },
        Expr::Call { callee, paren, arguments } => {
            lemma_expr_keeps_scopes(state, *callee);
            lemma_exprs_keep_scopes(state.resolve_expr(*callee).state, arguments@, 0);
        },
        Expr::Grouping(inner) => {
            lemma_expr_keeps_scopes(state, *inner);
        },
        _ => {},
    }
}

pub proof fn lemma_exprs_keep_scopes(state: Scopes, list: Seq<Expr>, from: nat)
    ensures
        state.resolve_exprs(list, from).state.scopes == state.scopes,
        state.resolve_exprs(list, from).state.current_function == state.current_function,
    decreases list, list.len() - from,
{
    if from < list.len() {
        lemma_expr_keeps_scopes(state, list[from as int]);
        lemma_exprs_keep_scopes(state.resolve_expr(list[from as int]).state, list, from + 1);
    }
}

/// As many scopes are open in `after` as in `before`, around code of
/// the same kind.
pub open spec fn settled(before: Scopes, after: Scopes) -> bool {
    after.scopes.len() == before.scopes.len() && after.current_function == before.current_function
}

proof fn lemma_parameters_settle(state: Scopes, params: Seq<Token>, from: nat)
    ensures
        settled(state, state.parameters(params, from).state),
    decreases params.len() - from,
{
    if from < params.len() {
        let d = state.declare(params[from as int]);
        if d.error is None {
            lemma_parameters_settle(d.state.define(params[from as int]), params, from + 1);
        }
    }
}

proof fn lemma_function_settles(state: Scopes, params: Seq<Token>, body: Stmt, kind: FunctionType)
    requires
        state.resolve_function(params, body, kind).error is None,
    ensures
        settled(state, state.resolve_function(params, body, kind).state),
    decreases body, 2nat,
{
    let inner = Scopes { current_function: kind, ..state.begin() };
    lemma_parameters_settle(inner, params, 0);
    let p = inner.parameters(params, 0);
    lemma_statement_settles(p.state, body);
}

proof fn lemma_branches_settle(state: Scopes, s: Stmt)
    requires
        s is If,
        state.resolve_stmt(s).error is None,
    ensures
        settled(state, state.resolve_stmt(s).state),
    decreases s, 0nat,
{
    match s {
        Stmt::If { condition, then_branch, else_branch } => {
            lemma_expr_keeps_scopes(state, condition);
            let c = state.resolve_expr(condition);
            lemma_statement_settles(c.state, *then_branch);
            let t = c.state.resolve_stmt(*then_branch);
            match else_branch {
                Some(branch) => {
                    lemma_statement_settles(t.state, *branch);
                },
                None => {},
            }
        },
        _ => {},
    }
}

proof fn lemma_statement_settles(state: Scopes, s: Stmt)
    requires
        state.resolve_stmt(s).error is None,
    ensures
        settled(state, state.resolve_stmt(s).state),
    decreases s, 1nat,
{
    match s {
        Stmt::Block(list) => {
            lemma_statements_settle(state.begin(), list@, 0);
        },
        Stmt::Expression(e) => {
            lemma_expr_keeps_scopes(state, e);
        },
        Stmt::Print(e) => {
            lemma_expr_keeps_scopes(state, e);
        },
        Stmt::If { condition, then_branch, else_branch } => {
            lemma_branches_settle(state, s);
        },
        Stmt::Return(keyword, value) => {
            match value {
                Some(e) => {
                    lemma_expr_keeps_scopes(state, e);
                },
                None => {},
            }
        },
        Stmt::Var(name, initializer) => {
            lemma_expr_keeps_scopes(state.declare(name).state, initializer);
        },
        Stmt::While { condition, body } => {
            lemma_expr_keeps_scopes(state, condition);
            lemma_statement_settles(state.resolve_expr(condition).state, *body);
        },
        Stmt::Function { name, params, body } => {
            lemma_function_settles(state.declare(name).state.define(name), params@, *body, FunctionType::Function);
        },
    }
}

proof fn lemma_statements_settle(state: Scopes, list: Seq<Stmt>, from: nat)
    requires
        state.resolve_stmts(list, from).error is None,
    ensures
        settled(state, state.resolve_stmts(list, from).state),
    decreases list, list.len() - from,
{
    if from < list.len() {
        lemma_statement_settles(state, list[from as int]);
        lemma_statements_settle(state.resolve_stmt(list[from as int]).state, list, from + 1);
    }
}

/// A pass that succeeds leaves no scope open and no function entered:
/// after it as many scopes are open as before, and the code around is of
/// the kind that it was. A pass that starts outside all scopes at the top
/// level ends there.
pub proof fn law_resolve_closes_what_it_opens(state: Scopes, statements: Seq<Stmt>)
    requires
        state.resolve_stmts(statements, 0).error is None,
    ensures
        state.resolve_stmts(statements, 0).state.scopes.len() == state.scopes.len(),
        state.resolve_stmts(statements, 0).state.current_function == state.current_function,
        state.scopes.len() == 0 ==> state.resolve_stmts(statements, 0).state.scopes == state.scopes,
{
    lemma_statements_settle(state, statements, 0);
    assert(state.scopes.len() == 0 ==> state.resolve_stmts(statements, 0).state.scopes =~= state.scopes);
}

/// An expression that reads a name which is declared in the innermost
/// scope and not yet defined is rejected.
pub proof fn lemma_pending_read_is_rejected(state: Scopes, e: Expr, name: Seq<char>)
    requires
        state.pending(name),
        reads(e, name),
    ensures
        state.resolve_expr(e).error is Some,
    decreases e, 0nat,
{
    match e {
        Expr::Assign(id, token, value) => {
            lemma_pending_read_is_rejected(state, *value, name);
        },
        Expr::Unary { operator, right } => {
            lemma_pending_read_is_rejected(state, *right, name);
        },
        Expr::Binary { operator, left, right } => {
            lemma_expr_keeps_scopes(state, *left);
            if reads(*left, name) {
                lemma_pending_read_is_rejected(state, *left, name);
            } else {
                lemma_pending_read_is_rejected(state.resolve_expr(*left).state, *right, name);
            }
        },
        Expr::Logical { operator, left, right } => {
            lemma_expr_keeps_scopes(state, *left);
            if reads(*left, name) {
                lemma_pending_read_is_rejected(state, *left, name);
            } else {
                lemma_pending_read_is_rejected(state.resolve_expr(*left).state, *right, name);
            }
        },
        Expr::Call { callee, paren, arguments } => {
            lemma_expr_keeps_scopes(state, *callee);
            if reads(*callee, name) {
                lemma_pending_read_is_rejected(state, *callee, name);
            } else {
                let i = choose|i: int| 0 <= i < arguments@.len() && reads(#[trigger] arguments@[i], name);
                lemma_pending_reads_are_rejected(
                    state.resolve_expr(*callee).state,
                    arguments@,
                    0,
                    i as nat,
                    name,
                );
            }
        },
        Expr::Grouping(inner) => {
            lemma_pending_read_is_rejected(state, *inner, name);
        },
        _ => {},
    }
}

pub proof fn lemma_pending_reads_are_rejected(
    state: Scopes,
    list: Seq<Expr>,
    from: nat,
    at: nat,
    name: Seq<char>,
)
    requires
        state.pending(name),
        from <= at < list.len(),
        reads(list[at as int], name),
    ensures
        state.resolve_exprs(list, from).error is Some,
    decreases list, list.len() - from,
{
    lemma_expr_keeps_scopes(state, list[from as int]);
    if from == at {
        lemma_pending_read_is_rejected(state, list[from as int], name);
    } else if state.resolve_expr(list[from as int]).error is None {
        lemma_pending_reads_are_rejected(
            state.resolve_expr(list[from as int]).state,
            list,
            from + 1,
            at,
            name,
        );
    }
}

/// A local variable cannot be read in its own initializer: the declaration
/// of a name that the innermost scope does not hold yet, with an
/// initializer that reads the name anywhere, is rejected, whatever else
/// the initializer holds. The initializer is resolved behind the
/// declaration and in front of the definition.
pub proof fn law_own_initializer_is_rejected(state: Scopes, name: Token, initializer: Expr)
    requires
        state.scopes.len() > 0,
        !state.scopes.last().contains_key(name.lexeme@),
        reads(initializer, name.lexeme@),
    ensures
        state.resolve_stmt(Stmt::Var(name, initializer)).error is Some,
{
    let declared = state.declare(name).state;
    assert(declared.pending(name.lexeme@));
    lemma_pending_read_is_rejected(declared, initializer, name.lexeme@);
}

/// The resolver. It writes into the binding table of the evaluator that
/// it was made for.
pub struct Resolver<'r, 'a> {
    pub interpreter: &'r mut Interpreter<'a>,
    pub scopes: Vec<Table<bool>>,
    pub current_function: FunctionType,
}

/// The content of the outcome of a part of the pass.
pub open spec fn error_view(r: Result<(), BindingError>) -> Option<BindingErrorView> {
    match r {
        Ok(_) => None,
        Err(e) => Some(e@),
    }
}

impl<'r, 'a> View for Resolver<'r, 'a> {
    type V = Scopes;

    open spec fn view(&self) -> Scopes {
        Scopes {
            scopes: Seq::new(self.scopes@.len(), |i: int| self.scopes@[i].model()),
            locals: self.interpreter.locals@,
            current_function: self.current_function,
        }
    }
}

impl<'r, 'a> Resolver<'r, 'a> {
    /// No scope holds a name twice.
    pub open spec fn wf(&self) -> bool {
        forall|i: int| 0 <= i < self.scopes.len() ==> (#[trigger] self.scopes[i]).wf()
    }

    /// This resolver has gone from the state of `before` to the outcome
    /// `outcome`, and has left all of the evaluator but its binding table
    /// as it was.
    pub open spec fn went(&self, before: &Self, r: Result<(), BindingError>, outcome: Resolved) -> bool {
        &&& self.wf()
        &&& self@ == outcome.state
        &&& error_view(r) == outcome.error
        &&& self.interpreter.same_but_locals(before.interpreter)
    }

    /// A resolver outside all scopes and all functions.
    pub fn new(interpreter: &'r mut Interpreter<'a>) -> (r: Self)
        ensures
            r.wf(),
            *r.interpreter == *old(interpreter),
            *final(r.interpreter) == *final(interpreter),
            r@ == (Scopes {
                scopes: Seq::empty(),
                locals: old(interpreter).locals@,
                current_function: FunctionType::TopLevel,
            }),
    {
        let r = Self { interpreter, scopes: Vec::new(), current_function: FunctionType::TopLevel };
        assert(r@.scopes =~= Seq::empty());
        r
    }

    fn begin_scope(&mut self)
        requires
            old(self).wf(),
        ensures
            final(self).went(old(self), Ok(()), passed(old(self)@.begin())),
            *final(final(self).interpreter) == *final(old(self).interpreter),
    {
        self.scopes.push(Table::new());
        assert(self@.scopes =~= old(self)@.begin().scopes);
    }

    fn end_scope(&mut self)
        requires
            old(self).wf(),
        ensures
            final(self).went(old(self), Ok(()), passed(old(self)@.end())),
            *final(final(self).interpreter) == *final(old(self).interpreter),
    {
        self.scopes.pop();
        assert(self@.scopes =~= old(self)@.end().scopes);
    }

    fn mark(&mut self, name: String, defined: bool)
        requires
            old(self).wf(),
        ensures
            final(self).went(old(self), Ok(()), passed(old(self)@.mark(name@, defined))),
            *final(final(self).interpreter) == *final(old(self).interpreter),
    {
        let n = self.scopes.len();
        if n > 0 {
            self.scopes[n - 1].insert(name, defined);
            assert(self@.scopes =~= old(self)@.mark(name@, defined).scopes);
        }
    }

    fn declare(&mut self, token: &Token) -> (r: Result<(), BindingError>)
        requires
            old(self).wf(),
        ensures
            final(self).went(old(self), r, old(self)@.declare(*token)),
            *final(final(self).interpreter) == *final(old(self).interpreter),
    {
        let n = self.scopes.len();
        if n == 0 {
            return Ok(());
        }
        if self.scopes[n - 1].contains_key(&token.lexeme) {
            return Err(
                BindingError {
                    token: token.lexeme.clone(),
                    message: "Already a variable with this name in the current scope",
                    line: token.line,
                },
            );
        }
        self.mark(token.lexeme.clone(), false);
        Ok(())
    }

    fn define(&mut self, token: &Token)
        requires
            old(self).wf(),
        ensures
            final(self).went(old(self), Ok(()), passed(old(self)@.define(*token))),
            *final(final(self).interpreter) == *final(old(self).interpreter),
    {
        self.mark(token.lexeme.clone(), true);
    }

    fn resolve_local(&mut self, id: usize, token: &Token)
        requires
            old(self).wf(),
        ensures
            final(self).went(old(self), Ok(()), passed(old(self)@.note(id, *token))),
            *final(final(self).interpreter) == *final(old(self).interpreter),
    {
        let n = self.scopes.len();
        let mut d: usize = 0;
        while d < n
            invariant
                self.wf(),
                *self == *old(self),
                n == self.scopes.len(),
                d <= n,
                self@.distance(token.lexeme@, d as nat) == self@.distance(token.lexeme@, 0),
            decreases n - d,
        {
            if self.scopes[n - 1 - d].contains_key(&token.lexeme) {
                self.interpreter.resolve(id, d);
                return ;
            }
            d = d + 1;
        }
    }

    /// Whether the name is declared in the innermost scope and not yet
    /// defined.
    fn pending(&self, token: &Token) -> (r: bool)
        requires
            self.wf(),
        ensures
            r == self@.pending(token.lexeme@),
    {
        let n = self.scopes.len();
        if n == 0 {
            return false;
        }
        match self.scopes[n - 1].get(&token.lexeme) {
            Some(defined) => !*defined,
            None => false,
        }
    }

    /// Resolves the statements in order and stops at the first error. Where
    /// it succeeds, as many scopes are open afterwards as before, around
    /// code of the same kind.
    pub fn resolve(&mut self, statements: &[Stmt]) -> (r: Result<(), BindingError>)
        requires
            old(self).wf(),
        ensures
            final(self).went(old(self), r, old(self)@.resolve_stmts(statements@, 0)),
            *final(final(self).interpreter) == *final(old(self).interpreter),
            r is Ok ==> settled(old(self)@, final(self)@),
        decreases statements@, statements@.len(),
    {
        let ghost goal = self@.resolve_stmts(statements@, 0);
        let mut i: usize = 0;
        while i < statements.len()
            invariant
                self.wf(),
                i <= statements.len(),
                self.interpreter.same_but_locals(old(self).interpreter),
                *final(self.interpreter) == *final(old(self).interpreter),
                goal == old(self)@.resolve_stmts(statements@, 0),
                goal == self@.resolve_stmts(statements@, i as nat),
            decreases statements.len() - i,
        {
            self.resolve_stmt(&statements[i])?;
            i = i + 1;
        }
        proof {
            law_resolve_closes_what_it_opens(old(self)@, statements@);
        }
        Ok(())
    }

    #[verifier::rlimit(80)]
    fn resolve_stmt(&mut self, stmt: &Stmt) -> (r: Result<(), BindingError>)
        requires
            old(self).wf(),
        ensures
            final(self).went(old(self), r, old(self)@.resolve_stmt(*stmt)),
            *final(final(self).interpreter) == *final(old(self).interpreter),
        decreases stmt, 0nat,
    {
        match stmt {
            Stmt::Block(stmts) => {
                self.begin_scope();
                self.resolve(stmts.as_slice())?;
                self.end_scope();
            },
            Stmt::Expression(expr) => self.resolve_expr(expr)?,
            Stmt::If { condition, then_branch, else_branch } => {
                self.resolve_expr(condition)?;
                self.resolve_stmt(then_branch)?;
                if let Some(else_branch) = else_branch {
                    self.resolve_stmt(else_branch)?;
                }
            },
            Stmt::Print(expr) => self.resolve_expr(expr)?,
            Stmt::Return(keyword, val) => {
                if self.current_function == FunctionType::TopLevel {
                    return Err(
                        BindingError {
                            token: String::new(),
                            message: "Can't return from top-level code.",
                            line: keyword.line,
                        },
                    );
                }
                if let Some(val) = val {
                    self.resolve_expr(val)?;
                }
            },
            Stmt::Var(token, initializer) => {
                self.declare(token)?;
                self.resolve_expr(initializer)?;
                self.define(token);
            },
            Stmt::While { condition, body } => {
                self.resolve_expr(condition)?;
                self.resolve_stmt(body)?;
            },
            Stmt::Function { name, params, body } => {
                self.declare(name)?;
                self.define(name);
                self.resolve_function_stmt(params, body, FunctionType::Function)?;
            },
        }
        Ok(())
    }

    #[verifier::loop_isolation(false)]
    fn resolve_function_stmt(&mut self, params: &Vec<Token>, body: &Stmt, fn_type: FunctionType) -> (r:
        Result<(), BindingError>)
        requires
            old(self).wf(),
        ensures
            final(self).went(old(self), r, old(self)@.resolve_function(params@, *body, fn_type)),
            *final(final(self).interpreter) == *final(old(self).interpreter),
        decreases body, 1nat,
    {
        let enclosing_fn = self.current_function;
        self.current_function = fn_type;
        self.begin_scope();
        let ghost inner = self@;
        let mut i: usize = 0;
        while i < params.len()
            invariant
                self.wf(),
                i <= params.len(),
                self.interpreter.same_but_locals(old(self).interpreter),
                *final(self.interpreter) == *final(old(self).interpreter),
                self@.parameters(params@, i as nat) == inner.parameters(params@, 0),
            decreases params.len() - i,
        {
            self.declare(&params[i])?;
            self.define(&params[i]);
            i = i + 1;
        }
        self.resolve_stmt(body)?;
        self.end_scope();
        self.current_function = enclosing_fn;
        Ok(())
    }

    #[verifier::loop_isolation(false)]
    fn resolve_expr(&mut self, expr: &Expr) -> (r: Result<(), BindingError>)
        requires
            old(self).wf(),
        ensures
            final(self).went(old(self), r, old(self)@.resolve_expr(*expr)),
            *final(final(self).interpreter) == *final(old(self).interpreter),
        decreases expr, 0nat,
    {
        match expr {
            Expr::Variable(id, token) => {
                if self.pending(token) {
                    return Err(
                        BindingError {
                            token: token.lexeme.clone(),
                            message: "Can't read local variable in its own initializer",
                            line: token.line,
                        },
                    );
                }
                self.resolve_local(*id, token);
            },
            Expr::Assign(id, name, val) => {
                self.resolve_expr(val)?;
                self.resolve_local(*id, name);
            },
            Expr::Unary { right, .. } => self.resolve_expr(right)?,
            Expr::Binary { left, right, .. } => {
                self.resolve_expr(left)?;
                self.resolve_expr(right)?;
            },
            Expr::Call { callee, arguments, .. } => {
                self.resolve_expr(callee)?;
                let ghost start = self@;
                let mut i: usize = 0;
                while i < arguments.len()
                    invariant
                        *expr matches Expr::Call { arguments: a, .. } && a == arguments,
                        self.wf(),
                        i <= arguments.len(),
                        self.interpreter.same_but_locals(old(self).interpreter),
                        *final(self.interpreter) == *final(old(self).interpreter),
                        self@.resolve_exprs(arguments@, i as nat) == start.resolve_exprs(arguments@, 0),
                    decreases arguments.len() - i,
                {
                    self.resolve_expr(&arguments[i])?;
                    i = i + 1;
                }
            },
            Expr::Grouping(expr) => self.resolve_expr(expr)?,
            Expr::Logical { left, right, .. } => {
                self.resolve_expr(left)?;
                self.resolve_expr(right)?;
            },
            _ => {
                return Ok(());
            },
        }
        Ok(())
    }
}

} // verus!
