//! The evaluator: a machine that walks statements and expressions one step
//! at a time. It keeps the work still to do on a stack of tasks and the
//! values computed so far on a stack of values. Arithmetic on numbers and
//! the output are the host's part: a step may ask for them, and the next
//! step takes the answer.
use vstd::prelude::*;
use std::collections::HashMap;
use crate::balance::{balanced, bounded, law_new_is_balanced, law_step_keeps_balance, law_taking_up_keeps_balance};
use crate::callable::Callable;
use crate::environment::{Environment, ScopeView};
use crate::expr::Expr;
use crate::stmt::Stmt;
use crate::machine;
use crate::machine::{ActionView, Applied, Machine, Stepped};
use crate::number::{number_below_epsilon, number_less, number_less_equal, number_negated};
use crate::text::{push_decimal, same_text};
use crate::token::{Token, TokenType};
use crate::value::{ExprValue, Output, RuntimeError, RuntimeErrorView, ValueView, value_views};

verus! {

/// Whether a bare expression statement prints its value (`Evaluate`) or
/// not (`Run`).
#[derive(Clone, Copy, Debug, PartialEq, Eq, Structural)]
pub enum InterpreterStatus {
    Evaluate,
    Run,
}

/// The four operations on numbers that the host computes.
#[derive(Clone, Copy, Debug, PartialEq, Eq, Structural)]
pub enum Arithmetic {
    Add,
    Subtract,
    Multiply,
    Divide,
}

/// A computation on numbers that the host performs. Its answer is a number.
#[derive(Clone, Copy, Debug, PartialEq, Eq)]
pub enum Request<'a> {
    /// The number that a numeral stands for.
    Literal(&'a String),
    /// The result of an operation on two numbers.
    Compute { operation: Arithmetic, left: u64, right: u64 },
}

/// What the answer to a request is for.
#[derive(Clone, Copy, Debug, PartialEq, Eq, Structural)]
pub enum Purpose {
    /// It is the value of the expression.
    Value,
    /// It is the difference of two numbers compared with `==`.
    Equal,
    /// It is the difference of two numbers compared with `!=`.
    NotEqual,
}

/// A piece of work still to do. The last task of the stack is the next.
#[derive(Clone, Copy, Debug, PartialEq, Eq)]
pub enum Task<'a> {
    /// Execute a statement.
    Execute(&'a Stmt),
    /// Execute the statements of `list` from `next` on.
    Statements { list: &'a Vec<Stmt>, next: usize },
    /// Leave a block: make the given frame the current one again.
    Restore(usize),
    /// Evaluate an expression and put its value on the value stack.
    Evaluate(&'a Expr),
    /// Take the value of an expression statement; print it where bare
    /// expressions are printed.
    Discard,
    /// Take a value and print it.
    Print,
    /// Take a value and bind it to the name in the current frame.
    Define(&'a Token),
    /// Take the value of a condition and execute the branch it selects.
    Branch { then_branch: &'a Stmt, else_branch: &'a Option<Box<Stmt>> },
    /// Take the value of a loop's condition; while it holds, execute the
    /// body and evaluate the condition anew.
    Loop { condition: &'a Expr, body: &'a Stmt },
    /// Take the value of a `return` and hand it to the innermost call.
    Return,
    /// Take an operand and apply a unary operator.
    Unary(&'a Token),
    /// Take two operands and apply a binary operator.
    Binary(&'a Token),
    /// Take a value and assign it to the variable of the given site.
    Assign { id: usize, name: &'a Token },
    /// Take the left operand of `and` or `or` and decide whether the right
    /// one is evaluated.
    Logical { operator: &'a Token, right: &'a Expr },
    /// Evaluate the arguments from `from` on.
    Arguments { arguments: &'a Vec<Expr>, from: usize },
    /// Take `count` arguments and the callee below them, and call it.
    Invoke { paren: &'a Token, count: usize },
    /// The end of a function's body: make the caller's frame the current
    /// one again and give the call its value.
    Finish { environment: usize, height: usize },
    /// Wait for the host's answer to a request.
    Await { request: Request<'a>, purpose: Purpose },
}

/// The evaluator's state.
pub struct Interpreter<'a> {
    /// The handle of the current frame.
    pub environment: usize,
    pub status: InterpreterStatus,
    /// The handle of the global frame.
    pub globals: usize,
    /// The binding table: for the site of a local variable, the number of
    /// frames between the current one and the one that declares it.
    pub locals: HashMap<usize, usize>,
    pub frames: Environment<'a>,
    pub tasks: Vec<Task<'a>>,
    pub values: Vec<ExprValue<'a>>,
}

/// What the host is to do after a step.
#[derive(Debug, PartialEq, Eq)]
pub enum Action<'a> {
    /// Nothing; the evaluator goes on.
    Continue,
    /// Write the output and a line feed.
    Print(Output),
    /// Compute the answer to the request and hand it to the next step.
    Ask(Request<'a>),
    /// Nothing is left to do.
    Finished,
    /// Evaluation has stopped with the error.
    Failed(RuntimeError<'a>),
}

impl<'a> View for Action<'a> {
    type V = ActionView<'a>;

    open spec fn view(&self) -> ActionView<'a> {
        match self {
            Action::Continue => ActionView::Continue,
            Action::Print(output) => ActionView::Print(output@),
            Action::Ask(request) => ActionView::Ask(*request),
            Action::Finished => ActionView::Finished,
            Action::Failed(error) => ActionView::Failed(error@),
        }
    }
}

/// What applying an operator to values comes to.
pub enum Application<'a> {
    /// The result.
    Value(ExprValue<'a>),
    /// The host computes a number, from which the result follows.
    Ask(Request<'a>, Purpose),
    Error(RuntimeError<'a>),
}

impl<'a> View for Application<'a> {
    type V = Applied<'a>;

    open spec fn view(&self) -> Applied<'a> {
        match self {
            Application::Value(value) => Applied::Value(value@),
            Application::Ask(request, purpose) => Applied::Ask(*request, *purpose),
            Application::Error(error) => Applied::Error(error@),
        }
    }
}

impl<'a> View for Interpreter<'a> {
    type V = Machine<'a>;

    open spec fn view(&self) -> Machine<'a> {
        Machine {
            environment: self.environment,
            status: self.status,
            globals: self.globals,
            locals: self.locals@,
            frames: self.frames@,
            tasks: self.tasks@,
            values: value_views(self.values@),
        }
    }
}

fn error_at<'a>(token: &Token, message: &str) -> (r: RuntimeError<'a>)
    ensures
        r@ == machine::error_at::<'a>(*token, message@),
{
    RuntimeError::at(token, String::from_str(message))
}

fn inconsistent<'a>() -> (r: RuntimeError<'a>)
    ensures
        r@ == machine::inconsistent::<'a>(),
{
    RuntimeError::Inconsistent
}

/// The number that an operand holds, or the error that it holds none.
pub fn check_num_operand<'a>(operator: &Token, value: &ExprValue<'a>) -> (r: Result<u64, RuntimeError<'a>>)
    ensures
        match value@ {
            ValueView::Number(n) => r == Ok::<u64, RuntimeError<'a>>(n),
            _ => r is Err && r->Err_0@ == machine::error_at::<'a>(*operator, "Operand must be a number."@),
        },
{
    match value {
        ExprValue::Number(n) => Ok(*n),
        _ => Err(error_at(operator, "Operand must be a number.")),
    }
}

/// The numbers that two operands hold, or the error that they do not.
pub fn check_num_operands<'a>(operator: &Token, left: &ExprValue<'a>, right: &ExprValue<'a>) -> (r: Result<
    (u64, u64),
    RuntimeError<'a>,
>)
    ensures
        match (left@, right@) {
            (ValueView::Number(a), ValueView::Number(b)) => r == Ok::<(u64, u64), RuntimeError<'a>>(
                (a, b),
            ),
            _ => r is Err && r->Err_0@ == machine::error_at::<'a>(*operator, "Operands must be numbers"@),
        },
{
    match (left, right) {
        (ExprValue::Number(a), ExprValue::Number(b)) => Ok((*a, *b)),
        _ => Err(error_at(operator, "Operands must be numbers")),
    }
}

/// Equality of two values, one of which is no number.
pub fn is_equal<'a>(left: &ExprValue<'a>, right: &ExprValue<'a>) -> (r: bool)
    ensures
        r == machine::plainly_equal(left@, right@),
{
    match (left, right) {
        (ExprValue::Nil, ExprValue::Nil) => true,
        (ExprValue::Bool(a), ExprValue::Bool(b)) => *a == *b,
        (ExprValue::String(a), ExprValue::String(b)) => *a == *b,
        _ => false,
    }
}

fn equality<'a>(left: &ExprValue<'a>, right: &ExprValue<'a>, negate: bool) -> (r: Application<'a>)
    ensures
        r@ == machine::equality(left@, right@, negate),
{
    match (left, right) {
        (ExprValue::Number(a), ExprValue::Number(b)) => Application::Ask(
            Request::Compute { operation: Arithmetic::Subtract, left: *a, right: *b },
            if negate {
                Purpose::NotEqual
            } else {
                Purpose::Equal
            },
        ),
        _ => Application::Value(ExprValue::Bool(is_equal(left, right) != negate)),
    }
}

fn numeric<'a>(kind: TokenType, left: u64, right: u64) -> (r: Application<'a>)
    ensures
        r@ == machine::numeric::<'a>(kind, left, right),
{
    match kind {
        TokenType::GREATER => Application::Value(ExprValue::Bool(number_less(right, left))),
        TokenType::GREATEREQUAL => Application::Value(ExprValue::Bool(number_less_equal(right, left))),
        TokenType::LESS => Application::Value(ExprValue::Bool(number_less(left, right))),
        TokenType::LESSEQUAL => Application::Value(ExprValue::Bool(number_less_equal(left, right))),
        TokenType::MINUS => Application::Ask(
            Request::Compute { operation: Arithmetic::Subtract, left, right },
            Purpose::Value,
        ),
        TokenType::SLASH => Application::Ask(
            Request::Compute { operation: Arithmetic::Divide, left, right },
            Purpose::Value,
        ),
        TokenType::STAR => Application::Ask(
            Request::Compute { operation: Arithmetic::Multiply, left, right },
            Purpose::Value,
        ),
        _ => Application::Ask(Request::Compute { operation: Arithmetic::Add, left, right }, Purpose::Value),
    }
}

/// Applies a binary operator to two values.
pub fn evaluate_binary<'a>(operator: &Token, left: ExprValue<'a>, right: ExprValue<'a>) -> (r: Application<
    'a,
>)
    ensures
        r@ == machine::evaluate_binary(*operator, left@, right@),
{
    match operator.token_type {
        TokenType::GREATER | TokenType::GREATEREQUAL | TokenType::LESS | TokenType::LESSEQUAL
        | TokenType::MINUS | TokenType::SLASH | TokenType::STAR => match check_num_operands(
            operator,
            &left,
            &right,
        ) {
            Ok((a, b)) => numeric(operator.token_type, a, b),
            Err(e) => Application::Error(e),
        },
        TokenType::PLUS => match (left, right) {
            (ExprValue::Number(a), ExprValue::Number(b)) => numeric(operator.token_type, a, b),
            (ExprValue::String(a), ExprValue::String(b)) => Application::Value(
                ExprValue::String(a.concat(b.as_str())),
            ),
            _ => Application::Error(
                error_at(operator, "Operands must be two numbers or two strings."),
            ),
        },
        TokenType::NOTEQUAL => equality(&left, &right, true),
        TokenType::EQUAL => equality(&left, &right, false),
        _ => Application::Error(error_at(operator, "Unrecognized binary operator.")),
    }
}

/// Applies a unary operator to a value.
pub fn evaluate_unary<'a>(operator: &Token, right: ExprValue<'a>) -> (r: Application<'a>)
    ensures
        r@ == machine::evaluate_unary(*operator, right@),
{
    match operator.token_type {
        TokenType::BANG => Application::Value(ExprValue::Bool(!right.is_truthy())),
        TokenType::MINUS => match check_num_operand(operator, &right) {
            Ok(n) => Application::Value(ExprValue::Number(number_negated(n))),
            Err(e) => Application::Error(e),
        },
        _ => Application::Error(
            RuntimeError::RTE {
                token: operator.render(),
                message: String::from_str("Invalid operator found in unary expression"),
                line: operator.line,
            },
        ),
    }
}

/// The status that a name stands for.
pub open spec fn status_named(name: Seq<char>) -> Option<InterpreterStatus> {
    if name == "evaluate"@ {
        Some(InterpreterStatus::Evaluate)
    } else if name == "run"@ {
        Some(InterpreterStatus::Run)
    } else {
        None
    }
}

impl<'a> Interpreter<'a> {
    /// The frames are well formed, and the current and the global frame
    /// are among them.
    pub open spec fn wf(&self) -> bool {
        &&& self.frames.wf()
        &&& self@.wf()
    }

    /// The two evaluators differ in their binding tables at most.
    pub open spec fn same_but_locals(&self, other: &Self) -> bool {
        &&& self.environment == other.environment
        &&& self.status == other.status
        &&& self.globals == other.globals
        &&& self.frames == other.frames
        &&& self.tasks == other.tasks
        &&& self.values == other.values
    }

    /// An evaluator with nothing to do, in the global frame, which prints
    /// bare expressions.
    pub fn new() -> (r: Self)
        ensures
            r.wf(),
            r.environment == 0,
            r.globals == 0,
            r.status == InterpreterStatus::Evaluate,
            r.locals@ == Map::<usize, usize>::empty(),
            r.frames@ == seq![
                crate::environment::ScopeView { bindings: Map::empty(), enclosing: None },
            ],
            r.tasks@ == Seq::<Task<'a>>::empty(),
            r.values@ == Seq::<ExprValue<'a>>::empty(),
            balanced(r@),
    {
        let r = Interpreter {
            environment: 0,
            status: InterpreterStatus::Evaluate,
            globals: 0,
            locals: HashMap::new(),
            frames: Environment::new(),
            tasks: Vec::new(),
            values: Vec::new(),
        };
        proof {
            law_new_is_balanced(r@);
        }
        r
    }

    /// Records that the variable of site `id` is declared `depth` frames up
    /// from the frame in which the site is evaluated.
    pub fn resolve(&mut self, id: usize, depth: usize)
        ensures
            final(self).locals@ == old(self).locals@.insert(id, depth),
            final(self).environment == old(self).environment,
            final(self).status == old(self).status,
            final(self).globals == old(self).globals,
            final(self).frames == old(self).frames,
            final(self).tasks == old(self).tasks,
            final(self).values == old(self).values,
    {
        self.locals.insert(id, depth);
    }

    /// Sets whether bare expressions are printed: `evaluate` or `run`.
    pub fn set_status(&mut self, status: &str) -> (r: Result<(), String>)
        ensures
            match status_named(status@) {
                Some(s) => r is Ok && final(self).status == s,
                None => r is Err && r->Err_0@
                    == "should only accept `evaluate` and `run` string values"@ && final(self).status
                    == old(self).status,
            },
            final(self).environment == old(self).environment,
            final(self).globals == old(self).globals,
            final(self).locals == old(self).locals,
            final(self).frames == old(self).frames,
            final(self).tasks == old(self).tasks,
            final(self).values == old(self).values,
    {
        if same_text(status, "evaluate") {
            self.status = InterpreterStatus::Evaluate;
            Ok(())
        } else if same_text(status, "run") {
            self.status = InterpreterStatus::Run;
            Ok(())
        } else {
            Err(String::from_str("should only accept `evaluate` and `run` string values"))
        }
    }

    /// The stacks and the frames of an evaluator are no more than it can
    /// hold.
    pub proof fn lemma_bounded(&self)
        ensures
            bounded(self@),
    {
        assert(self.values@.len() == self.values.len());
        assert(self.frames.frames@.len() == self.frames.frames.len());
    }

    /// The evaluator is well formed, in the state `outcome.machine`, and
    /// `action` is `outcome.action`.
    pub open spec fn stepped(&self, action: Action<'a>, outcome: Stepped<'a>) -> bool {
        self.wf() && self@ == outcome.machine && action@ == outcome.action
    }

    fn push(&mut self, task: Task<'a>)
        requires
            old(self).wf(),
        ensures
            final(self).wf(),
            final(self)@ == old(self)@.push(task),
    {
        self.tasks.push(task);
    }

    fn give(&mut self, value: ExprValue<'a>)
        requires
            old(self).wf(),
        ensures
            final(self).wf(),
            final(self)@ == old(self)@.give(value@),
    {
        self.values.push(value);
        assert(value_views(self.values@) =~= value_views(old(self).values@).push(value@));
    }

    /// Takes the topmost value off the stack, if there is one.
    fn take(&mut self) -> (r: Option<ExprValue<'a>>)
        requires
            old(self).wf(),
        ensures
            final(self).wf(),
            match r {
                Some(value) => old(self)@.values.len() > 0 && value@ == old(self)@.values.last()
                    && final(self)@ == old(self)@.taken(),
                None => old(self)@.values.len() == 0 && final(self)@ == old(self)@,
            },
    {
        let r = self.values.pop();
        assert(value_views(self.values@) =~= value_views(old(self).values@).drop_last() || old(
            self,
        ).values@.len() == 0);
        r
    }

    /// The frame that is current once every block and call under way is
    /// left.
    fn base(&self) -> (r: usize)
        requires
            self.wf(),
        ensures
            r == self@.base(),
            r < self.frames@.len(),
    {
        let mut from: usize = 0;
        while from < self.tasks.len()
            invariant
                from <= self.tasks.len(),
                self.wf(),
                machine::outermost(self.tasks@, from as nat, self.environment) == machine::outermost(
                    self.tasks@,
                    0,
                    self.environment,
                ),
            decreases self.tasks.len() - from,
        {
            let saved = match self.tasks[from] {
                Task::Restore(frame) => Some(frame),
                Task::Finish { environment, .. } => Some(environment),
                _ => None,
            };
            if let Some(frame) = saved {
                return if frame < self.frames.len() {
                    frame
                } else {
                    self.globals
                };
            }
            from = from + 1;
        }
        self.environment
    }

    fn fail(&mut self, error: RuntimeError<'a>) -> (action: Action<'a>)
        requires
            old(self).wf(),
        ensures
            final(self).stepped(action, old(self)@.fail(error@)),
    {
        self.environment = self.base();
        self.tasks.clear();
        self.values.clear();
        assert(value_views(self.values@) =~= Seq::empty());
        Action::Failed(error)
    }

    fn apply(&mut self, applied: Application<'a>) -> (action: Action<'a>)
        requires
            old(self).wf(),
        ensures
            final(self).stepped(action, old(self)@.apply(applied@)),
    {
        match applied {
            Application::Value(value) => {
                self.give(value);
                Action::Continue
            },
            Application::Ask(request, purpose) => {
                self.push(Task::Await { request, purpose });
                Action::Ask(request)
            },
            Application::Error(error) => self.fail(error),
        }
    }

    fn receive(&mut self, purpose: Purpose, answer: u64) -> (action: Action<'a>)
        requires
            old(self).wf(),
        ensures
            final(self).stepped(action, old(self)@.receive(purpose, answer)),
    {
        self.give(
            match purpose {
                Purpose::Value => ExprValue::Number(answer),
                Purpose::Equal => ExprValue::Bool(number_below_epsilon(answer)),
                Purpose::NotEqual => ExprValue::Bool(!number_below_epsilon(answer)),
            },
        );
        Action::Continue
    }

    /// Enters a block: a new frame inside the current one, or the given
    /// frame, becomes the current one for the statements.
    pub fn eval_block_stmt(&mut self, statements: &'a Vec<Stmt>, environment: Option<usize>) -> (action:
        Action<'a>)
        requires
            old(self).wf(),
        ensures
            final(self).stepped(action, old(self)@.eval_block_stmt(statements, environment)),
    {
        let frame = match environment {
            Some(frame) => {
                if frame >= self.frames.len() {
                    return self.fail(inconsistent());
                }
                frame
            },
            None => self.frames.with_enclosing(self.environment),
        };
        self.push(Task::Restore(self.environment));
        self.push(Task::Statements { list: statements, next: 0 });
        self.environment = frame;
        Action::Continue
    }

    fn eval_function_stmt(&mut self, name: &'a Token, params: &'a Vec<Token>, body: &'a Stmt) -> (action:
        Action<'a>)
        requires
            old(self).wf(),
        ensures
            final(self).stepped(action, old(self)@.eval_function_stmt(name, params, body)),
    {
        let function = Callable { name, params, body, closure: self.environment };
        self.frames.define(self.environment, name.lexeme.clone(), ExprValue::Call(function));
        Action::Continue
    }

    fn execute(&mut self, stmt: &'a Stmt) -> (action: Action<'a>)
        requires
            old(self).wf(),
        ensures
            final(self).stepped(action, old(self)@.execute(stmt)),
    {
        match stmt {
            Stmt::Expression(expr) => {
                self.push(Task::Discard);
                self.push(Task::Evaluate(expr));
            },
            Stmt::Print(expr) => {
                self.push(Task::Print);
                self.push(Task::Evaluate(expr));
            },
            Stmt::Var(name, initializer) => {
                self.push(Task::Define(name));
                self.push(Task::Evaluate(initializer));
            },
            Stmt::Block(statements) => {
                return self.eval_block_stmt(statements, None);
            },
            Stmt::If { condition, then_branch, else_branch } => {
                self.push(Task::Branch { then_branch, else_branch });
                self.push(Task::Evaluate(condition));
            },
            Stmt::While { condition, body } => {
                self.push(Task::Loop { condition, body });
                self.push(Task::Evaluate(condition));
            },
            Stmt::Function { name, params, body } => {
                return self.eval_function_stmt(name, params, body);
            },
            Stmt::Return(_, value) => {
                match value {
                    Some(expr) => {
                        self.push(Task::Return);
                        self.push(Task::Evaluate(expr));
                    },
                    None => {
                        self.give(ExprValue::Nil);
                        self.push(Task::Return);
                    },
                }
            },
        }
        Action::Continue
    }

    fn statements(&mut self, list: &'a Vec<Stmt>, next: usize) -> (action: Action<'a>)
        requires
            old(self).wf(),
        ensures
            final(self).stepped(action, old(self)@.statements(list, next)),
    {
        if next < list.len() {
            self.push(Task::Statements { list, next: next + 1 });
            self.push(Task::Execute(&list[next]));
        }
        Action::Continue
    }

    fn restore(&mut self, frame: usize) -> (action: Action<'a>)
        requires
            old(self).wf(),
        ensures
            final(self).stepped(action, old(self)@.restore(frame)),
    {
        if frame < self.frames.len() {
            self.environment = frame;
            Action::Continue
        } else {
            self.fail(inconsistent())
        }
    }

    /// The value of the variable of site `id`.
    fn look_up_var(&self, id: usize, name: &Token) -> (r: Option<ExprValue<'a>>)
        requires
            self.wf(),
        ensures
            match self@.look_up_var(id, *name) {
                Some(value) => r is Some && r->0@ == value,
                None => r is None,
            },
    {
        match self.locals.get(&id) {
            Some(distance) => self.frames.get_at(self.environment, *distance, name),
            None => match self.frames.get(self.globals, name) {
                Ok(value) => Some(value),
                Err(_) => None,
            },
        }
    }

    /// Starts the evaluation of an expression.
    pub fn evaluate(&mut self, expr: &'a Expr) -> (action: Action<'a>)
        requires
            old(self).wf(),
        ensures
            final(self).stepped(action, old(self)@.evaluate(expr)),
    {
        match expr {
            Expr::Number(text) => {
                return self.apply(Application::Ask(Request::Literal(text), Purpose::Value));
            },
            Expr::String(text) => {
                self.give(ExprValue::String(text.clone()));
            },
            Expr::Bool(b) => {
                self.give(ExprValue::Bool(*b));
            },
            Expr::Nil => {
                self.give(ExprValue::Nil);
            },
            Expr::Grouping(inner) => {
                self.push(Task::Evaluate(inner));
            },
            Expr::Unary { operator, right } => {
                self.push(Task::Unary(operator));
                self.push(Task::Evaluate(right));
            },
            Expr::Binary { operator, left, right } => {
                self.push(Task::Binary(operator));
                self.push(Task::Evaluate(right));
                self.push(Task::Evaluate(left));
            },
            Expr::Variable(id, name) => {
                match self.look_up_var(*id, name) {
                    Some(value) => {
                        self.give(value);
                    },
                    None => {
                        if self.locals.get(id).is_some() {
                            return self.fail(inconsistent());
                        }
                        let mut message = String::from_str("Undefined variable '");
                        message.append(name.lexeme.as_str());
                        message.append("'.");
                        return self.fail(RuntimeError::at(name, message));
                    },
                }
            },
            Expr::Assign(id, name, value) => {
                self.push(Task::Assign { id: *id, name });
                self.push(Task::Evaluate(value));
            },
            Expr::Logical { operator, left, right } => {
                self.push(Task::Logical { operator, right });
                self.push(Task::Evaluate(left));
            },
            Expr::Call { callee, paren, arguments } => {
                self.push(Task::Invoke { paren, count: arguments.len() });
                self.push(Task::Arguments { arguments, from: 0 });
                self.push(Task::Evaluate(callee));
            },
        }
        Action::Continue
    }

    fn eval_expr_stmt(&mut self, value: ExprValue<'a>) -> (action: Action<'a>)
        requires
            old(self).wf(),
        ensures
            final(self).stepped(action, old(self)@.eval_expr_stmt(value@)),
    {
        if self.status == InterpreterStatus::Evaluate {
            Action::Print(value.display())
        } else {
            Action::Continue
        }
    }

    fn eval_print_stmt(&mut self, value: ExprValue<'a>) -> (action: Action<'a>)
        requires
            old(self).wf(),
        ensures
            final(self).stepped(action, old(self)@.eval_print_stmt(value@)),
    {
        Action::Print(value.display())
    }

    fn eval_var_stmt(&mut self, name: &'a Token, value: ExprValue<'a>) -> (action: Action<'a>)
        requires
            old(self).wf(),
        ensures
            final(self).stepped(action, old(self)@.eval_var_stmt(name, value@)),
    {
        self.frames.define(self.environment, name.lexeme.clone(), value);
        Action::Continue
    }

    fn eval_if_stmt(
        &mut self,
        then_branch: &'a Stmt,
        else_branch: &'a Option<Box<Stmt>>,
        value: ExprValue<'a>,
    ) -> (action: Action<'a>)
        requires
            old(self).wf(),
        ensures
            final(self).stepped(action, old(self)@.eval_if_stmt(then_branch, else_branch, value@)),
    {
        if value.is_truthy() {
            self.push(Task::Execute(then_branch));
        } else if let Some(branch) = else_branch {
            self.push(Task::Execute(branch));
        }
        Action::Continue
    }

    fn eval_while_stmt(&mut self, condition: &'a Expr, body: &'a Stmt, value: ExprValue<'a>) -> (action:
        Action<'a>)
        requires
            old(self).wf(),
        ensures
            final(self).stepped(action, old(self)@.eval_while_stmt(condition, body, value@)),
    {
        if value.is_truthy() {
            self.push(Task::Loop { condition, body });
            self.push(Task::Evaluate(condition));
            self.push(Task::Execute(body));
        }
        Action::Continue
    }

    /// Where the innermost call boundary stands among the tasks.
    fn boundary(&self) -> (r: Option<usize>)
        ensures
            match r {
                Some(at) => machine::boundary(self.tasks@, self.tasks@.len()) == Some(at as nat) && at
                    < self.tasks@.len(),
                None => machine::boundary(self.tasks@, self.tasks@.len()) is None,
            },
    {
        let mut count = self.tasks.len();
        while count > 0
            invariant
                count <= self.tasks.len(),
                machine::boundary(self.tasks@, count as nat) == machine::boundary(
                    self.tasks@,
                    self.tasks@.len(),
                ),
            decreases count,
        {
            if let Task::Finish { .. } = self.tasks[count - 1] {
                return Some(count - 1);
            }
            count = count - 1;
        }
        None
    }

    /// Ends a call: the values it left are dropped, `value` is its value,
    /// and the caller's frame is the current one again.
    fn leave(&mut self, environment: usize, height: usize, value: ExprValue<'a>) -> (action: Action<'a>)
        requires
            old(self).wf(),
        ensures
            final(self).stepped(
                action,
                if environment < old(self)@.frames.len() && height <= old(self)@.values.len() {
                    (Machine {
                        values: old(self)@.values.subrange(0, height as int).push(value@),
                        environment,
                        ..old(self)@
                    }).goes_on()
                } else {
                    old(self)@.fail(machine::inconsistent())
                },
            ),
    {
        if environment < self.frames.len() && height <= self.values.len() {
            self.values.truncate(height);
            self.values.push(value);
            self.environment = environment;
            assert(value_views(self.values@) =~= value_views(old(self).values@).subrange(
                0,
                height as int,
            ).push(value@));
            Action::Continue
        } else {
            self.fail(inconsistent())
        }
    }

    fn eval_return_stmt(&mut self, value: ExprValue<'a>) -> (action: Action<'a>)
        requires
            old(self).wf(),
        ensures
            final(self).stepped(action, old(self)@.eval_return_stmt(value@)),
    {
        match self.boundary() {
            Some(at) => {
                match self.tasks[at] {
                    Task::Finish { environment, height } => {
                        if environment < self.frames.len() && height <= self.values.len() {
                            self.tasks.truncate(at);
                        }
                        self.leave(environment, height, value)
                    },
                    _ => self.fail(inconsistent()),
                }
            },
            None => self.fail(RuntimeError::Return(value)),
        }
    }

    fn finish(&mut self, environment: usize, height: usize) -> (action: Action<'a>)
        requires
            old(self).wf(),
        ensures
            final(self).stepped(action, old(self)@.finish(environment, height)),
    {
        self.leave(environment, height, ExprValue::Nil)
    }

    fn eval_assign(&mut self, id: usize, name: &'a Token, value: ExprValue<'a>) -> (action: Action<'a>)
        requires
            old(self).wf(),
        ensures
            final(self).stepped(action, old(self)@.eval_assign(id, name, value@)),
    {
        let assigned = match self.locals.get(&id) {
            Some(distance) => self.frames.assign_at(self.environment, *distance, name, value.clone()),
            None => self.frames.assign(self.globals, name, value.clone()).is_ok(),
        };
        assert(self.frames@.len() == old(self).frames@.len());
        if assigned {
            self.give(value);
            Action::Continue
        } else if self.locals.get(&id).is_some() {
            self.fail(inconsistent())
        } else {
            let mut message = String::from_str("Undefined variable '");
            message.append(name.lexeme.as_str());
            message.append("'");
            self.fail(RuntimeError::at(name, message))
        }
    }

    fn evaluate_logical(&mut self, operator: &'a Token, right: &'a Expr, left: ExprValue<'a>) -> (action:
        Action<'a>)
        requires
            old(self).wf(),
        ensures
            final(self).stepped(action, old(self)@.evaluate_logical(operator, right, left@)),
    {
        if (operator.token_type == TokenType::OR) == left.is_truthy() {
            self.give(left);
        } else {
            self.push(Task::Evaluate(right));
        }
        Action::Continue
    }

    fn arguments(&mut self, arguments: &'a Vec<Expr>, from: usize) -> (action: Action<'a>)
        requires
            old(self).wf(),
        ensures
            final(self).stepped(action, old(self)@.arguments(arguments, from)),
    {
        if from < arguments.len() {
            self.push(Task::Arguments { arguments, from: from + 1 });
            self.push(Task::Evaluate(&arguments[from]));
        }
        Action::Continue
    }

    fn evaluate_call(&mut self, paren: &'a Token, count: usize) -> (action: Action<'a>)
        requires
            old(self).wf(),
        ensures
            final(self).stepped(action, old(self)@.evaluate_call(paren, count)),
    {
        let n = self.values.len();
        if count >= n {
            return self.fail(inconsistent());
        }
        let arguments = self.values.split_off(n - count);
        let callee = self.values.pop();
        assert(value_views(self.values@) =~= old(self)@.values.subrange(0, n - count - 1));
        assert(value_views(arguments@) =~= old(self)@.values.subrange(n - count, n as int));
        match callee {
            Some(ExprValue::Call(function)) => {
                let arity = function.arity();
                if arity != count {
                    let mut message = String::from_str("Expected ");
                    push_decimal(&mut message, arity);
                    message.append(" arguments but got ");
                    push_decimal(&mut message, count);
                    message.append(".");
                    assert(message@ =~= machine::arity_mismatch(arity as nat, count as nat));
                    return self.fail(RuntimeError::at(paren, message));
                }
                function.call(self, arguments)
            },
            _ => self.fail(error_at(paren, "Can only call functions and methods")),
        }
    }

    /// Carries out a task that takes the topmost value.
    fn proceed(&mut self, task: Task<'a>) -> (action: Action<'a>)
        requires
            old(self).wf(),
        ensures
            final(self).stepped(action, old(self)@.proceed(task)),
    {
        let value = match self.take() {
            Some(value) => value,
            None => {
                return self.fail(inconsistent());
            },
        };
        match task {
            Task::Discard => self.eval_expr_stmt(value),
            Task::Print => self.eval_print_stmt(value),
            Task::Define(name) => self.eval_var_stmt(name, value),
            Task::Branch { then_branch, else_branch } => self.eval_if_stmt(then_branch, else_branch, value),
            Task::Loop { condition, body } => self.eval_while_stmt(condition, body, value),
            Task::Return => self.eval_return_stmt(value),
            Task::Unary(operator) => self.apply(evaluate_unary(operator, value)),
            Task::Binary(operator) => match self.take() {
                Some(left) => self.apply(evaluate_binary(operator, left, value)),
                None => self.fail(inconsistent()),
            },
            Task::Assign { id, name } => self.eval_assign(id, name, value),
            Task::Logical { operator, right } => self.evaluate_logical(operator, right, value),
            _ => self.fail(inconsistent()),
        }
    }

    /// One step of the evaluation. `answer` is the host's answer to the
    /// request of the step before, if that step made one.
    pub fn step(&mut self, answer: Option<u64>) -> (action: Action<'a>)
        requires
            old(self).wf(),
        ensures
            final(self).stepped(action, old(self)@.step(answer)),
            balanced(old(self)@) ==> balanced(final(self)@) && (action@ == ActionView::Failed(
                machine::inconsistent(),
            ) ==> old(self)@.strays()),
    {
        proof {
            self.lemma_bounded();
            if balanced(self@) {
                law_step_keeps_balance(self@, answer);
            }
        }
        let task = match self.tasks.pop() {
            Some(task) => task,
            None => {
                return Action::Finished;
            },
        };
        match task {
            Task::Await { request, purpose } => match answer {
                Some(bits) => self.receive(purpose, bits),
                None => {
                    self.tasks.push(task);
                    assert(self.tasks@ =~= old(self).tasks@);
                    Action::Ask(request)
                },
            },
            Task::Execute(stmt) => self.execute(stmt),
            Task::Statements { list, next } => self.statements(list, next),
            Task::Restore(frame) => self.restore(frame),
            Task::Evaluate(expr) => self.evaluate(expr),
            Task::Arguments { arguments, from } => self.arguments(arguments, from),
            Task::Invoke { paren, count } => self.evaluate_call(paren, count),
            Task::Finish { environment, height } => self.finish(environment, height),
            task => self.proceed(task),
        }
    }

    /// Takes up a program: its statements are the next to execute, in the
    /// current frame.
    pub fn interpret(&mut self, statements: &'a Vec<Stmt>)
        requires
            old(self).wf(),
        ensures
            final(self).wf(),
            final(self)@ == old(self)@.interpret(statements),
            balanced(old(self)@) ==> balanced(final(self)@),
    {
        proof {
            if balanced(self@) {
                law_taking_up_keeps_balance(self@, statements);
            }
        }
        self.push(Task::Statements { list: statements, next: 0 });
    }

    /// Takes steps until the host has something to do, and `fuel` steps at
    /// most. After `Continue` the evaluation is not over: run again.
    pub fn run(&mut self, answer: Option<u64>, fuel: usize) -> (action: Action<'a>)
        requires
            old(self).wf(),
        ensures
            final(self).stepped(action, old(self)@.run(answer, fuel as nat)),
            balanced(old(self)@) ==> balanced(final(self)@),
    {
        let mut left = fuel;
        let mut next = answer;
        while left > 0
            invariant
                self.wf(),
                self@.run(next, left as nat) == old(self)@.run(answer, fuel as nat),
                balanced(old(self)@) ==> balanced(self@),
            decreases left,
        {
            let action = self.step(next);
            match action {
                Action::Continue => {},
                _ => {
                    return action;
                },
            }
            next = None;
            left = left - 1;
        }
        Action::Continue
    }
}

impl<'a> Callable<'a> {
    /// Starts a call of this function with the given arguments: a new
    /// frame inside the closure binds the parameters and becomes the
    /// current one, and the body is the next to execute.
    pub fn call(&self, interpreter: &mut Interpreter<'a>, arguments: Vec<ExprValue<'a>>) -> (action:
        Action<'a>)
        requires
            old(interpreter).wf(),
        ensures
            final(interpreter).stepped(action, old(interpreter)@.call(*self, value_views(arguments@))),
    {
        if self.closure >= interpreter.frames.len() {
            return interpreter.fail(inconsistent());
        }
        let frame = interpreter.frames.with_enclosing(self.closure);
        let ghost before = interpreter.frames@;
        let ghost given = value_views(arguments@);
        let count = if self.params.len() <= arguments.len() {
            self.params.len()
        } else {
            arguments.len()
        };
        let mut i: usize = 0;
        while i < count
            invariant
                interpreter.frames.wf(),
                interpreter.environment == old(interpreter).environment,
                interpreter.status == old(interpreter).status,
                interpreter.globals == old(interpreter).globals,
                interpreter.locals == old(interpreter).locals,
                interpreter.tasks == old(interpreter).tasks,
                interpreter.values == old(interpreter).values,
                given == value_views(arguments@),
                frame == old(interpreter).frames@.len(),
                before == old(interpreter).frames@.push(
                    ScopeView { bindings: Map::empty(), enclosing: Some(self.closure) },
                ),
                i <= count,
                count <= self.params@.len(),
                count <= arguments@.len(),
                interpreter.frames@ == before.update(
                    frame as int,
                    ScopeView {
                        bindings: machine::bind_all(Map::empty(), self.params@, given, i as nat),
                        enclosing: Some(self.closure),
                    },
                ),
            decreases count - i,
        {
            interpreter.frames.define(frame, self.params[i].lexeme.clone(), arguments[i].clone());
            i = i + 1;
            assert(interpreter.frames@ =~= before.update(
                frame as int,
                ScopeView {
                    bindings: machine::bind_all(Map::empty(), self.params@, given, i as nat),
                    enclosing: Some(self.closure),
                },
            ));
        }
        assert(interpreter.frames@ =~= old(interpreter).frames@.push(
            ScopeView {
                bindings: machine::bind_all(
                    Map::empty(),
                    self.params@,
                    given,
                    machine::pairs(self.params@, given),
                ),
                enclosing: Some(self.closure),
            },
        ));
        interpreter.tasks.push(
            Task::Finish { environment: interpreter.environment, height: interpreter.values.len() },
        );
        interpreter.tasks.push(Task::Execute(self.body));
        interpreter.environment = frame;
        Action::Continue
    }
}

} // verus!
