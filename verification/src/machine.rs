//! The evaluator as a transition function: from a state and the host's
//! answer to the next state and what the host is to do.
use vstd::prelude::*;
use crate::callable::Callable;
use crate::environment::{ScopeView, ancestor, bind, holder, lookup, undefined_target, undefined_variable};
use crate::expr::Expr;
use crate::interpreter::{Arithmetic, InterpreterStatus, Purpose, Request, Task};
use crate::number::{below_epsilon, less, less_equal, negated};
use crate::stmt::Stmt;
use crate::text::decimal;
use crate::token::{Token, TokenType, token_text};
use crate::value::{OutputView, RuntimeErrorView, ValueView, shown, truthy};

verus! {

/// What the host is to do after a step.
pub enum ActionView<'a> {
    /// Nothing; the evaluator goes on.
    Continue,
    /// Write the output and a line feed.
    Print(OutputView),
    /// Compute the answer to the request and hand it to the next step.
    Ask(Request<'a>),
    /// Nothing is left to do.
    Finished,
    /// Evaluation has stopped with the error.
    Failed(RuntimeErrorView<'a>),
}

/// The mathematical content of the evaluator's state.
pub struct Machine<'a> {
    pub environment: usize,
    pub status: InterpreterStatus,
    pub globals: usize,
    pub locals: Map<usize, usize>,
    pub frames: Seq<ScopeView<'a>>,
    pub tasks: Seq<Task<'a>>,
    pub values: Seq<ValueView<'a>>,
}

/// The outcome of a step.
pub struct Stepped<'a> {
    pub machine: Machine<'a>,
    pub action: ActionView<'a>,
}

/// The error at `token` with the given message.
pub open spec fn error_at<'a>(token: Token, message: Seq<char>) -> RuntimeErrorView<'a> {
    RuntimeErrorView::RTE { token: token.lexeme@, message, line: token.line }
}

/// The error of a state that no evaluation of a rightly resolved program
/// leads to: a value or a frame that a task needs is missing, or a local
/// variable is not where the binding table says.
pub open spec fn inconsistent<'a>() -> RuntimeErrorView<'a> {
    RuntimeErrorView::Inconsistent
}

pub open spec fn arity_mismatch(expected: nat, got: nat) -> Seq<char> {
    "Expected "@ + decimal(expected) + " arguments but got "@ + decimal(got) + "."@
}

/// What applying an operator to values comes to.
pub enum Applied<'a> {
    /// The result.
    Value(ValueView<'a>),
    /// The host computes a number, from which the result follows.
    Ask(Request<'a>, Purpose),
    Error(RuntimeErrorView<'a>),
}

/// A comparison or an arithmetic operation on two numbers.
pub open spec fn numeric<'a>(kind: TokenType, left: u64, right: u64) -> Applied<'a> {
    match kind {
        TokenType::GREATER => Applied::Value(ValueView::Bool(less(right, left))),
        TokenType::GREATEREQUAL => Applied::Value(ValueView::Bool(less_equal(right, left))),
        TokenType::LESS => Applied::Value(ValueView::Bool(less(left, right))),
        TokenType::LESSEQUAL => Applied::Value(ValueView::Bool(less_equal(left, right))),
        TokenType::MINUS => Applied::Ask(
            Request::Compute { operation: Arithmetic::Subtract, left, right },
            Purpose::Value,
        ),
        TokenType::SLASH => Applied::Ask(
            Request::Compute { operation: Arithmetic::Divide, left, right },
            Purpose::Value,
        ),
        TokenType::STAR => Applied::Ask(
            Request::Compute { operation: Arithmetic::Multiply, left, right },
            Purpose::Value,
        ),
        _ => Applied::Ask(Request::Compute { operation: Arithmetic::Add, left, right }, Purpose::Value),
    }
}

/// Whether two values are equal, where that does not depend on the
/// difference of two numbers: nil equals nil, booleans and strings are
/// compared by value, and values of different kinds are unequal. Functions
/// are never equal.
pub open spec fn plainly_equal(left: ValueView, right: ValueView) -> bool {
    match (left, right) {
        (ValueView::Nil, ValueView::Nil) => true,
        (ValueView::Bool(a), ValueView::Bool(b)) => a == b,
        (ValueView::String(a), ValueView::String(b)) => a == b,
        _ => false,
    }
}

/// `==` and `!=`, which never fail. Two numbers are equal where their
/// difference is below `EPSILON`; the host computes the difference.
pub open spec fn equality<'a>(left: ValueView<'a>, right: ValueView<'a>, negate: bool) -> Applied<'a> {
    match (left, right) {
        (ValueView::Number(a), ValueView::Number(b)) => Applied::Ask(
            Request::Compute { operation: Arithmetic::Subtract, left: a, right: b },
            if negate {
                Purpose::NotEqual
            } else {
                Purpose::Equal
            },
        ),
        _ => Applied::Value(ValueView::Bool(plainly_equal(left, right) != negate)),
    }
}

/// A binary operator applied to two values. Comparison and arithmetic take
/// two numbers; `+` also takes two strings, which it concatenates.
pub open spec fn evaluate_binary<'a>(operator: Token, left: ValueView<'a>, right: ValueView<'a>) -> Applied<
    'a,
> {
    match operator.token_type {
        TokenType::GREATER | TokenType::GREATEREQUAL | TokenType::LESS | TokenType::LESSEQUAL
        | TokenType::MINUS | TokenType::SLASH | TokenType::STAR => match (left, right) {
            (ValueView::Number(a), ValueView::Number(b)) => numeric(operator.token_type, a, b),
            _ => Applied::Error(error_at(operator, "Operands must be numbers"@)),
        },
        TokenType::PLUS => match (left, right) {
            (ValueView::Number(a), ValueView::Number(b)) => numeric(operator.token_type, a, b),
            (ValueView::String(a), ValueView::String(b)) => Applied::Value(ValueView::String(a + b)),
            _ => Applied::Error(
                error_at(operator, "Operands must be two numbers or two strings."@),
            ),
        },
        TokenType::NOTEQUAL => equality(left, right, true),
        TokenType::EQUAL => equality(left, right, false),
        _ => Applied::Error(error_at(operator, "Unrecognized binary operator."@)),
    }
}

/// Equality and inequality never fail, whatever the operands are.
pub proof fn law_equality_never_fails<'a>(operator: Token, left: ValueView<'a>, right: ValueView<'a>)
    requires
        operator.token_type == TokenType::EQUAL || operator.token_type == TokenType::NOTEQUAL,
    ensures
        !(evaluate_binary(operator, left, right) is Error),
{
}

/// Arithmetic on two numbers never fails: the host computes the result,
/// also that of a division by zero.
pub proof fn law_arithmetic_never_fails(operator: Token, left: u64, right: u64)
    requires
        operator.token_type == TokenType::PLUS || operator.token_type == TokenType::MINUS
            || operator.token_type == TokenType::STAR || operator.token_type == TokenType::SLASH,
    ensures
        evaluate_binary(operator, ValueView::Number(left), ValueView::Number(right)) is Ask,
{
}

/// A unary operator applied to a value: `!` negates its truth, `-` takes a
/// number.
pub open spec fn evaluate_unary<'a>(operator: Token, right: ValueView<'a>) -> Applied<'a> {
    match operator.token_type {
        TokenType::BANG => Applied::Value(ValueView::Bool(!truthy(right))),
        TokenType::MINUS => match right {
            ValueView::Number(n) => Applied::Value(ValueView::Number(negated(n))),
            _ => Applied::Error(error_at(operator, "Operand must be a number."@)),
        },
        _ => Applied::Error(
            RuntimeErrorView::RTE {
                token: token_text(operator@),
                message: "Invalid operator found in unary expression"@,
                line: operator.line,
            },
        ),
    }
}

/// The bindings of the first `count` parameters to the arguments, on top of
/// `bindings`.
pub open spec fn bind_all<'a>(
    bindings: Map<Seq<char>, ValueView<'a>>,
    params: Seq<Token>,
    arguments: Seq<ValueView<'a>>,
    count: nat,
) -> Map<Seq<char>, ValueView<'a>>
    decreases count,
{
    if count == 0 || count > params.len() || count > arguments.len() {
        bindings
    } else {
        bind_all(bindings, params, arguments, (count - 1) as nat).insert(
            params[count - 1].lexeme@,
            arguments[count - 1],
        )
    }
}

/// The number of parameters that get an argument: all of them in a call
/// that the evaluator makes.
pub open spec fn pairs(params: Seq<Token>, arguments: Seq<ValueView>) -> nat {
    if params.len() <= arguments.len() {
        params.len()
    } else {
        arguments.len()
    }
}

/// The place of the innermost call boundary among the first `count` tasks.
pub open spec fn boundary(tasks: Seq<Task>, count: nat) -> Option<nat>
    decreases count,
{
    if count == 0 || count > tasks.len() {
        None
    } else if tasks[count - 1] is Finish {
        Some((count - 1) as nat)
    } else {
        boundary(tasks, (count - 1) as nat)
    }
}

/// The frame that a task makes current again, if it is one that leaves a
/// block or ends a call.
pub open spec fn saved_frame(task: Task) -> Option<usize> {
    match task {
        Task::Restore(frame) => Some(frame),
        Task::Finish { environment, height } => Some(environment),
        _ => None,
    }
}

/// The frame that was current before the outermost block or call among
/// the tasks from `from` on was entered; `current` where there is none.
pub open spec fn outermost(tasks: Seq<Task>, from: nat, current: usize) -> usize
    decreases tasks.len() - from,
{
    if from >= tasks.len() {
        current
    } else {
        match saved_frame(tasks[from as int]) {
            Some(frame) => frame,
            None => outermost(tasks, from + 1, current),
        }
    }
}

impl<'a> Machine<'a> {
    /// The frames that tasks and the evaluator name exist.
    pub open spec fn wf(self) -> bool {
        self.environment < self.frames.len() && self.globals < self.frames.len()
    }

    pub open spec fn push(self, task: Task<'a>) -> Machine<'a> {
        Machine { tasks: self.tasks.push(task), ..self }
    }

    pub open spec fn give(self, value: ValueView<'a>) -> Machine<'a> {
        Machine { values: self.values.push(value), ..self }
    }

    /// The state without the topmost value.
    pub open spec fn taken(self) -> Machine<'a> {
        Machine { values: self.values.drop_last(), ..self }
    }

    pub open spec fn goes_on(self) -> Stepped<'a> {
        Stepped { machine: self, action: ActionView::Continue }
    }

    /// The frame that is current once every block and call under way is
    /// left: the one that was current before the outermost of them.
    pub open spec fn base(self) -> usize {
        let frame = outermost(self.tasks, 0, self.environment);
        if frame < self.frames.len() {
            frame
        } else {
            self.globals
        }
    }

    /// Evaluation stops: every block and call under way is left, nothing is
    /// left to do, and no value is kept.
    pub open spec fn fail(self, error: RuntimeErrorView<'a>) -> Stepped<'a> {
        Stepped {
            machine: Machine {
                tasks: Seq::empty(),
                values: Seq::empty(),
                environment: self.base(),
                ..self
            },
            action: ActionView::Failed(error),
        }
    }

    /// The outcome of applying an operator.
    pub open spec fn apply(self, applied: Applied<'a>) -> Stepped<'a> {
        match applied {
            Applied::Value(value) => self.give(value).goes_on(),
            Applied::Ask(request, purpose) => Stepped {
                machine: self.push(Task::Await { request, purpose }),
                action: ActionView::Ask(request),
            },
            Applied::Error(error) => self.fail(error),
        }
    }

    /// The host's answer arrives.
    pub open spec fn receive(self, purpose: Purpose, answer: u64) -> Stepped<'a> {
        self.give(
            match purpose {
                Purpose::Value => ValueView::Number(answer),
                Purpose::Equal => ValueView::Bool(below_epsilon(answer)),
                Purpose::NotEqual => ValueView::Bool(!below_epsilon(answer)),
            },
        ).goes_on()
    }

    /// A block is entered: a new frame inside the current one, or the given
    /// frame, becomes the current one, and the statements are executed in
    /// it. The frame that was current becomes so again behind them.
    pub open spec fn eval_block_stmt(self, statements: &'a Vec<Stmt>, environment: Option<usize>) -> Stepped<
        'a,
    > {
        let before = self.push(Task::Restore(self.environment)).push(
            Task::Statements { list: statements, next: 0 },
        );
        match environment {
            Some(frame) => if frame < self.frames.len() {
                (Machine { environment: frame, ..before }).goes_on()
            } else {
                self.fail(inconsistent())
            },
            None => (Machine {
                environment: self.frames.len() as usize,
                frames: self.frames.push(
                    ScopeView { bindings: Map::empty(), enclosing: Some(self.environment) },
                ),
                ..before
            }).goes_on(),
        }
    }

    /// A function declaration: the name is bound, in the current frame, to
    /// the function with the current frame as its closure.
    pub open spec fn eval_function_stmt(self, name: &'a Token, params: &'a Vec<Token>, body: &'a Stmt) -> Stepped<
        'a,
    > {
        (Machine {
            frames: bind(
                self.frames,
                self.environment as nat,
                name.lexeme@,
                ValueView::Call(Callable { name, params, body, closure: self.environment }),
            ),
            ..self
        }).goes_on()
    }

    /// A statement starts.
    pub open spec fn execute(self, stmt: &'a Stmt) -> Stepped<'a> {
        match stmt {
            Stmt::Expression(expr) => self.push(Task::Discard).push(Task::Evaluate(expr)).goes_on(),
            Stmt::Print(expr) => self.push(Task::Print).push(Task::Evaluate(expr)).goes_on(),
            Stmt::Var(name, initializer) => self.push(Task::Define(name)).push(
                Task::Evaluate(initializer),
            ).goes_on(),
            Stmt::Block(statements) => self.eval_block_stmt(statements, None),
            Stmt::If { condition, then_branch, else_branch } => self.push(
                Task::Branch { then_branch: &**then_branch, else_branch },
            ).push(Task::Evaluate(condition)).goes_on(),
            Stmt::While { condition, body } => self.push(Task::Loop { condition, body: &**body }).push(
                Task::Evaluate(condition),
            ).goes_on(),
            Stmt::Function { name, params, body } => self.eval_function_stmt(name, params, &**body),
            Stmt::Return(_, value) => match value {
                Some(expr) => self.push(Task::Return).push(Task::Evaluate(expr)).goes_on(),
                None => self.give(ValueView::Nil).push(Task::Return).goes_on(),
            },
        }
    }

    /// The next statement of a list starts.
    pub open spec fn statements(self, list: &'a Vec<Stmt>, next: usize) -> Stepped<'a> {
        if next < list@.len() {
            self.push(Task::Statements { list, next: (next + 1) as usize }).push(
                Task::Execute(&list@[next as int]),
            ).goes_on()
        } else {
            self.goes_on()
        }
    }

    /// A block is left.
    pub open spec fn restore(self, frame: usize) -> Stepped<'a> {
        if frame < self.frames.len() {
            (Machine { environment: frame, ..self }).goes_on()
        } else {
            self.fail(inconsistent())
        }
    }

    /// The binding table has the site of the variable that the expression
    /// reads, and the frame that it names, or the name in that frame, is
    /// missing. The resolver is taken to be right, so this is no error of
    /// the program but an inconsistency.
    pub open spec fn stray_read(self, expr: &'a Expr) -> bool {
        match expr {
            Expr::Variable(id, name) => self.locals.contains_key(*id) && self.look_up_var(*id, *name)
                is None,
            _ => false,
        }
    }

    /// The binding table has the site of the variable that is assigned to,
    /// and the frame that it names is missing.
    pub open spec fn stray_write(self, id: usize) -> bool {
        self.locals.contains_key(id) && ancestor(
            self.frames,
            self.environment as nat,
            self.locals[id] as nat,
        ) is None
    }

    /// The next task reads or writes a local variable where the binding
    /// table points to no variable.
    pub open spec fn strays(self) -> bool {
        self.tasks.len() > 0 && match self.tasks.last() {
            Task::Evaluate(expr) => self.stray_read(expr),
            Task::Assign { id, name } => self.stray_write(id),
            _ => false,
        }
    }

    /// The value of a variable: where the binding table has the site, that
    /// of the frame so many links up from the current one; else that of the
    /// global frame.
    pub open spec fn look_up_var(self, id: usize, name: Token) -> Option<ValueView<'a>> {
        if self.locals.contains_key(id) {
            match ancestor(self.frames, self.environment as nat, self.locals[id] as nat) {
                Some(frame) => if self.frames[frame as int].bindings.contains_key(name.lexeme@) {
                    Some(self.frames[frame as int].bindings[name.lexeme@])
                } else {
                    None
                },
                None => None,
            }
        } else {
            lookup(self.frames, self.globals as nat, name.lexeme@)
        }
    }

    /// The frames after an assignment to a variable, if it exists: where
    /// the binding table has the site, in the frame so many links up from
    /// the current one; else in the global frame.
    pub open spec fn assigned(self, id: usize, name: Token, value: ValueView<'a>) -> Option<
        Seq<ScopeView<'a>>,
    > {
        if self.locals.contains_key(id) {
            match ancestor(self.frames, self.environment as nat, self.locals[id] as nat) {
                Some(frame) => Some(bind(self.frames, frame, name.lexeme@, value)),
                None => None,
            }
        } else {
            match holder(self.frames, self.globals as nat, name.lexeme@) {
                Some(frame) => Some(bind(self.frames, frame, name.lexeme@, value)),
                None => None,
            }
        }
    }

    /// An expression starts. A global variable that is not defined is an
    /// error of the program; a local one that is not where the binding
    /// table says is an inconsistency.
    pub open spec fn evaluate(self, expr: &'a Expr) -> Stepped<'a> {
        match expr {
            Expr::Number(text) => self.apply(Applied::Ask(Request::Literal(text), Purpose::Value)),
            Expr::String(text) => self.give(ValueView::String(text@)).goes_on(),
            Expr::Bool(b) => self.give(ValueView::Bool(*b)).goes_on(),
            Expr::Nil => self.give(ValueView::Nil).goes_on(),
            Expr::Grouping(inner) => self.push(Task::Evaluate(&**inner)).goes_on(),
            Expr::Unary { operator, right } => self.push(Task::Unary(operator)).push(
                Task::Evaluate(&**right),
            ).goes_on(),
            Expr::Binary { operator, left, right } => self.push(Task::Binary(operator)).push(
                Task::Evaluate(&**right),
            ).push(Task::Evaluate(&**left)).goes_on(),
            Expr::Variable(id, name) => match self.look_up_var(*id, *name) {
                Some(value) => self.give(value).goes_on(),
                None => if self.locals.contains_key(*id) {
                    self.fail(inconsistent())
                } else {
                    self.fail(error_at(*name, undefined_variable(name.lexeme@)))
                },
            },
            Expr::Assign(id, name, value) => self.push(Task::Assign { id: *id, name }).push(
                Task::Evaluate(&**value),
            ).goes_on(),
            Expr::Logical { operator, left, right } => self.push(
                Task::Logical { operator, right: &**right },
            ).push(Task::Evaluate(&**left)).goes_on(),
            Expr::Call { callee, paren, arguments } => self.push(
                Task::Invoke { paren, count: arguments@.len() as usize },
            ).push(Task::Arguments { arguments, from: 0 }).push(Task::Evaluate(&**callee)).goes_on(),
        }
    }

    /// The value of an expression statement arrives: it is printed where
    /// bare expressions are.
    pub open spec fn eval_expr_stmt(self, value: ValueView<'a>) -> Stepped<'a> {
        if self.status == InterpreterStatus::Evaluate {
            Stepped { machine: self, action: ActionView::Print(shown(value)) }
        } else {
            self.goes_on()
        }
    }

    pub open spec fn eval_print_stmt(self, value: ValueView<'a>) -> Stepped<'a> {
        Stepped { machine: self, action: ActionView::Print(shown(value)) }
    }

    /// The value of a declaration's initializer arrives.
    pub open spec fn eval_var_stmt(self, name: &'a Token, value: ValueView<'a>) -> Stepped<'a> {
        (Machine {
            frames: bind(self.frames, self.environment as nat, name.lexeme@, value),
            ..self
        }).goes_on()
    }

    /// The value of an `if` condition arrives.
    pub open spec fn eval_if_stmt(
        self,
        then_branch: &'a Stmt,
        else_branch: &'a Option<Box<Stmt>>,
        value: ValueView<'a>,
    ) -> Stepped<'a> {
        if truthy(value) {
            self.push(Task::Execute(then_branch)).goes_on()
        } else {
            match else_branch {
                Some(branch) => self.push(Task::Execute(&**branch)).goes_on(),
                None => self.goes_on(),
            }
        }
    }

    /// The value of a loop's condition arrives. The condition is evaluated
    /// anew for every round.
    pub open spec fn eval_while_stmt(self, condition: &'a Expr, body: &'a Stmt, value: ValueView<'a>) -> Stepped<
        'a,
    > {
        if truthy(value) {
            self.push(Task::Loop { condition, body }).push(Task::Evaluate(condition)).push(
                Task::Execute(body),
            ).goes_on()
        } else {
            self.goes_on()
        }
    }

    /// The value of a `return` arrives: the innermost call ends with it.
    /// Its tasks are dropped, the values it left are dropped, and the
    /// caller's frame is the current one again. A `return` outside every
    /// call stops the evaluation.
    pub open spec fn eval_return_stmt(self, value: ValueView<'a>) -> Stepped<'a> {
        match boundary(self.tasks, self.tasks.len()) {
            Some(at) => match self.tasks[at as int] {
                Task::Finish { environment, height } => if environment < self.frames.len() && height
                    <= self.values.len() {
                    (Machine {
                        tasks: self.tasks.subrange(0, at as int),
                        values: self.values.subrange(0, height as int).push(value),
                        environment,
                        ..self
                    }).goes_on()
                } else {
                    self.fail(inconsistent())
                },
                _ => self.fail(inconsistent()),
            },
            None => self.fail(RuntimeErrorView::Return(value)),
        }
    }

    /// The end of a function's body is reached without a `return`: the
    /// call's value is nil.
    pub open spec fn finish(self, environment: usize, height: usize) -> Stepped<'a> {
        if environment < self.frames.len() && height <= self.values.len() {
            (Machine {
                values: self.values.subrange(0, height as int).push(ValueView::Nil),
                environment,
                ..self
            }).goes_on()
        } else {
            self.fail(inconsistent())
        }
    }

    /// The value to assign arrives. It stays the value of the assignment.
    /// A global variable that does not exist is an error of the program; a
    /// local one whose frame does not exist is an inconsistency.
    pub open spec fn eval_assign(self, id: usize, name: &'a Token, value: ValueView<'a>) -> Stepped<'a> {
        match self.assigned(id, *name, value) {
            Some(frames) => (Machine { frames, ..self }).give(value).goes_on(),
            None => if self.locals.contains_key(id) {
                self.fail(inconsistent())
            } else {
                self.fail(error_at(*name, undefined_target(name.lexeme@)))
            },
        }
    }

    /// The left operand of `and` or `or` arrives. `or` yields it where it
    /// counts as true, `and` where it counts as false; otherwise the right
    /// operand is evaluated and yields the value.
    pub open spec fn evaluate_logical(self, operator: &'a Token, right: &'a Expr, left: ValueView<'a>) -> Stepped<
        'a,
    > {
        if (operator.token_type == TokenType::OR) == truthy(left) {
            self.give(left).goes_on()
        } else {
            self.push(Task::Evaluate(right)).goes_on()
        }
    }

    /// The next argument of a call starts.
    pub open spec fn arguments(self, arguments: &'a Vec<Expr>, from: usize) -> Stepped<'a> {
        if from < arguments@.len() {
            self.push(Task::Arguments { arguments, from: (from + 1) as usize }).push(
                Task::Evaluate(&arguments@[from as int]),
            ).goes_on()
        } else {
            self.goes_on()
        }
    }

    /// A call of `function` starts: a new frame inside the function's
    /// closure binds the parameters to the arguments and becomes the
    /// current one; the body is executed; behind it stands the boundary
    /// that ends the call.
    pub open spec fn call(self, function: Callable<'a>, arguments: Seq<ValueView<'a>>) -> Stepped<'a> {
        if function.closure < self.frames.len() {
            (Machine {
                environment: self.frames.len() as usize,
                frames: self.frames.push(
                    ScopeView {
                        bindings: bind_all(
                            Map::empty(),
                            function.params@,
                            arguments,
                            pairs(function.params@, arguments),
                        ),
                        enclosing: Some(function.closure),
                    },
                ),
                tasks: self.tasks.push(
                    Task::Finish { environment: self.environment, height: self.values.len() as usize },
                ).push(Task::Execute(function.body)),
                ..self
            }).goes_on()
        } else {
            self.fail(inconsistent())
        }
    }

    /// The callee and the arguments of a call have arrived. Only a function
    /// can be called, and only with as many arguments as it has parameters.
    pub open spec fn evaluate_call(self, paren: &'a Token, count: usize) -> Stepped<'a> {
        let n = self.values.len();
        if count < n {
            let rest = Machine { values: self.values.subrange(0, n - count - 1), ..self };
            match self.values[n - count - 1] {
                ValueView::Call(function) => if function.params@.len() == count {
                    rest.call(function, self.values.subrange(n - count, n as int))
                } else {
                    self.fail(
                        error_at(*paren, arity_mismatch(function.params@.len(), count as nat)),
                    )
                },
                _ => self.fail(error_at(*paren, "Can only call functions and methods"@)),
            }
        } else {
            self.fail(inconsistent())
        }
    }

    /// A task that takes the topmost value is carried out.
    pub open spec fn proceed(self, task: Task<'a>) -> Stepped<'a> {
        if self.values.len() == 0 {
            self.fail(inconsistent())
        } else {
            let value = self.values.last();
            let rest = self.taken();
            match task {
                Task::Discard => rest.eval_expr_stmt(value),
                Task::Print => rest.eval_print_stmt(value),
                Task::Define(name) => rest.eval_var_stmt(name, value),
                Task::Branch { then_branch, else_branch } => rest.eval_if_stmt(
                    then_branch,
                    else_branch,
                    value,
                ),
                Task::Loop { condition, body } => rest.eval_while_stmt(condition, body, value),
                Task::Return => rest.eval_return_stmt(value),
                Task::Unary(operator) => rest.apply(evaluate_unary(*operator, value)),
                Task::Binary(operator) => if rest.values.len() == 0 {
                    self.fail(inconsistent())
                } else {
                    rest.taken().apply(evaluate_binary(*operator, rest.values.last(), value))
                },
                Task::Assign { id, name } => rest.eval_assign(id, name, value),
                Task::Logical { operator, right } => rest.evaluate_logical(operator, right, value),
                _ => self.fail(inconsistent()),
            }
        }
    }

    /// One step: the last task is taken off the stack and carried out. The
    /// host's answer counts only where the evaluator waits for one; there,
    /// without an answer, the request is made again.
    pub open spec fn step(self, answer: Option<u64>) -> Stepped<'a> {
        if self.tasks.len() == 0 {
            Stepped { machine: self, action: ActionView::Finished }
        } else {
            let rest = Machine { tasks: self.tasks.drop_last(), ..self };
            match self.tasks.last() {
                Task::Await { request, purpose } => match answer {
                    Some(bits) => rest.receive(purpose, bits),
                    None => Stepped { machine: self, action: ActionView::Ask(request) },
                },
                Task::Execute(stmt) => rest.execute(stmt),
                Task::Statements { list, next } => rest.statements(list, next),
                Task::Restore(frame) => rest.restore(frame),
                Task::Evaluate(expr) => rest.evaluate(expr),
                Task::Arguments { arguments, from } => rest.arguments(arguments, from),
                Task::Invoke { paren, count } => rest.evaluate_call(paren, count),
                Task::Finish { environment, height } => rest.finish(environment, height),
                task => rest.proceed(task),
            }
        }
    }

    /// The program is taken up: its statements are the next to execute, in
    /// the current frame.
    pub open spec fn interpret(self, statements: &'a Vec<Stmt>) -> Machine<'a> {
        self.push(Task::Statements { list: statements, next: 0 })
    }

    /// Up to `fuel` steps, which end early where the host has something to
    /// do. The answer counts for the first step only.
    pub open spec fn run(self, answer: Option<u64>, fuel: nat) -> Stepped<'a>
        decreases fuel,
    {
        if fuel == 0 {
            self.goes_on()
        } else {
            let first = self.step(answer);
            if first.action is Continue {
                first.machine.run(None, (fuel - 1) as nat)
            } else {
                first
            }
        }
    }
}

} // verus!
