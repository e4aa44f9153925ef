//! The evaluator's stacks stay in step. Every task finds the values it
//! takes, every call boundary finds the value stack as high as the call
//! found it, and every frame that a task or a function names exists. This
//! holds of a new evaluator and is kept by every step, so that an
//! evaluation ends in the error of an inconsistent state only where the
//! binding table points to no variable.
use vstd::prelude::*;
use crate::callable::Callable;
use crate::environment::{
    ScopeView, ancestor, bind, holder, lemma_ancestor_in_range, lemma_holder_in_range,
    undefined_target, undefined_variable,
};
use crate::expr::Expr;
use crate::interpreter::{Purpose, Task};
use crate::machine::{
    ActionView, Applied, Machine, Stepped, arity_mismatch, bind_all, boundary, error_at,
    evaluate_binary, evaluate_unary, inconsistent, pairs, saved_frame,
};
use crate::stmt::Stmt;
use crate::token::Token;
use crate::value::{RuntimeErrorView, ValueView};

verus! {

/// The number of values that a task takes off the value stack.
pub open spec fn takes(task: Task) -> int {
    match task {
        Task::Discard | Task::Print | Task::Define(_) | Task::Branch { .. } | Task::Loop { .. }
        | Task::Return | Task::Unary(_) | Task::Assign { .. } | Task::Logical { .. } => 1,
        Task::Binary(_) => 2,
        Task::Invoke { paren, count } => count + 1,
        _ => 0,
    }
}

/// By how much the value stack has grown when a task and all that it leads
/// to are done.
pub open spec fn yields(task: Task) -> int {
    match task {
        Task::Evaluate(_) | Task::Await { .. } | Task::Finish { .. } => 1,
        Task::Discard | Task::Print | Task::Define(_) | Task::Branch { .. } | Task::Loop { .. }
        | Task::Return | Task::Binary(_) => -1,
        Task::Arguments { arguments, from } => if from <= arguments@.len() {
            arguments@.len() - from
        } else {
            0
        },
        Task::Invoke { paren, count } => -count,
        _ => 0,
    }
}

/// The height of the value stack at which the innermost call among the
/// first `count` tasks began; 0 outside every call.
pub open spec fn floor(tasks: Seq<Task>, count: nat) -> int {
    match boundary(tasks, count) {
        Some(at) => match tasks[at as int] {
            Task::Finish { environment, height } => height as int,
            _ => 0,
        },
        None => 0,
    }
}

/// The first `count` tasks fit a value stack of the given height: each
/// finds the values it takes above those that the call around it found,
/// and each call boundary finds the height at which the call began.
pub open spec fn fits(tasks: Seq<Task>, count: nat, height: int) -> bool
    decreases count,
{
    if count == 0 || count > tasks.len() {
        height >= 0
    } else {
        let task = tasks[count - 1];
        &&& takes(task) <= height
        &&& (task matches Task::Finish { environment, height: begun } ==> height == begun)
        &&& floor(tasks, (count - 1) as nat) <= height - takes(task)
        &&& fits(tasks, (count - 1) as nat, height + yields(task))
    }
}

/// Whether tasks fit depends on the tasks considered only.
pub proof fn lemma_fits_prefix(a: Seq<Task>, b: Seq<Task>, count: nat, height: int)
    requires
        count <= a.len(),
        count <= b.len(),
        forall|i: int| 0 <= i < count ==> a[i] == b[i],
    ensures
        boundary(a, count) == boundary(b, count),
        floor(a, count) == floor(b, count),
        fits(a, count, height) == fits(b, count, height),
    decreases count,
{
    if count > 0 {
        lemma_fits_prefix(a, b, (count - 1) as nat, height + yields(a[count - 1]));
        lemma_fits_prefix(a, b, (count - 1) as nat, height);
    }
}

/// The innermost call boundary lies among the tasks considered.
pub proof fn lemma_boundary_in_range(tasks: Seq<Task>, count: nat)
    ensures
        boundary(tasks, count) matches Some(at) ==> at < count && at < tasks.len() && tasks[at as int]
            is Finish,
    decreases count,
{
    if count > 0 && count <= tasks.len() && !(tasks[count - 1] is Finish) {
        lemma_boundary_in_range(tasks, (count - 1) as nat);
    }
}

/// Fitting tasks, taken apart: the last task and the tasks below it.
pub proof fn lemma_fits_last(tasks: Seq<Task>, height: int)
    requires
        tasks.len() > 0,
        fits(tasks, tasks.len(), height),
    ensures
        takes(tasks.last()) <= height,
        tasks.last() matches Task::Finish { environment, height: begun } ==> height == begun,
        floor(tasks.drop_last(), (tasks.len() - 1) as nat) <= height - takes(tasks.last()),
        fits(tasks.drop_last(), (tasks.len() - 1) as nat, height + yields(tasks.last())),
{
    lemma_fits_prefix(
        tasks,
        tasks.drop_last(),
        (tasks.len() - 1) as nat,
        height + yields(tasks.last()),
    );
}

/// Fitting tasks, put together: a task that is no call boundary on top of
/// tasks that fit what it leaves.
pub proof fn lemma_fits_push(rest: Seq<Task>, task: Task, height: int)
    requires
        !(task is Finish),
        takes(task) <= height,
        floor(rest, rest.len()) <= height - takes(task),
        fits(rest, rest.len(), height + yields(task)),
    ensures
        fits(rest.push(task), rest.len() + 1, height),
        floor(rest.push(task), rest.len() + 1) == floor(rest, rest.len()),
{
    let whole = rest.push(task);
    lemma_fits_prefix(whole, rest, rest.len(), height + yields(task));
    assert(whole[whole.len() - 1] == task);
}

/// A call boundary on top of tasks that fit the call's value.
pub proof fn lemma_fits_push_boundary(rest: Seq<Task>, environment: usize, begun: usize)
    requires
        floor(rest, rest.len()) <= begun,
        fits(rest, rest.len(), begun + 1),
    ensures
        fits(rest.push(Task::Finish { environment, height: begun }), rest.len() + 1, begun as int),
        floor(rest.push(Task::Finish { environment, height: begun }), rest.len() + 1) == begun,
{
    let task = Task::Finish { environment, height: begun };
    let whole = rest.push(task);
    lemma_fits_prefix(whole, rest, rest.len(), begun + 1);
    assert(whole[whole.len() - 1] == task);
}

/// Below the innermost call boundary the tasks fit the call's value, and
/// the call began no higher than the value stack now stands.
pub proof fn lemma_fits_below_boundary(tasks: Seq<Task>, count: nat, height: int)
    requires
        count <= tasks.len(),
        fits(tasks, count, height),
        boundary(tasks, count) is Some,
    ensures
        fits(tasks, boundary(tasks, count)->0, floor(tasks, count) + 1),
    decreases count,
{
    if count > 0 {
        if tasks[count - 1] is Finish {
        } else {
            lemma_fits_below_boundary(tasks, (count - 1) as nat, height + yields(tasks[count - 1]));
        }
    }
}

/// A function value names a frame that exists.
pub open spec fn valid(value: ValueView, frames: nat) -> bool {
    value matches ValueView::Call(function) ==> function.closure < frames
}

/// Every frame that the evaluator, a task or a function value names exists.
pub open spec fn sound(m: Machine) -> bool {
    &&& m.wf()
    &&& forall|k: int|
        0 <= k < m.tasks.len() ==> (saved_frame(#[trigger] m.tasks[k]) matches Some(frame) ==> frame
            < m.frames.len())
    &&& forall|i: int| 0 <= i < m.values.len() ==> valid(#[trigger] m.values[i], m.frames.len())
    &&& forall|f: int, name: Seq<char>|
        0 <= f < m.frames.len() && #[trigger] m.frames[f].bindings.contains_key(name) ==> valid(
            m.frames[f].bindings[name],
            m.frames.len(),
        )
}

/// The stacks and the frames are no more than an evaluator can hold.
pub open spec fn bounded(m: Machine) -> bool {
    m.values.len() <= usize::MAX && m.frames.len() <= usize::MAX
}

/// The evaluator's stacks are in step.
pub open spec fn balanced(m: Machine) -> bool {
    sound(m) && fits(m.tasks, m.tasks.len(), m.values.len() as int)
}

/// The tasks fit the value stack once it has grown by `growth`.
pub open spec fn room(m: Machine, growth: int) -> bool {
    sound(m) && fits(m.tasks, m.tasks.len(), m.values.len() + growth)
}

/// The height of the value stack at which the innermost call under way
/// began.
pub open spec fn begun(m: Machine) -> int {
    floor(m.tasks, m.tasks.len())
}

/// An error other than that of an inconsistent state.
pub open spec fn proper(error: RuntimeErrorView) -> bool {
    error != inconsistent()
}

/// The outcome of a step that keeps the stacks in step and does not end
/// in the error of an inconsistent state.
pub open spec fn fine(outcome: Stepped) -> bool {
    balanced(outcome.machine) && (outcome.action matches ActionView::Failed(error) ==> proper(error))
}

/// The outcome of a step that keeps the stacks in step and ends in the
/// error of an inconsistent state only with the given excuse.
pub open spec fn fine_unless(outcome: Stepped, excuse: bool) -> bool {
    balanced(outcome.machine) && (outcome.action matches ActionView::Failed(error) ==> proper(error)
        || excuse)
}

/// Where evaluation stops, the stacks are empty and in step.
proof fn lemma_fail<'a>(m: Machine<'a>, error: RuntimeErrorView<'a>)
    requires
        sound(m),
    ensures
        balanced(m.fail(error).machine),
        proper(error) ==> fine(m.fail(error)),
{
}

proof fn lemma_push<'a>(m: Machine<'a>, task: Task<'a>, growth: int)
    requires
        room(m, growth),
        begun(m) <= m.values.len() + growth - yields(task) - takes(task),
        !(task is Finish),
        saved_frame(task) matches Some(frame) ==> frame < m.frames.len(),
        takes(task) <= m.values.len() + growth - yields(task),
    ensures
        room(m.push(task), growth - yields(task)),
        begun(m.push(task)) == begun(m),
{
    lemma_fits_push(m.tasks, task, m.values.len() + growth - yields(task));
    let after = m.push(task);
    assert forall|k: int| 0 <= k < after.tasks.len() implies (saved_frame(
        #[trigger] after.tasks[k],
    ) matches Some(frame) ==> frame < after.frames.len()) by {
        if k < m.tasks.len() {
            assert(after.tasks[k] == m.tasks[k]);
        }
    }
}

proof fn lemma_give<'a>(m: Machine<'a>, value: ValueView<'a>, growth: int)
    requires
        room(m, growth),
        valid(value, m.frames.len()),
    ensures
        room(m.give(value), growth - 1),
{
}

/// A state after its last task was taken off, which leaves room for what
/// the task yields once the values it takes are taken off too.
proof fn lemma_pop<'a>(m: Machine<'a>)
    requires
        balanced(m),
        m.tasks.len() > 0,
    ensures
        room(Machine { tasks: m.tasks.drop_last(), ..m }, yields(m.tasks.last())),
        begun(Machine { tasks: m.tasks.drop_last(), ..m }) <= m.values.len() - takes(m.tasks.last()),
        takes(m.tasks.last()) <= m.values.len(),
        saved_frame(m.tasks.last()) matches Some(frame) ==> frame < m.frames.len(),
        m.tasks.last() matches Task::Finish { environment, height } ==> height == m.values.len(),
{
    lemma_fits_last(m.tasks, m.values.len() as int);
    let rest = Machine { tasks: m.tasks.drop_last(), ..m };
    assert forall|k: int| 0 <= k < rest.tasks.len() implies (saved_frame(
        #[trigger] rest.tasks[k],
    ) matches Some(frame) ==> frame < rest.frames.len()) by {
        assert(rest.tasks[k] == m.tasks[k]);
    }
}

/// A state after its topmost value was taken off.
proof fn lemma_taken<'a>(m: Machine<'a>, growth: int)
    requires
        room(m, growth),
        m.values.len() > 0,
    ensures
        room(m.taken(), growth + 1),
        valid(m.values.last(), m.frames.len()),
{
    let rest = m.taken();
    assert forall|i: int| 0 <= i < rest.values.len() implies valid(
        #[trigger] rest.values[i],
        rest.frames.len(),
    ) by {
        assert(rest.values[i] == m.values[i]);
    }
}

/// A binding of a name to a value that names frames that exist.
proof fn lemma_bind<'a>(m: Machine<'a>, frame: nat, name: Seq<char>, value: ValueView<'a>, growth: int)
    requires
        room(m, growth),
        frame < m.frames.len(),
        valid(value, m.frames.len()),
    ensures
        room(Machine { frames: bind(m.frames, frame, name, value), ..m }, growth),
{
    let after = Machine { frames: bind(m.frames, frame, name, value), ..m };
    assert forall|f: int, other: Seq<char>|
        0 <= f < after.frames.len() && #[trigger] after.frames[f].bindings.contains_key(
            other,
        ) implies valid(after.frames[f].bindings[other], after.frames.len()) by {
        if f == frame && other == name {
        } else {
            assert(m.frames[f].bindings.contains_key(other));
        }
    }
}

/// A new frame whose values name frames that exist.
proof fn lemma_new_frame<'a>(m: Machine<'a>, scope: ScopeView<'a>, growth: int)
    requires
        room(m, growth),
        forall|name: Seq<char>| #[trigger]
            scope.bindings.contains_key(name) ==> valid(scope.bindings[name], m.frames.len()),
    ensures
        room(Machine { frames: m.frames.push(scope), ..m }, growth),
{
    let after = Machine { frames: m.frames.push(scope), ..m };
    assert forall|f: int, other: Seq<char>|
        0 <= f < after.frames.len() && #[trigger] after.frames[f].bindings.contains_key(
            other,
        ) implies valid(after.frames[f].bindings[other], after.frames.len()) by {
        if f < m.frames.len() {
            assert(m.frames[f].bindings.contains_key(other));
        }
    }
    assert forall|i: int| 0 <= i < after.values.len() implies valid(
        #[trigger] after.values[i],
        after.frames.len(),
    ) by {
        assert(valid(m.values[i], m.frames.len()));
    }
}

/// Another current frame that exists.
proof fn lemma_enter<'a>(m: Machine<'a>, frame: usize, growth: int)
    requires
        room(m, growth),
        frame < m.frames.len(),
    ensures
        room(Machine { environment: frame, ..m }, growth),
{
}

/// The outcome of applying an operator names frames that exist and is no
/// inconsistency.
pub open spec fn sensible(applied: Applied, frames: nat) -> bool {
    match applied {
        Applied::Value(value) => valid(value, frames),
        Applied::Ask(_, _) => true,
        Applied::Error(error) => proper(error),
    }
}

proof fn lemma_operators<'a>(operator: Token, left: ValueView<'a>, right: ValueView<'a>, frames: nat)
    ensures
        sensible(evaluate_binary(operator, left, right), frames),
        sensible(evaluate_unary(operator, right), frames),
{
}

proof fn lemma_apply<'a>(m: Machine<'a>, applied: Applied<'a>)
    requires
        room(m, 1),
        begun(m) <= m.values.len(),
        sensible(applied, m.frames.len()),
    ensures
        fine(m.apply(applied)),
{
    match applied {
        Applied::Value(value) => {
            lemma_give(m, value, 1);
        },
        Applied::Ask(request, purpose) => {
            lemma_push(m, Task::Await { request, purpose }, 1);
        },
        Applied::Error(error) => {
            lemma_fail(m, error);
        },
    }
}

proof fn lemma_receive<'a>(m: Machine<'a>, purpose: Purpose, answer: u64)
    requires
        room(m, 1),
    ensures
        fine(m.receive(purpose, answer)),
{
    let value = m.receive(purpose, answer).machine.values.last();
    lemma_give(m, value, 1);
}

proof fn lemma_block<'a>(m: Machine<'a>, statements: &'a Vec<Stmt>)
    requires
        room(m, 0),
        bounded(m),
        begun(m) <= m.values.len(),
    ensures
        fine(m.eval_block_stmt(statements, None)),
{
    let first = m.push(Task::Restore(m.environment));
    lemma_push(m, Task::Restore(m.environment), 0);
    let second = first.push(Task::Statements { list: statements, next: 0 });
    lemma_push(first, Task::Statements { list: statements, next: 0 }, 0);
    let scope = ScopeView { bindings: Map::empty(), enclosing: Some(m.environment) };
    lemma_new_frame(second, scope, 0);
    let third = Machine { frames: second.frames.push(scope), ..second };
    lemma_enter(third, m.frames.len() as usize, 0);
    assert(m.eval_block_stmt(statements, None).machine == Machine {
        environment: m.frames.len() as usize,
        ..third
    });
}

proof fn lemma_execute<'a>(m: Machine<'a>, stmt: &'a Stmt)
    requires
        room(m, 0),
        bounded(m),
        begun(m) <= m.values.len(),
    ensures
        fine(m.execute(stmt)),
{
    match stmt {
        Stmt::Expression(expr) => {
            lemma_push(m, Task::Discard, 0);
            lemma_push(m.push(Task::Discard), Task::Evaluate(expr), 1);
        },
        Stmt::Print(expr) => {
            lemma_push(m, Task::Print, 0);
            lemma_push(m.push(Task::Print), Task::Evaluate(expr), 1);
        },
        Stmt::Var(name, initializer) => {
            lemma_push(m, Task::Define(name), 0);
            lemma_push(m.push(Task::Define(name)), Task::Evaluate(initializer), 1);
        },
        Stmt::Block(statements) => {
            lemma_block(m, statements);
        },
        Stmt::If { condition, then_branch, else_branch } => {
            let task = Task::Branch { then_branch: &**then_branch, else_branch };
            lemma_push(m, task, 0);
            lemma_push(m.push(task), Task::Evaluate(condition), 1);
        },
        Stmt::While { condition, body } => {
            let task = Task::Loop { condition, body: &**body };
            lemma_push(m, task, 0);
            lemma_push(m.push(task), Task::Evaluate(condition), 1);
        },
        Stmt::Function { name, params, body } => {
            let value = ValueView::Call(
                Callable { name, params, body: &**body, closure: m.environment },
            );
            lemma_bind(m, m.environment as nat, name.lexeme@, value, 0);
        },
        Stmt::Return(_, value) => {
            match value {
                Some(expr) => {
                    lemma_push(m, Task::Return, 0);
                    lemma_push(m.push(Task::Return), Task::Evaluate(expr), 1);
                },
                None => {
                    lemma_give(m, ValueView::Nil, 0);
                    lemma_push(m.give(ValueView::Nil), Task::Return, -1);
                },
            }
        },
    }
}

proof fn lemma_statements<'a>(m: Machine<'a>, list: &'a Vec<Stmt>, next: usize)
    requires
        room(m, 0),
        begun(m) <= m.values.len(),
    ensures
        fine(m.statements(list, next)),
{
    if next < list@.len() {
        assert(list@.len() == list.len());
        let task = Task::Statements { list, next: (next + 1) as usize };
        lemma_push(m, task, 0);
        lemma_push(m.push(task), Task::Execute(&list@[next as int]), 0);
    }
}

proof fn lemma_restore<'a>(m: Machine<'a>, frame: usize)
    requires
        room(m, 0),
        frame < m.frames.len(),
    ensures
        fine(m.restore(frame)),
{
    lemma_enter(m, frame, 0);
}

/// The value of a variable names frames that exist.
proof fn lemma_look_up<'a>(m: Machine<'a>, id: usize, name: Token)
    requires
        sound(m),
    ensures
        m.look_up_var(id, name) matches Some(value) ==> valid(value, m.frames.len()),
{
    if m.locals.contains_key(id) {
        lemma_ancestor_in_range(m.frames, m.environment as nat, m.locals[id] as nat);
    } else {
        lemma_holder_in_range(m.frames, m.globals as nat, name.lexeme@);
    }
}

proof fn lemma_evaluate<'a>(m: Machine<'a>, expr: &'a Expr)
    requires
        room(m, 1),
        begun(m) <= m.values.len(),
    ensures
        fine_unless(m.evaluate(expr), m.stray_read(expr)),
{
    match expr {
        Expr::Number(text) => {
            lemma_apply(m, Applied::Ask(crate::interpreter::Request::Literal(text), Purpose::Value));
        },
        Expr::String(text) => {
            lemma_give(m, ValueView::String(text@), 1);
        },
        Expr::Bool(b) => {
            lemma_give(m, ValueView::Bool(*b), 1);
        },
        Expr::Nil => {
            lemma_give(m, ValueView::Nil, 1);
        },
        Expr::Grouping(inner) => {
            lemma_push(m, Task::Evaluate(&**inner), 1);
        },
        Expr::Unary { operator, right } => {
            lemma_push(m, Task::Unary(operator), 1);
            lemma_push(m.push(Task::Unary(operator)), Task::Evaluate(&**right), 1);
        },
        Expr::Binary { operator, left, right } => {
            lemma_push(m, Task::Binary(operator), 1);
            let first = m.push(Task::Binary(operator));
            lemma_push(first, Task::Evaluate(&**right), 2);
            lemma_push(first.push(Task::Evaluate(&**right)), Task::Evaluate(&**left), 1);
        },
        Expr::Variable(id, name) => {
            lemma_look_up(m, *id, *name);
            match m.look_up_var(*id, *name) {
                Some(value) => {
                    lemma_give(m, value, 1);
                },
                None => {
                    lemma_fail(m, error_at(*name, undefined_variable(name.lexeme@)));
                    lemma_fail(m, inconsistent());
                },
            }
        },
        Expr::Assign(id, name, value) => {
            let task = Task::Assign { id: *id, name };
            lemma_push(m, task, 1);
            lemma_push(m.push(task), Task::Evaluate(&**value), 1);
        },
        Expr::Logical { operator, left, right } => {
            let task = Task::Logical { operator, right: &**right };
            lemma_push(m, task, 1);
            lemma_push(m.push(task), Task::Evaluate(&**left), 1);
        },
        Expr::Call { callee, paren, arguments } => {
            assert(arguments@.len() == arguments.len());
            let invoke = Task::Invoke { paren, count: arguments@.len() as usize };
            lemma_push(m, invoke, 1);
            let first = m.push(invoke);
            let list = Task::Arguments { arguments, from: 0 };
            lemma_push(first, list, (1 + arguments@.len()) as int);
            lemma_push(first.push(list), Task::Evaluate(&**callee), 1);
        },
    }
}

proof fn lemma_arguments<'a>(m: Machine<'a>, arguments: &'a Vec<Expr>, from: usize)
    requires
        room(m, yields(Task::Arguments { arguments, from })),
        begun(m) <= m.values.len(),
    ensures
        fine(m.arguments(arguments, from)),
{
    if from < arguments@.len() {
        assert(arguments@.len() == arguments.len());
        let task = Task::Arguments { arguments, from: (from + 1) as usize };
        lemma_push(m, task, arguments@.len() - from);
        lemma_push(m.push(task), Task::Evaluate(&arguments@[from as int]), 1);
    }
}

/// The bindings of parameters to values that name frames that exist name
/// such frames only.
proof fn lemma_bind_all<'a>(params: Seq<Token>, arguments: Seq<ValueView<'a>>, count: nat, frames: nat)
    requires
        forall|i: int| 0 <= i < arguments.len() ==> valid(#[trigger] arguments[i], frames),
    ensures
        forall|name: Seq<char>| #[trigger]
            bind_all(Map::empty(), params, arguments, count).contains_key(name) ==> valid(
                bind_all(Map::empty(), params, arguments, count)[name],
                frames,
            ),
    decreases count,
{
    if !(count == 0 || count > params.len() || count > arguments.len()) {
        lemma_bind_all(params, arguments, (count - 1) as nat, frames);
        let before = bind_all(Map::empty(), params, arguments, (count - 1) as nat);
        let after = bind_all(Map::empty(), params, arguments, count);
        assert forall|name: Seq<char>| #[trigger] after.contains_key(name) implies valid(
            after[name],
            frames,
        ) by {
            if name == params[count - 1].lexeme@ {
                assert(valid(arguments[count - 1], frames));
            } else {
                assert(before.contains_key(name));
            }
        }
    }
}

proof fn lemma_call<'a>(m: Machine<'a>, function: Callable<'a>, arguments: Seq<ValueView<'a>>)
    requires
        room(m, 1),
        bounded(m),
        begun(m) <= m.values.len(),
        function.closure < m.frames.len(),
        forall|i: int| 0 <= i < arguments.len() ==> valid(#[trigger] arguments[i], m.frames.len()),
    ensures
        fine(m.call(function, arguments)),
{
    let after = m.call(function, arguments).machine;
    let boundary = Task::Finish { environment: m.environment, height: m.values.len() as usize };
    lemma_fits_push_boundary(m.tasks, m.environment, m.values.len() as usize);
    lemma_fits_push(m.tasks.push(boundary), Task::Execute(function.body), m.values.len() as int);
    lemma_bind_all(function.params@, arguments, pairs(function.params@, arguments), m.frames.len());
    assert forall|k: int| 0 <= k < after.tasks.len() implies (saved_frame(
        #[trigger] after.tasks[k],
    ) matches Some(frame) ==> frame < after.frames.len()) by {
        if k < m.tasks.len() {
            assert(after.tasks[k] == m.tasks[k]);
        }
    }
    assert forall|i: int| 0 <= i < after.values.len() implies valid(
        #[trigger] after.values[i],
        after.frames.len(),
    ) by {
        assert(valid(m.values[i], m.frames.len()));
    }
    assert forall|f: int, other: Seq<char>|
        0 <= f < after.frames.len() && #[trigger] after.frames[f].bindings.contains_key(
            other,
        ) implies valid(after.frames[f].bindings[other], after.frames.len()) by {
        if f < m.frames.len() {
            assert(m.frames[f].bindings.contains_key(other));
        }
    }
}

proof fn lemma_evaluate_call<'a>(m: Machine<'a>, paren: &'a Token, count: usize)
    requires
        room(m, -count),
        bounded(m),
        begun(m) <= m.values.len() - count - 1,
        count + 1 <= m.values.len(),
    ensures
        fine(m.evaluate_call(paren, count)),
{
    let n = m.values.len();
    let rest = Machine { values: m.values.subrange(0, n - count - 1), ..m };
    assert forall|i: int| 0 <= i < rest.values.len() implies valid(
        #[trigger] rest.values[i],
        rest.frames.len(),
    ) by {
        assert(rest.values[i] == m.values[i]);
    }
    let arguments = m.values.subrange(n - count, n as int);
    assert forall|i: int| 0 <= i < arguments.len() implies valid(
        #[trigger] arguments[i],
        m.frames.len(),
    ) by {
        assert(arguments[i] == m.values[n - count + i]);
    }
    match m.values[n - count - 1] {
        ValueView::Call(function) => {
            if function.params@.len() == count {
                lemma_call(rest, function, arguments);
            } else {
                lemma_fail(m, error_at(*paren, arity_mismatch(function.params@.len(), count as nat)));
            }
        },
        _ => {
            lemma_fail(m, error_at(*paren, "Can only call functions and methods"@));
        },
    }
}

/// The end of a call, with the value that the call yields.
proof fn lemma_leave<'a>(m: Machine<'a>, environment: usize, height: usize, value: ValueView<'a>)
    requires
        sound(m),
        fits(m.tasks, m.tasks.len(), height + 1),
        environment < m.frames.len(),
        height <= m.values.len(),
        valid(value, m.frames.len()),
    ensures
        balanced(
            Machine { values: m.values.subrange(0, height as int).push(value), environment, ..m },
        ),
{
    let after = Machine { values: m.values.subrange(0, height as int).push(value), environment, ..m };
    assert forall|i: int| 0 <= i < after.values.len() implies valid(
        #[trigger] after.values[i],
        after.frames.len(),
    ) by {
        if i < height {
            assert(after.values[i] == m.values[i]);
        }
    }
}

proof fn lemma_finish<'a>(m: Machine<'a>, environment: usize, height: usize)
    requires
        room(m, 1),
        environment < m.frames.len(),
        height == m.values.len(),
    ensures
        fine(m.finish(environment, height)),
{
    lemma_leave(m, environment, height, ValueView::Nil);
}

proof fn lemma_return<'a>(m: Machine<'a>, value: ValueView<'a>)
    requires
        room(m, 0),
        begun(m) <= m.values.len(),
        valid(value, m.frames.len()),
    ensures
        fine(m.eval_return_stmt(value)),
{
    lemma_boundary_in_range(m.tasks, m.tasks.len());
    match boundary(m.tasks, m.tasks.len()) {
        Some(at) => {
            match m.tasks[at as int] {
                Task::Finish { environment, height } => {
                    lemma_fits_below_boundary(m.tasks, m.tasks.len(), m.values.len() as int);
                    let below = Machine { tasks: m.tasks.subrange(0, at as int), ..m };
                    lemma_fits_prefix(m.tasks, below.tasks, at, height + 1);
                    assert forall|k: int| 0 <= k < below.tasks.len() implies (saved_frame(
                        #[trigger] below.tasks[k],
                    ) matches Some(frame) ==> frame < below.frames.len()) by {
                        assert(below.tasks[k] == m.tasks[k]);
                    }
                    assert(saved_frame(m.tasks[at as int]) == Some(environment));
                    lemma_leave(below, environment, height, value);
                },
                _ => {},
            }
        },
        None => {
            lemma_fail(m, RuntimeErrorView::Return(value));
        },
    }
}

/// The frames after an assignment of a value that names frames that exist
/// name such frames only.
proof fn lemma_assign<'a>(m: Machine<'a>, id: usize, name: &'a Token, value: ValueView<'a>)
    requires
        room(m, 1),
        begun(m) <= m.values.len(),
        valid(value, m.frames.len()),
    ensures
        fine_unless(m.eval_assign(id, name, value), m.stray_write(id)),
{
    if m.locals.contains_key(id) {
        lemma_ancestor_in_range(m.frames, m.environment as nat, m.locals[id] as nat);
    } else {
        lemma_holder_in_range(m.frames, m.globals as nat, name.lexeme@);
    }
    match m.assigned(id, *name, value) {
        Some(frames) => {
            let frame: nat = if m.locals.contains_key(id) {
                ancestor(m.frames, m.environment as nat, m.locals[id] as nat)->0
            } else {
                holder(m.frames, m.globals as nat, name.lexeme@)->0
            };
            lemma_bind(m, frame, name.lexeme@, value, 1);
            lemma_give(Machine { frames, ..m }, value, 1);
        },
        None => {
            lemma_fail(m, error_at(*name, undefined_target(name.lexeme@)));
            lemma_fail(m, inconsistent());
        },
    }
}

/// A task that takes the topmost value keeps the stacks in step.
proof fn lemma_proceed<'a>(m: Machine<'a>, task: Task<'a>)
    requires
        room(m, yields(task)),
        begun(m) <= m.values.len() - takes(task),
        takes(task) <= m.values.len(),
        takes(task) >= 1,
        !(task is Invoke),
    ensures
        fine_unless(m.proceed(task), task matches Task::Assign { id, name } && m.stray_write(id)),
{
    let value = m.values.last();
    let rest = m.taken();
    lemma_taken(m, yields(task));
    match task {
        Task::Discard => {},
        Task::Print => {},
        Task::Define(name) => {
            lemma_bind(rest, rest.environment as nat, name.lexeme@, value, 0);
        },
        Task::Branch { then_branch, else_branch } => {
            if crate::value::truthy(value) {
                lemma_push(rest, Task::Execute(then_branch), 0);
            } else {
                match else_branch {
                    Some(branch) => {
                        lemma_push(rest, Task::Execute(&**branch), 0);
                    },
                    None => {},
                }
            }
        },
        Task::Loop { condition, body } => {
            if crate::value::truthy(value) {
                let again = Task::Loop { condition, body };
                lemma_push(rest, again, 0);
                lemma_push(rest.push(again), Task::Evaluate(condition), 1);
                lemma_push(rest.push(again).push(Task::Evaluate(condition)), Task::Execute(body), 0);
            }
        },
        Task::Return => {
            lemma_return(rest, value);
        },
        Task::Unary(operator) => {
            lemma_operators(*operator, value, value, rest.frames.len());
            lemma_apply(rest, evaluate_unary(*operator, value));
        },
        Task::Binary(operator) => {
            let left = rest.values.last();
            lemma_taken(rest, 0);
            lemma_operators(*operator, left, value, rest.frames.len());
            lemma_apply(rest.taken(), evaluate_binary(*operator, left, value));
        },
        Task::Assign { id, name } => {
            lemma_assign(rest, id, name, value);
        },
        Task::Logical { operator, right } => {
            if (operator.token_type == crate::token::TokenType::OR) == crate::value::truthy(value) {
                lemma_give(rest, value, 1);
            } else {
                lemma_push(rest, Task::Evaluate(right), 1);
            }
        },
        _ => {},
    }
}

/// Where the stacks are in step, the value stack stands no lower than
/// where the innermost call under way began.
pub proof fn lemma_begun<'a>(m: Machine<'a>)
    requires
        balanced(m),
    ensures
        begun(m) <= m.values.len(),
{
    if m.tasks.len() > 0 {
        lemma_boundary_in_range(m.tasks, (m.tasks.len() - 1) as nat);
    }
}

/// The stacks of a new evaluator are in step.
pub proof fn law_new_is_balanced<'a>(m: Machine<'a>)
    requires
        m.wf(),
        m.tasks.len() == 0,
        m.values.len() == 0,
        forall|f: int, name: Seq<char>|
            0 <= f < m.frames.len() ==> !(#[trigger] m.frames[f].bindings.contains_key(name)),
    ensures
        balanced(m),
{
}

/// The stacks stay in step when a program is taken up.
pub proof fn law_taking_up_keeps_balance<'a>(m: Machine<'a>, statements: &'a Vec<Stmt>)
    requires
        balanced(m),
    ensures
        balanced(m.interpret(statements)),
{
    lemma_begun(m);
    lemma_push(m, Task::Statements { list: statements, next: 0 }, 0);
}

/// Every step keeps the stacks in step. A step from such a state ends in
/// the error of an inconsistent state in one case only: it reads or writes
/// a local variable, and the binding table points to no variable.
pub proof fn law_step_keeps_balance<'a>(m: Machine<'a>, answer: Option<u64>)
    requires
        balanced(m),
        bounded(m),
    ensures
        balanced(m.step(answer).machine),
        m.step(answer).action == ActionView::Failed(inconsistent()) ==> m.strays(),
{
    if m.tasks.len() > 0 {
        let rest = Machine { tasks: m.tasks.drop_last(), ..m };
        lemma_pop(m);
        match m.tasks.last() {
            Task::Await { request, purpose } => {
                match answer {
                    Some(bits) => {
                        lemma_receive(rest, purpose, bits);
                    },
                    None => {},
                }
            },
            Task::Execute(stmt) => {
                lemma_execute(rest, stmt);
            },
            Task::Statements { list, next } => {
                lemma_statements(rest, list, next);
            },
            Task::Restore(frame) => {
                lemma_restore(rest, frame);
            },
            Task::Evaluate(expr) => {
                lemma_evaluate(rest, expr);
            },
            Task::Arguments { arguments, from } => {
                lemma_arguments(rest, arguments, from);
            },
            Task::Invoke { paren, count } => {
                lemma_evaluate_call(rest, paren, count);
            },
            Task::Finish { environment, height } => {
                lemma_finish(rest, environment, height);
            },
            task => {
                lemma_proceed(rest, task);
            },
        }
    }
}

/// Where the stacks are in step, the closure of every function value on
/// the value stack and in a frame is a frame that exists, so that every
/// call finds the frame in which its function was declared.
pub proof fn law_closures_exist<'a>(m: Machine<'a>, function: Callable<'a>)
    requires
        balanced(m),
        (exists|i: int| 0 <= i < m.values.len() && m.values[i] == ValueView::Call(function)) || (
        exists|f: int, name: Seq<char>|
            0 <= f < m.frames.len() && m.frames[f].bindings.contains_key(name)
                && m.frames[f].bindings[name] == ValueView::Call(function)),
    ensures
        function.closure < m.frames.len(),
{
    if exists|i: int| 0 <= i < m.values.len() && m.values[i] == ValueView::Call(function) {
        let i = choose|i: int| 0 <= i < m.values.len() && m.values[i] == ValueView::Call(function);
        assert(valid(m.values[i], m.frames.len()));
    } else {
        let (f, name) = choose|f: int, name: Seq<char>|
            0 <= f < m.frames.len() && m.frames[f].bindings.contains_key(name)
                && m.frames[f].bindings[name] == ValueView::Call(function);
        assert(valid(m.frames[f].bindings[name], m.frames.len()));
    }
}

} // verus!
