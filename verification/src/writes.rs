//! Which frames a step writes. Frames are never dropped or moved; a
//! declaration writes the current frame only, an assignment the one frame
//! that holds the variable, and nothing else writes a frame that exists.
//! A call runs in a new frame inside the function's closure. What follows
//! for whole runs is stated where runs are.
use vstd::prelude::*;
use crate::callable::Callable;
use crate::environment::{ScopeView, ancestor, holder, lookup};
use crate::interpreter::Task;
use crate::machine::{Machine, bind_all};
use crate::stmt::Stmt;
use crate::value::ValueView;

verus! {

/// The next task declares a variable or a function.
pub open spec fn declares(m: Machine) -> bool {
    m.tasks.len() > 0 && match m.tasks.last() {
        Task::Define(_) => true,
        Task::Execute(stmt) => stmt is Function,
        _ => false,
    }
}

/// The frame that an assignment at the site `id` to the variable `name`
/// writes, if the variable exists: where the binding table has the site,
/// the frame so many links up from the current one; else the frame of the
/// global chain that holds the name.
pub open spec fn target(m: Machine, id: usize, name: Seq<char>) -> Option<nat> {
    if m.locals.contains_key(id) {
        ancestor(m.frames, m.environment as nat, m.locals[id] as nat)
    } else {
        holder(m.frames, m.globals as nat, name)
    }
}

/// The next task assigns to a variable of the frame `frame`.
pub open spec fn assigns_to(m: Machine, frame: int) -> bool {
    m.tasks.len() > 0 && (m.tasks.last() matches Task::Assign { id, name } && target(
        m,
        id,
        name.lexeme@,
    ) == Some(frame as nat))
}

/// The second state has the frames of the first as they are, and maybe
/// more.
pub open spec fn keeps(before: Machine, after: Machine) -> bool {
    &&& after.wf()
    &&& after.frames.len() >= before.frames.len()
    &&& forall|f: int| 0 <= f < before.frames.len() ==> #[trigger] after.frames[f] == before.frames[f]
}

/// The second state has the frames of the first, with the same enclosing
/// frames, and as they are but for one.
pub open spec fn keeps_but(before: Machine, after: Machine, frame: int) -> bool {
    &&& after.wf()
    &&& after.frames.len() >= before.frames.len()
    &&& forall|f: int|
        0 <= f < before.frames.len() ==> (#[trigger] after.frames[f]).enclosing
            == before.frames[f].enclosing
    &&& forall|f: int|
        0 <= f < before.frames.len() && f != frame ==> #[trigger] after.frames[f] == before.frames[f]
}

proof fn lemma_execute_keeps<'a>(m: Machine<'a>, stmt: &'a Stmt)
    requires
        m.wf(),
    ensures
        stmt is Function ==> keeps_but(m, m.execute(stmt).machine, m.environment as int),
        !(stmt is Function) ==> keeps(m, m.execute(stmt).machine),
{
}

proof fn lemma_evaluate_keeps<'a>(m: Machine<'a>, expr: &'a crate::expr::Expr)
    requires
        m.wf(),
    ensures
        keeps(m, m.evaluate(expr).machine),
{
}

proof fn lemma_invoke_keeps<'a>(m: Machine<'a>, paren: &'a crate::token::Token, count: usize)
    requires
        m.wf(),
    ensures
        keeps(m, m.evaluate_call(paren, count).machine),
{
}

proof fn lemma_return_keeps<'a>(m: Machine<'a>, value: ValueView<'a>)
    requires
        m.wf(),
    ensures
        keeps(m, m.eval_return_stmt(value).machine),
{
}

proof fn lemma_assign_keeps<'a>(m: Machine<'a>, id: usize, name: &'a crate::token::Token, value: ValueView<'a>)
    requires
        m.wf(),
    ensures
        match target(m, id, name.lexeme@) {
            Some(frame) => keeps_but(m, m.eval_assign(id, name, value).machine, frame as int),
            None => keeps(m, m.eval_assign(id, name, value).machine),
        },
{
    crate::environment::lemma_ancestor_in_range(m.frames, m.environment as nat, m.locals[id] as nat);
    crate::environment::lemma_holder_in_range(m.frames, m.globals as nat, name.lexeme@);
}

proof fn lemma_proceed_keeps<'a>(m: Machine<'a>, task: Task<'a>)
    requires
        m.wf(),
    ensures
        task matches Task::Assign { id, name } ==> match target(m, id, name.lexeme@) {
            Some(frame) => keeps_but(m, m.proceed(task).machine, frame as int),
            None => keeps(m, m.proceed(task).machine),
        },
        task is Define ==> keeps_but(m, m.proceed(task).machine, m.environment as int),
        !(task is Assign) && !(task is Define) ==> keeps(m, m.proceed(task).machine),
{
    if m.values.len() > 0 {
        let value = m.values.last();
        let rest = m.taken();
        match task {
            Task::Return => {
                lemma_return_keeps(rest, value);
            },
            Task::Assign { id, name } => {
                lemma_assign_keeps(rest, id, name, value);
                assert(target(rest, id, name.lexeme@) == target(m, id, name.lexeme@));
            },
            _ => {},
        }
    }
}

/// A step drops and moves no frame, and it writes a frame that exists in
/// two cases only: a declaration writes the current frame, and an
/// assignment writes the frame of its variable. So a declaration in a
/// block, whose frame is new, never writes a binding outside the block.
pub proof fn law_step_keeps_frames<'a>(m: Machine<'a>, answer: Option<u64>)
    requires
        m.wf(),
    ensures
        m.step(answer).machine.wf(),
        m.step(answer).machine.frames.len() >= m.frames.len(),
        forall|f: int|
            0 <= f < m.frames.len() ==> (#[trigger] m.step(answer).machine.frames[f] == m.frames[f]
                || assigns_to(m, f) || (declares(m) && f == m.environment)),
        forall|f: int|
            0 <= f < m.frames.len() ==> (#[trigger] m.step(answer).machine.frames[f]).enclosing
                == m.frames[f].enclosing,
{
    if m.tasks.len() > 0 {
        let rest = Machine { tasks: m.tasks.drop_last(), ..m };
        let after = m.step(answer).machine;
        match m.tasks.last() {
            Task::Await { request, purpose } => {},
            Task::Execute(stmt) => {
                lemma_execute_keeps(rest, stmt);
            },
            Task::Statements { list, next } => {},
            Task::Restore(frame) => {},
            Task::Evaluate(expr) => {
                lemma_evaluate_keeps(rest, expr);
            },
            Task::Arguments { arguments, from } => {},
            Task::Invoke { paren, count } => {
                lemma_invoke_keeps(rest, paren, count);
            },
            Task::Finish { environment, height } => {},
            task => {
                lemma_proceed_keeps(rest, task);
                match task {
                    Task::Assign { id, name } => {
                        assert(target(rest, id, name.lexeme@) == target(m, id, name.lexeme@));
                    },
                    _ => {},
                }
            },
        }
    }
}

/// The run of up to `fuel` steps carries out no assignment to a variable
/// of the frame `frame` and no declaration in it.
pub open spec fn quiet<'a>(m: Machine<'a>, answer: Option<u64>, fuel: nat, frame: int) -> bool
    decreases fuel,
{
    fuel == 0 || (!assigns_to(m, frame) && !(declares(m) && frame == m.environment) && (m.step(
        answer,
    ).action is Continue ==> quiet(m.step(answer).machine, None, (fuel - 1) as nat, frame)))
}

/// A run of the evaluator that carries out no assignment to a variable of
/// a frame, and no declaration in it, leaves the frame as it was,
/// whatever blocks it enters and leaves, and whatever functions it calls:
/// a block declares in its own frame, and so does a call.
pub proof fn law_run_keeps_frame<'a>(m: Machine<'a>, answer: Option<u64>, fuel: nat, frame: int)
    requires
        m.wf(),
        0 <= frame < m.frames.len(),
        quiet(m, answer, fuel, frame),
    ensures
        frame < m.run(answer, fuel).machine.frames.len(),
        m.run(answer, fuel).machine.frames[frame] == m.frames[frame],
    decreases fuel,
{
    if fuel > 0 {
        law_step_keeps_frames(m, answer);
        let first = m.step(answer);
        assert(first.machine.frames[frame] == m.frames[frame]);
        if first.action is Continue {
            law_run_keeps_frame(first.machine, None, (fuel - 1) as nat, frame);
        }
    }
}

/// New frames do not change what the chains of the frames before them
/// hold.
pub proof fn lemma_holder_in_more_frames(
    frames: Seq<ScopeView>,
    more: ScopeView,
    frame: nat,
    name: Seq<char>,
)
    requires
        frame < frames.len(),
    ensures
        holder(frames.push(more), frame, name) == holder(frames, frame, name),
        lookup(frames.push(more), frame, name) == lookup(frames, frame, name),
    decreases frame,
{
    let after = frames.push(more);
    assert(after[frame as int] == frames[frame as int]);
    if !frames[frame as int].bindings.contains_key(name) {
        match frames[frame as int].enclosing {
            Some(parent) => {
                if parent < frame {
                    lemma_holder_in_more_frames(frames, more, parent as nat, name);
                }
            },
            None => {},
        }
    }
    crate::environment::lemma_holder_in_range(frames, frame, name);
}

/// The bindings of parameters hold the names of parameters only.
pub proof fn lemma_bind_all_names<'a>(
    params: Seq<crate::token::Token>,
    arguments: Seq<ValueView<'a>>,
    count: nat,
    name: Seq<char>,
)
    requires
        forall|k: int| 0 <= k < params.len() ==> (#[trigger] params[k]).lexeme@ != name,
    ensures
        !bind_all(Map::empty(), params, arguments, count).contains_key(name),
    decreases count,
{
    if !(count == 0 || count > params.len() || count > arguments.len()) {
        lemma_bind_all_names(params, arguments, (count - 1) as nat, name);
        assert(params[count - 1].lexeme@ != name);
    }
}

/// A call runs in the function's closure, not where it is called: the new
/// current frame is a new frame whose enclosing frame is the closure, and
/// a name that is no parameter is found from there exactly where it is
/// found from the closure, in the same frame of the arena. So the body
/// reads and writes the variables of the closure themselves, for every
/// call of every function value with that closure, and what it writes
/// stays after the call.
pub proof fn law_call_runs_in_the_closure<'a>(
    m: Machine<'a>,
    function: Callable<'a>,
    arguments: Seq<ValueView<'a>>,
    name: Seq<char>,
)
    requires
        function.closure < m.frames.len(),
        m.frames.len() < usize::MAX,
        forall|k: int| 0 <= k < function.params@.len() ==> (#[trigger] function.params@[k]).lexeme@
            != name,
    ensures
        m.call(function, arguments).machine.environment == m.frames.len(),
        m.call(function, arguments).machine.frames[m.frames.len() as int].enclosing == Some(
            function.closure,
        ),
        holder(
            m.call(function, arguments).machine.frames,
            m.call(function, arguments).machine.environment as nat,
            name,
        ) == holder(m.frames, function.closure as nat, name),
        lookup(
            m.call(function, arguments).machine.frames,
            m.call(function, arguments).machine.environment as nat,
            name,
        ) == lookup(m.frames, function.closure as nat, name),
{
    let after = m.call(function, arguments).machine;
    let scope = after.frames[m.frames.len() as int];
    lemma_bind_all_names(
        function.params@,
        arguments,
        crate::machine::pairs(function.params@, arguments),
        name,
    );
    assert(after.frames == m.frames.push(scope));
    lemma_holder_in_more_frames(m.frames, scope, function.closure as nat, name);
    crate::environment::lemma_holder_in_range(m.frames, function.closure as nat, name);
}

/// A block runs in a frame of its own: entering a block makes a new, empty
/// frame inside the current one the current frame, and leaves every frame
/// that exists as it is. With `law_step_keeps_frames`, what the block
/// declares is bound in that frame and in no frame outside the block.
pub proof fn law_block_opens_its_own_frame<'a>(m: Machine<'a>, statements: &'a Vec<Stmt>)
    requires
        m.wf(),
        m.frames.len() < usize::MAX,
    ensures
        keeps(m, m.eval_block_stmt(statements, None).machine),
        m.eval_block_stmt(statements, None).machine.environment == m.frames.len(),
        m.eval_block_stmt(statements, None).machine.frames[m.frames.len() as int] == (ScopeView {
            bindings: Map::empty(),
            enclosing: Some(m.environment),
        }),
{
}

} // verus!
