//! Whole runs. A run is any number of steps, with whatever the host
//! answers in between. Over the whole run of a block, every declaration is
//! made in a frame that is newer than the block, so that the frames
//! outside change by assignments only; and what was written to a frame
//! stays as it is through every return, until the frame is written again.
use vstd::prelude::*;
use crate::balance::lemma_boundary_in_range;
use crate::interpreter::Task;
use crate::machine::{Machine, saved_frame};
use crate::stmt::Stmt;
use crate::writes::{assigns_to, declares, law_step_keeps_frames};

verus! {

/// The state after the first `count` steps of a run in which the host
/// answers the step `i` with `answers[i]`.
pub open spec fn reached<'a>(m: Machine<'a>, answers: Seq<Option<u64>>, count: nat) -> Machine<'a>
    decreases count,
{
    if count == 0 || answers.len() == 0 {
        m
    } else {
        reached(m.step(answers[0]).machine, answers.drop_first(), (count - 1) as nat)
    }
}

/// The block whose end is the task at `place` is under way: the task is
/// there, every frame that the tasks above it make current again is one
/// of the frames from `start` on, and so is the current frame.
pub open spec fn inside(m: Machine, place: nat, start: nat, outer: usize) -> bool {
    &&& m.tasks.len() > place
    &&& m.tasks[place as int] == Task::Restore(outer)
    &&& start <= m.environment
    &&& forall|i: int|
        place < i < m.tasks.len() ==> (saved_frame(#[trigger] m.tasks[i]) matches Some(frame) ==> start
            <= frame)
}

/// The step from `rest` ends the evaluation, or it keeps the tasks and
/// adds tasks that make no other frame than the current one current
/// again, and the current frame stays or gives way to a new one.
pub open spec fn grows(rest: Machine, next: Machine) -> bool {
    next.tasks.len() == 0 || {
        &&& next.tasks.len() >= rest.tasks.len()
        &&& forall|i: int| 0 <= i < rest.tasks.len() ==> #[trigger] next.tasks[i] == rest.tasks[i]
        &&& forall|i: int|
            rest.tasks.len() <= i < next.tasks.len() ==> (saved_frame(#[trigger] next.tasks[i]) matches Some(
                frame,
            ) ==> frame == rest.environment)
        &&& (next.environment == rest.environment || next.environment >= rest.frames.len()
            || next.frames.len() > usize::MAX)
    }
}

/// The step from `rest` ends the evaluation, or it drops tasks down to
/// one that makes a frame current again, which then is the current one.
pub open spec fn shrinks(rest: Machine, next: Machine) -> bool {
    next.tasks.len() == 0 || {
        &&& next.tasks.len() < rest.tasks.len()
        &&& next.tasks == rest.tasks.subrange(0, next.tasks.len() as int)
        &&& saved_frame(rest.tasks[next.tasks.len() as int]) == Some(next.environment)
    }
}

proof fn lemma_execute_grows<'a>(rest: Machine<'a>, stmt: &'a Stmt)
    requires
        rest.wf(),
    ensures
        grows(rest, rest.execute(stmt).machine),
{
}

proof fn lemma_evaluate_grows<'a>(rest: Machine<'a>, expr: &'a crate::expr::Expr)
    requires
        rest.wf(),
    ensures
        grows(rest, rest.evaluate(expr).machine),
{
}

proof fn lemma_invoke_grows<'a>(rest: Machine<'a>, paren: &'a crate::token::Token, count: usize)
    requires
        rest.wf(),
    ensures
        grows(rest, rest.evaluate_call(paren, count).machine),
{
}

proof fn lemma_return_shrinks<'a>(rest: Machine<'a>, value: crate::value::ValueView<'a>)
    requires
        rest.wf(),
    ensures
        shrinks(rest, rest.eval_return_stmt(value).machine),
{
    lemma_boundary_in_range(rest.tasks, rest.tasks.len());
}

proof fn lemma_proceed_grows<'a>(rest: Machine<'a>, task: Task<'a>)
    requires
        rest.wf(),
        !(task is Return),
    ensures
        grows(rest, rest.proceed(task).machine),
{
}

/// What a step does to the tasks and the current frame.
proof fn lemma_step_grows_or_shrinks<'a>(m: Machine<'a>, answer: Option<u64>)
    requires
        m.wf(),
        m.tasks.len() > 0,
    ensures
        m.step(answer).machine == m || grows(
            Machine { tasks: m.tasks.drop_last(), ..m },
            m.step(answer).machine,
        ) || shrinks(m, m.step(answer).machine),
{
    let rest = Machine { tasks: m.tasks.drop_last(), ..m };
    let next = m.step(answer).machine;
    match m.tasks.last() {
        Task::Await { request, purpose } => {},
        Task::Execute(stmt) => {
            lemma_execute_grows(rest, stmt);
        },
        Task::Statements { list, next } => {},
        Task::Restore(frame) => {
            if next.tasks.len() > 0 {
                assert(next.tasks =~= m.tasks.subrange(0, next.tasks.len() as int));
                assert(shrinks(m, next));
            }
        },
        Task::Evaluate(expr) => {
            lemma_evaluate_grows(rest, expr);
        },
        Task::Arguments { arguments, from } => {},
        Task::Invoke { paren, count } => {
            lemma_invoke_grows(rest, paren, count);
        },
        Task::Finish { environment, height } => {
            if next.tasks.len() > 0 {
                assert(next.tasks =~= m.tasks.subrange(0, next.tasks.len() as int));
                assert(shrinks(m, next));
            }
        },
        Task::Return => {
            if m.values.len() > 0 {
                let inner = rest.taken();
                lemma_return_shrinks(inner, m.values.last());
                if next.tasks.len() > 0 {
                    assert(next.tasks =~= m.tasks.subrange(0, next.tasks.len() as int));
                    assert(shrinks(m, next));
                }
            }
        },
        task => {
            lemma_proceed_grows(rest, task);
        },
    }
}

/// A step leaves the block, or the block is under way after it.
proof fn lemma_step_stays_inside<'a>(m: Machine<'a>, answer: Option<u64>, place: nat, start: nat, outer: usize)
    requires
        m.wf(),
        inside(m, place, start, outer),
        start <= m.frames.len(),
        m.step(answer).machine.tasks.len() > place,
        m.step(answer).machine.frames.len() <= usize::MAX,
    ensures
        inside(m.step(answer).machine, place, start, outer),
{
    let rest = Machine { tasks: m.tasks.drop_last(), ..m };
    let next = m.step(answer).machine;
    lemma_step_grows_or_shrinks(m, answer);
    if next == m {
    } else if grows(rest, next) {
        assert(rest.tasks.len() >= place);
        if rest.tasks.len() == place {
            assert(m.tasks.last() == Task::Restore(outer));
        }
        assert forall|i: int| place < i < next.tasks.len() implies (saved_frame(
            #[trigger] next.tasks[i],
        ) matches Some(frame) ==> start <= frame) by {
            if i < rest.tasks.len() {
                assert(next.tasks[i] == rest.tasks[i]);
                assert(rest.tasks[i] == m.tasks[i]);
            }
        }
        assert(next.tasks[place as int] == rest.tasks[place as int]);
    } else {
        let n = next.tasks.len() as int;
        assert(saved_frame(m.tasks[n]) == Some(next.environment));
        assert forall|i: int| place < i < n implies (saved_frame(#[trigger] next.tasks[i]) matches Some(
            frame,
        ) ==> start <= frame) by {
            assert(next.tasks[i] == m.tasks[i]);
        }
        assert(next.tasks[place as int] == m.tasks[place as int]);
    }
}

/// Entering a block puts it under way: its end is the task at the place
/// where the block stood, and its frame is the newest.
pub proof fn lemma_block_is_entered<'a>(m: Machine<'a>, statements: &'a Vec<Stmt>)
    requires
        m.wf(),
        m.frames.len() < usize::MAX,
    ensures
        inside(m.eval_block_stmt(statements, None).machine, m.tasks.len(), m.frames.len(), m.environment),
{
}

/// The frames of a run are never fewer than before.
proof fn lemma_run_keeps_arena<'a>(m: Machine<'a>, answers: Seq<Option<u64>>, count: nat)
    requires
        m.wf(),
    ensures
        reached(m, answers, count).wf(),
        reached(m, answers, count).frames.len() >= m.frames.len(),
    decreases count,
{
    if count > 0 && answers.len() > 0 {
        law_step_keeps_frames(m, answers[0]);
        lemma_run_keeps_arena(m.step(answers[0]).machine, answers.drop_first(), (count - 1) as nat);
    }
}

/// While a block is under way, a frame that is older than the block
/// keeps its place, and changes in steps that assign to its variables
/// only.
proof fn lemma_run_stays_inside<'a>(
    m: Machine<'a>,
    answers: Seq<Option<u64>>,
    count: nat,
    place: nat,
    start: nat,
    outer: usize,
    frame: int,
)
    requires
        m.wf(),
        inside(m, place, start, outer),
        start <= m.frames.len(),
        0 <= frame < start,
        reached(m, answers, count).frames.len() <= usize::MAX,
        forall|i: nat| i <= count ==> (#[trigger] reached(m, answers, i)).tasks.len() > place,
    ensures
        inside(reached(m, answers, count), place, start, outer),
        reached(m, answers, count).frames[frame].enclosing == m.frames[frame].enclosing,
        (forall|i: nat| i < count ==> !assigns_to(#[trigger] reached(m, answers, i), frame)) ==> reached(
            m,
            answers,
            count,
        ).frames[frame] == m.frames[frame],
    decreases count,
{
    if count > 0 && answers.len() > 0 {
        let next = m.step(answers[0]).machine;
        let more = answers.drop_first();
        let fewer = (count - 1) as nat;
        law_step_keeps_frames(m, answers[0]);
        lemma_run_keeps_arena(next, more, fewer);
        assert(reached(m, answers, 1) == next) by {
            assert(reached(next, more, 0) == next);
        }
        assert forall|i: nat| i <= fewer implies (#[trigger] reached(next, more, i)).tasks.len() > place by {
            assert(reached(m, answers, i + 1) == reached(next, more, i));
        }
        assert(reached(next, more, 0) == next);
        lemma_step_stays_inside(m, answers[0], place, start, outer);
        lemma_run_stays_inside(next, more, fewer, place, start, outer, frame);
        if forall|i: nat| i < count ==> !assigns_to(#[trigger] reached(m, answers, i), frame) {
            assert(reached(m, answers, 0) == m);
            assert(!assigns_to(m, frame));
            assert forall|i: nat| i < fewer implies !assigns_to(#[trigger] reached(next, more, i), frame) by {
                assert(reached(m, answers, i + 1) == reached(next, more, i));
            }
        }
    }
}

/// A block declares in its own frames. Take a block that is entered, and
/// any run from there during which the block is not left, whatever it
/// executes, whatever functions it calls, and whatever the host answers.
/// Then every frame that existed when the block was entered is still
/// inside the same frame, the frame that was current then is made current
/// again by the task that ends the block, and unless a step of the run
/// assigns to a variable of the frame, the frame holds what it held: a
/// declaration in the block, or in a block or a call inside it, never
/// writes a binding outside.
pub proof fn law_block_declares_inside<'a>(
    m: Machine<'a>,
    statements: &'a Vec<Stmt>,
    answers: Seq<Option<u64>>,
    count: nat,
    frame: int,
)
    requires
        m.wf(),
        0 <= frame < m.frames.len(),
        reached(m.eval_block_stmt(statements, None).machine, answers, count).frames.len() <= usize::MAX,
        forall|i: nat|
            i <= count ==> (#[trigger] reached(m.eval_block_stmt(statements, None).machine, answers, i)).tasks.len()
                > m.tasks.len(),
    ensures
        frame < reached(m.eval_block_stmt(statements, None).machine, answers, count).frames.len(),
        reached(m.eval_block_stmt(statements, None).machine, answers, count).frames[frame].enclosing
            == m.frames[frame].enclosing,
        reached(m.eval_block_stmt(statements, None).machine, answers, count).environment >= m.frames.len(),
        reached(m.eval_block_stmt(statements, None).machine, answers, count).tasks[m.tasks.len() as int]
            == Task::Restore(m.environment),
        (forall|i: nat|
            i < count ==> !assigns_to(
                #[trigger] reached(m.eval_block_stmt(statements, None).machine, answers, i),
                frame,
            ))
            ==> reached(m.eval_block_stmt(statements, None).machine, answers, count).frames[frame]
            == m.frames[frame],
{
    let entered = m.eval_block_stmt(statements, None).machine;
    lemma_run_keeps_arena(entered, answers, count);
    lemma_block_is_entered(m, statements);
    lemma_run_stays_inside(entered, answers, count, m.tasks.len(), m.frames.len(), m.environment, frame);
    assert(entered.frames[frame] == m.frames[frame]);
}

/// A block ends in the frame in which it began. Take a block that is
/// entered and a run from there during which the block is not left, and
/// let only the task that ends the block be left of it. Then the next
/// step leaves the block: it makes the frame that was current before the
/// block current again, and the evaluation goes on with what stood below
/// the block.
pub proof fn law_block_ends_where_it_began<'a>(
    m: Machine<'a>,
    statements: &'a Vec<Stmt>,
    answers: Seq<Option<u64>>,
    count: nat,
    answer: Option<u64>,
)
    requires
        m.wf(),
        reached(m.eval_block_stmt(statements, None).machine, answers, count).frames.len() <= usize::MAX,
        forall|i: nat|
            i <= count ==> (#[trigger] reached(m.eval_block_stmt(statements, None).machine, answers, i)).tasks.len()
                > m.tasks.len(),
        reached(m.eval_block_stmt(statements, None).machine, answers, count).tasks.len() == m.tasks.len() + 1,
    ensures
        reached(m.eval_block_stmt(statements, None).machine, answers, count).step(answer).action
            is Continue,
        reached(m.eval_block_stmt(statements, None).machine, answers, count).step(
            answer,
        ).machine.environment == m.environment,
        reached(m.eval_block_stmt(statements, None).machine, answers, count).step(
            answer,
        ).machine.tasks.len() == m.tasks.len(),
{
    let entered = m.eval_block_stmt(statements, None).machine;
    lemma_run_keeps_arena(entered, answers, count);
    lemma_block_is_entered(m, statements);
    lemma_run_stays_inside(entered, answers, count, m.tasks.len(), m.frames.len(), m.environment, 0);
    let last = reached(entered, answers, count);
    assert(last.tasks.last() == Task::Restore(m.environment));
}

/// What is written stays. Over any run, whatever blocks are entered and
/// left and whatever calls are made and return in it, a frame holds what
/// it held before unless a step of the run assigns to a variable of that
/// frame, or declares in it: no return and no end of a block takes back
/// what a function wrote to a frame of its closure.
pub proof fn law_writes_outlive_returns<'a>(m: Machine<'a>, answers: Seq<Option<u64>>, count: nat, frame: int)
    requires
        m.wf(),
        0 <= frame < m.frames.len(),
        forall|i: nat|
            i < count ==> !assigns_to(#[trigger] reached(m, answers, i), frame) && !(declares(
                reached(m, answers, i),
            ) && reached(m, answers, i).environment == frame),
    ensures
        frame < reached(m, answers, count).frames.len(),
        reached(m, answers, count).frames[frame] == m.frames[frame],
    decreases count,
{
    if count > 0 && answers.len() > 0 {
        let next = m.step(answers[0]).machine;
        let more = answers.drop_first();
        let fewer = (count - 1) as nat;
        assert(reached(m, answers, 0) == m);
        assert(!assigns_to(m, frame) && !(declares(m) && m.environment == frame));
        law_step_keeps_frames(m, answers[0]);
        assert(next.frames[frame] == m.frames[frame]);
        assert forall|i: nat| i < fewer implies !assigns_to(#[trigger] reached(next, more, i), frame) && !(
        declares(reached(next, more, i)) && reached(next, more, i).environment == frame) by {
            assert(reached(m, answers, i + 1) == reached(next, more, i));
        }
        law_writes_outlive_returns(next, more, fewer, frame);
    }
}

} // verus!
