//! The pacing of a drain: which command runs next, when the host's tick
//! budget is consulted, and when an invocation stops.

use vstd::prelude::*;
use crate::commands::{Command, CommandBuffer};
use crate::coords::Coord;

verus! {

/// The number of commands that run between two consultations of the host's
/// tick budget.
pub const MIN_PAUSE: usize = 100;

/// How an invocation ended.
#[derive(Clone, Copy, Debug, PartialEq, Eq, Structural)]
pub enum DrainStatus {
    /// The stack is empty: the session is complete.
    Done,
    /// The tick budget ran out with commands left: the session is suspended.
    MoreWorkPending,
}

/// What the drain loop does next.
#[derive(Clone, Copy, Debug, PartialEq, Eq)]
pub enum Next {
    /// Run this command, which has left the stack, then report how it went.
    Run(Command),
    /// Ask the host whether the tick budget is exhausted, and report it.
    ConsultBudget,
    /// End the invocation with this status.
    Stop(DrainStatus),
}

/// The state of an invocation as a mathematical value.
pub ghost struct DrainState {
    /// The pending commands; the last one runs first.
    pub stack: Seq<Command>,
    /// The commands executed since the budget was last consulted.
    pub executed: nat,
    /// Whether the host has reported the budget exhausted.
    pub suspended: bool,
}

/// The state in which an invocation starts on `stack`.
pub open spec fn fresh(stack: Seq<Command>) -> DrainState {
    DrainState { stack, executed: 0, suspended: false }
}

/// What the loop does next in state `s`: it stops once suspended or out of
/// commands, consults the budget when a full batch has been executed, and
/// runs the top of the stack otherwise.
pub open spec fn next_action(s: DrainState) -> Next {
    if s.suspended {
        Next::Stop(DrainStatus::MoreWorkPending)
    } else if s.stack.len() == 0 {
        Next::Stop(DrainStatus::Done)
    } else if s.executed >= MIN_PAUSE {
        Next::ConsultBudget
    } else {
        Next::Run(s.stack.last())
    }
}

/// The state after the loop has been told what to do next: a command that is
/// handed out to run has left the stack.
pub open spec fn after_next(s: DrainState) -> DrainState {
    match next_action(s) {
        Next::Run(_) => DrainState { stack: s.stack.drop_last(), ..s },
        _ => s,
    }
}

/// The state after a command has run. A command that was skipped does not
/// count towards the batch, and a full batch does not grow.
pub open spec fn after_command(s: DrainState, skipped: bool) -> DrainState {
    if skipped || s.executed >= MIN_PAUSE {
        s
    } else {
        DrainState { executed: s.executed + 1, ..s }
    }
}

/// The state after the host has answered a consultation: an exhausted budget
/// suspends the invocation, anything else starts a new batch.
pub open spec fn after_budget(s: DrainState, exhausted: bool) -> DrainState {
    if exhausted {
        DrainState { suspended: true, ..s }
    } else {
        DrainState { executed: 0, ..s }
    }
}

/// The pacing state of one invocation. The commands themselves stay in the
/// buffer that is drained.
#[derive(Debug)]
pub struct Drain {
    executed: usize,
    suspended: bool,
}

impl Drain {
    /// The commands executed since the budget was last consulted.
    pub closed spec fn executed(&self) -> nat {
        self.executed as nat
    }

    /// Whether the host has reported the budget exhausted.
    pub closed spec fn suspended(&self) -> bool {
        self.suspended
    }

    /// The state of the invocation on `buffer`.
    pub open spec fn state(&self, buffer: &CommandBuffer) -> DrainState {
        DrainState {
            stack: buffer.commands@,
            executed: self.executed(),
            suspended: self.suspended(),
        }
    }

    /// Starts an invocation on `buffer`. Before anything is resolved, the
    /// tile cache takes note of the extent that the host reports now.
    pub fn begin(buffer: &mut CommandBuffer, world_bounds: Coord) -> (d: Drain)
        requires
            old(buffer).wf(),
        ensures
            final(buffer).wf(),
            final(buffer).cached_turfs@ == old(buffer).cached_turfs@.invalidated(world_bounds),
            final(buffer).created_areas == old(buffer).created_areas,
            final(buffer).known_types == old(buffer).known_types,
            final(buffer).commands == old(buffer).commands,
            d.state(final(buffer)) == fresh(old(buffer).commands@),
    {
        buffer.cached_turfs.check_invalidate(world_bounds);
        Drain { executed: 0, suspended: false }
    }

    /// Decides what the loop does next. A command that is handed out to run
    /// has left the stack.
    pub fn next(&mut self, buffer: &mut CommandBuffer) -> (n: Next)
        ensures
            n == next_action(old(self).state(old(buffer))),
            final(self).state(final(buffer)) == after_next(old(self).state(old(buffer))),
            final(buffer).cached_turfs == old(buffer).cached_turfs,
            final(buffer).created_areas == old(buffer).created_areas,
            final(buffer).known_types == old(buffer).known_types,
    {
        if self.suspended {
            return Next::Stop(DrainStatus::MoreWorkPending);
        }
        if buffer.commands.len() == 0 {
            return Next::Stop(DrainStatus::Done);
        }
        if self.executed >= MIN_PAUSE {
            return Next::ConsultBudget;
        }
        match buffer.commands.pop() {
            Some(command) => Next::Run(command),
            None => Next::Stop(DrainStatus::Done),
        }
    }

    /// Takes note that the command handed out last has run. A command that
    /// was skipped does not count towards the batch.
    pub fn command_done(&mut self, skipped: bool)
        ensures
            forall|buffer: &CommandBuffer| #[trigger]
                final(self).state(buffer) == after_command(old(self).state(buffer), skipped),
    {
        if !skipped && self.executed < MIN_PAUSE {
            self.executed = self.executed + 1;
        }
    }

    /// Takes note of the host's answer to a consultation of the tick budget.
    pub fn budget(&mut self, exhausted: bool)
        ensures
            forall|buffer: &CommandBuffer| #[trigger]
                final(self).state(buffer) == after_budget(old(self).state(buffer), exhausted),
    {
        if exhausted {
            self.suspended = true;
        } else {
            self.executed = 0;
        }
    }
}

/// One whole invocation from state `s`, on a host that runs every command to
/// its end and reports the budget exhausted whenever it is asked: the
/// commands that run, in the order they run, the state in which the
/// invocation stops, and the status it stops with.
pub open spec fn invocation(s: DrainState) -> (Seq<Command>, DrainState, DrainStatus)
    decreases s.stack.len(), (if s.suspended { 0nat } else { 1nat }),
{
    match next_action(s) {
        Next::Stop(status) => (Seq::empty(), s, status),
        Next::ConsultBudget => invocation(after_budget(s, true)),
        Next::Run(command) => {
            let (ran, end, status) = invocation(after_command(after_next(s), false));
            (seq![command] + ran, end, status)
        },
    }
}

/// The number of invocations it takes to empty `stack` on such a host.
pub open spec fn invocations_needed(stack: Seq<Command>) -> nat
    decreases stack.len(),
{
    let (_ran, end, status) = invocation(fresh(stack));
    if status == DrainStatus::Done || end.stack.len() >= stack.len() {
        1
    } else {
        1 + invocations_needed(end.stack)
    }
}

/// Every command that runs until `stack` is empty on such a host, over all
/// the invocations it takes, in the order they run.
pub open spec fn run_order(stack: Seq<Command>) -> Seq<Command>
    decreases stack.len(),
{
    let (ran, end, status) = invocation(fresh(stack));
    if status == DrainStatus::Done || end.stack.len() >= stack.len() {
        ran
    } else {
        ran + run_order(end.stack)
    }
}

/// The number of commands that one invocation runs from a state with `len`
/// commands on the stack and `executed` commands in the current batch.
pub open spec fn batch(len: nat, executed: nat) -> nat {
    if executed >= MIN_PAUSE {
        0
    } else if len <= MIN_PAUSE - executed {
        len
    } else {
        (MIN_PAUSE - executed) as nat
    }
}

/// What one invocation does: it runs one batch of commands from the top of
/// the stack, in stack order, leaves the rest of the stack as it was, and
/// reports the session done exactly when nothing is left.
pub proof fn lemma_invocation(s: DrainState)
    requires
        !s.suspended,
    ensures
        ({
            let (ran, end, status) = invocation(s);
            let b = batch(s.stack.len(), s.executed);
            &&& ran.len() == b
            &&& forall|i: int| 0 <= i < b ==> #[trigger] ran[i] == s.stack[s.stack.len() - 1 - i]
            &&& end.stack == s.stack.take(s.stack.len() - b)
            &&& (status == DrainStatus::Done) == (end.stack.len() == 0)
        }),
    decreases s.stack.len(),
{
    match next_action(s) {
        Next::Stop(_) => {
            assert(s.stack.take(0) =~= s.stack);
        },
        Next::ConsultBudget => {
            let t = after_budget(s, true);
            assert(invocation(s) == invocation(t));
            assert(next_action(t) == Next::Stop(DrainStatus::MoreWorkPending));
            assert(s.stack.take(s.stack.len() as int) =~= s.stack);
        },
        Next::Run(command) => {
            let t = after_command(after_next(s), false);
            lemma_invocation(t);
            let (ran, end, status) = invocation(t);
            let b = batch(s.stack.len(), s.executed);
            assert(batch(t.stack.len(), t.executed) == b - 1);
            assert(t.stack.take(t.stack.len() - (b - 1)) =~= s.stack.take(s.stack.len() - b));
            let all = seq![command] + ran;
            assert forall|i: int| 0 <= i < b implies #[trigger] all[i] == s.stack[s.stack.len() - 1 - i] by {
                if i > 0 {
                    assert(all[i] == ran[i - 1]);
                    assert(ran[i - 1] == t.stack[t.stack.len() - 1 - (i - 1)]);
                }
            }
        },
    }
}

/// A drain can be resumed: on a host that reports the budget exhausted
/// whenever it is asked, a stack of `n >= 1` commands is emptied in exactly
/// `ceil(n / MIN_PAUSE)` invocations, and over these every command runs
/// exactly once, the last of the stack first.
pub proof fn law_resumable(stack: Seq<Command>)
    requires
        stack.len() >= 1,
    ensures
        invocations_needed(stack) == (stack.len() + MIN_PAUSE - 1) / (MIN_PAUSE as int),
        run_order(stack) == stack.reverse(),
    decreases stack.len(),
{
    lemma_invocation(fresh(stack));
    let (ran, end, status) = invocation(fresh(stack));
    let n = stack.len();
    if n <= MIN_PAUSE {
        assert(end.stack.len() == 0);
        assert(ran =~= stack.reverse());
    } else {
        assert(end.stack == stack.take(n - MIN_PAUSE));
        law_resumable(end.stack);
        let rest = end.stack;
        assert(ran + rest.reverse() =~= stack.reverse()) by {
            assert forall|i: int| 0 <= i < n implies (ran + rest.reverse())[i] == stack.reverse()[i] by {
                if i >= MIN_PAUSE {
                    assert((ran + rest.reverse())[i] == rest.reverse()[i - MIN_PAUSE]);
                }
            }
        }
    }
}

/// A session is complete exactly when the invocation has emptied the stack,
/// which is also exactly when its buffer does not return to the store.
pub proof fn law_done_iff_empty(stack: Seq<Command>)
    ensures
        (invocation(fresh(stack)).2 == DrainStatus::Done) == (invocation(fresh(stack)).1.stack.len()
            == 0),
        (invocation(fresh(stack)).2 == DrainStatus::Done) == (stack.len() <= MIN_PAUSE),
{
    lemma_invocation(fresh(stack));
}

} // verus!
