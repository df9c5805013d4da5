//! The dispatch core of the event-loop scheduler: one state block holding the
//! stop flag, the FIFO of ready tasks and the due-time-ordered delayed tasks,
//! and the decision the dispatch loop takes on it at each turn.
//!
//! The block is meant to sit behind one lock. A caller that holds the lock
//! submits work or asks for the next action; the action tells it to run a task
//! (after releasing the lock), to wait on the paired condition variable, with or
//! without a timeout, or to leave the loop.
use std::collections::VecDeque;
use vstd::prelude::*;

use crate::time::{Delay, Timestamp};

verus! {

/// A task paired with the instant at or after which it may run.
pub struct DelayedTask<T> {
    pub task: T,
    pub duetime: Timestamp,
}

/// What the dispatch loop does next.
pub enum LoopAction<T> {
    /// The engine has been stopped: leave the loop.
    Exit,
    /// A task to execute now, outside the lock; afterwards the loop asks again.
    Run(T),
    /// The earliest delayed task has come due and joined the ready queue: ask again.
    Promoted,
    /// Nothing is pending: wait until a producer signals.
    WaitForSignal,
    /// The earliest delayed task comes due after this span: wait until a
    /// producer signals or the span has passed, then ask again.
    WaitFor(Delay),
}

/// The abstract value of an engine's state block.
pub struct LoopModel<T> {
    pub stopped: bool,
    /// Tasks ready to run, oldest first.
    pub ready: Seq<T>,
    /// Tasks waiting for their due time, earliest first; among equal due
    /// times, in the order they were submitted.
    pub delayed: Seq<DelayedTask<T>>,
}

pub open spec fn sorted_by_due<T>(s: Seq<DelayedTask<T>>) -> bool {
    forall|i: int, j: int| 0 <= i < j < s.len() ==> s[i].duetime.nanos <= s[j].duetime.nanos
}

/// Where a task due at `due` joins `s`: after the leading run of tasks due no
/// later than it.
pub open spec fn insertion_index<T>(s: Seq<DelayedTask<T>>, due: int) -> int
    decreases s.len(),
{
    if s.len() == 0 {
        0
    } else if s[0].duetime.nanos <= due {
        1 + insertion_index(s.drop_first(), due)
    } else {
        0
    }
}

impl<T> LoopModel<T> {
    /// A fresh engine: running, nothing pending.
    pub open spec fn initial() -> LoopModel<T> {
        LoopModel { stopped: false, ready: Seq::empty(), delayed: Seq::empty() }
    }

    pub open spec fn wf(self) -> bool {
        sorted_by_due(self.delayed)
    }

    pub open spec fn schedule(self, task: T) -> LoopModel<T> {
        LoopModel { stopped: self.stopped, ready: self.ready.push(task), delayed: self.delayed }
    }

    pub open spec fn schedule_absolute(self, duetime: Timestamp, task: T) -> LoopModel<T> {
        LoopModel {
            stopped: self.stopped,
            ready: self.ready,
            delayed: self.delayed.insert(
                insertion_index(self.delayed, duetime.nanos as int),
                DelayedTask { task, duetime },
            ),
        }
    }

    /// Stopping is allowed once: a second stop is a caller's error.
    pub open spec fn stop(self) -> LoopModel<T>
        recommends
            !self.stopped,
    {
        LoopModel { stopped: true, ready: self.ready, delayed: self.delayed }
    }

    /// One turn of the dispatch loop at wall-clock time `now`.
    pub open spec fn step(self, now: Timestamp) -> (LoopModel<T>, LoopAction<T>) {
        if self.stopped {
            (self, LoopAction::Exit)
        } else if self.ready.len() > 0 {
            (
                LoopModel { stopped: false, ready: self.ready.drop_first(), delayed: self.delayed },
                LoopAction::Run(self.ready[0]),
            )
        } else if self.delayed.len() == 0 {
            (self, LoopAction::WaitForSignal)
        } else if self.delayed[0].duetime.nanos <= now.nanos {
            (
                LoopModel {
                    stopped: false,
                    ready: self.ready.push(self.delayed[0].task),
                    delayed: self.delayed.drop_first(),
                },
                LoopAction::Promoted,
            )
        } else {
            (
                self,
                LoopAction::WaitFor(self.delayed[0].duetime.spec_delay_until(now)),
            )
        }
    }
}

/// In a due-time-ordered sequence the insertion index splits the tasks due no
/// later than `due` from those due after it.
pub proof fn lemma_insertion_index_splits<T>(s: Seq<DelayedTask<T>>, due: int)
    requires
        sorted_by_due(s),
    ensures
        0 <= insertion_index(s, due) <= s.len(),
        forall|j: int| 0 <= j < insertion_index(s, due) ==> s[j].duetime.nanos <= due,
        forall|j: int| insertion_index(s, due) <= j < s.len() ==> s[j].duetime.nanos > due,
    decreases s.len(),
{
    if s.len() > 0 && s[0].duetime.nanos <= due {
        let t = s.drop_first();
        assert(sorted_by_due(t));
        lemma_insertion_index_splits(t, due);
        assert forall|j: int| 0 <= j < insertion_index(s, due) implies s[j].duetime.nanos <= due by {
            if j > 0 {
                assert(s[j] == t[j - 1]);
            }
        }
        assert forall|j: int| insertion_index(s, due) <= j < s.len() implies s[j].duetime.nanos
            > due by {
            assert(s[j] == t[j - 1]);
        }
    }
}

/// Inserting at the insertion index keeps a sequence ordered by due time.
pub proof fn lemma_insert_keeps_order<T>(s: Seq<DelayedTask<T>>, d: DelayedTask<T>)
    requires
        sorted_by_due(s),
    ensures
        sorted_by_due(s.insert(insertion_index(s, d.duetime.nanos as int), d)),
{
    lemma_insertion_index_splits(s, d.duetime.nanos as int);
    let k = insertion_index(s, d.duetime.nanos as int);
    let r = s.insert(k, d);
    assert forall|i: int, j: int| 0 <= i < j < r.len() implies r[i].duetime.nanos
        <= r[j].duetime.nanos by {
        if i < k && j > k {
            assert(r[i] == s[i]);
            assert(r[j] == s[j - 1]);
        } else if j > k {
            assert(r[j] == s[j - 1]);
        } else if i < k {
            assert(r[i] == s[i]);
        }
    }
}

/// The state block of an event-loop engine.
pub struct EventLoopState<T> {
    stopped: bool,
    ready: VecDeque<T>,
    delayed: Vec<DelayedTask<T>>,
}

impl<T> View for EventLoopState<T> {
    type V = LoopModel<T>;

    closed spec fn view(&self) -> LoopModel<T> {
        LoopModel { stopped: self.stopped, ready: self.ready@, delayed: self.delayed@ }
    }
}

/// The index at which a task due at `due` joins `delayed`.
fn insertion_point<T>(delayed: &Vec<DelayedTask<T>>, due: i128) -> (i: usize)
    ensures
        i == insertion_index(delayed@, due as int),
{
    let mut i: usize = 0;
    assert(delayed@.skip(0) =~= delayed@);
    while i < delayed.len() && delayed[i].duetime.nanos <= due
        invariant
            0 <= i <= delayed.len(),
            insertion_index(delayed@, due as int) == i + insertion_index(delayed@.skip(i as int), due as int),
        decreases delayed.len() - i,
    {
        assert(delayed@.skip(i as int).drop_first() =~= delayed@.skip(i + 1));
        i = i + 1;
    }
    i
}

impl<T> EventLoopState<T> {
    /// A running engine with nothing pending.
    pub fn new() -> (r: EventLoopState<T>)
        ensures
            r@ == LoopModel::<T>::initial(),
            r@.wf(),
    {
        let r = EventLoopState { stopped: false, ready: VecDeque::new(), delayed: Vec::new() };
        assert(r@.ready =~= Seq::<T>::empty());
        assert(r@.delayed =~= Seq::<DelayedTask<T>>::empty());
        r
    }

    /// Whether `stop` has been called.
    pub fn is_stopped(&self) -> (r: bool)
        ensures
            r == self@.stopped,
    {
        self.stopped
    }

    /// Appends `task` to the ready queue.
    pub fn schedule(&mut self, task: T)
        requires
            old(self)@.wf(),
        ensures
            final(self)@ == old(self)@.schedule(task),
            final(self)@.wf(),
    {
        self.ready.push_back(task);
    }

    /// Adds `task` to the delayed tasks, due at `duetime`: after every task
    /// due no later, before every task due after it.
    pub fn schedule_absolute(&mut self, duetime: Timestamp, task: T)
        requires
            old(self)@.wf(),
        ensures
            final(self)@ == old(self)@.schedule_absolute(duetime, task),
            final(self)@.wf(),
    {
        let i = insertion_point(&self.delayed, duetime.nanos);
        proof {
            lemma_insertion_index_splits(self.delayed@, duetime.nanos as int);
            lemma_insert_keeps_order(self.delayed@, DelayedTask { task, duetime });
        }
        self.delayed.insert(i, DelayedTask { task, duetime });
    }

    /// Adds `task` to the delayed tasks, due `delay` after `now`. Where that
    /// instant lies beyond what a `Timestamp` holds, nothing changes and the
    /// task is handed back.
    pub fn schedule_relative(&mut self, now: Timestamp, delay: Delay, task: T) -> (r: Result<(), T>)
        requires
            old(self)@.wf(),
        ensures
            final(self)@.wf(),
            now.nanos + delay.total_nanos() <= i128::MAX ==> r is Ok && final(self)@ == old(
                self,
            )@.schedule_absolute(
                Timestamp { nanos: (now.nanos + delay.total_nanos()) as i128 },
                task,
            ),
            now.nanos + delay.total_nanos() > i128::MAX ==> r == Err::<(), T>(task) && final(self)@
                == old(self)@,
    {
        match now.after(delay) {
            Some(duetime) => {
                self.schedule_absolute(duetime, task);
                Ok(())
            },
            None => Err(task),
        }
    }

    /// Marks the engine stopped; pending tasks stay where they are and never
    /// run. Stopping twice is a programming error: a caller that cannot rule
    /// it out tests `is_stopped` first and fails loudly.
    pub fn stop(&mut self)
        requires
            old(self)@.wf(),
            !old(self)@.stopped,
        ensures
            final(self)@ == old(self)@.stop(),
            final(self)@.wf(),
    {
        self.stopped = true;
    }

    /// One turn of the dispatch loop at wall-clock time `now`: leave when
    /// stopped; else hand out the oldest ready task; else, with no delayed
    /// task, wait for a signal; else move the earliest delayed task to the
    /// ready queue if it is due, or wait until it is.
    pub fn next_action(&mut self, now: Timestamp) -> (r: LoopAction<T>)
        requires
            old(self)@.wf(),
        ensures
            (final(self)@, r) == old(self)@.step(now),
            final(self)@.wf(),
    {
        if self.stopped {
            return LoopAction::Exit;
        }
        match self.ready.pop_front() {
            Some(task) => {
                assert(self.ready@ =~= old(self)@.ready.drop_first());
                LoopAction::Run(task)
            },
            None => {
                if self.delayed.len() == 0 {
                    LoopAction::WaitForSignal
                } else if self.delayed[0].duetime.nanos <= now.nanos {
                    let first = self.delayed.remove(0);
                    self.ready.push_back(first.task);
                    assert(self.delayed@ =~= old(self)@.delayed.drop_first());
                    LoopAction::Promoted
                } else {
                    LoopAction::WaitFor(self.delayed[0].duetime.delay_until(now))
                }
            },
        }
    }
}

} // verus!
