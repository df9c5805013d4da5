//! What holds of the event-loop engine over whole runs of its dispatch loop,
//! stated over the model of its state block.
//!
//! Every operation of `EventLoopState` is proved equal to its transition here:
//! `next_action(now)` takes the state from `s@` to `s@.step(now).0` and returns
//! `s@.step(now).1`, and `schedule`, `schedule_absolute`, `schedule_relative`
//! and `stop` move it as `LoopModel`'s functions of the same names do. So a
//! run of `next_action` calls at clock readings `nows`, with nothing submitted
//! between them, returns the actions of `run_turns(s@, nows)`; and the
//! countdown traces are the runs of a loop whose tasks make those calls.
use vstd::prelude::*;

use crate::event_loop::{
    lemma_insertion_index_splits, insertion_index, DelayedTask, LoopAction, LoopModel,
};
use crate::time::{lemma_delay_from_nanos, Delay, Timestamp, NANOS_PER_SEC};

verus! {

/// The state after submitting each task of `ts` with `schedule`, in order.
pub open spec fn schedule_each<T>(m: LoopModel<T>, ts: Seq<T>) -> LoopModel<T>
    decreases ts.len(),
{
    if ts.len() == 0 {
        m
    } else {
        schedule_each(m, ts.drop_last()).schedule(ts.last())
    }
}

/// Turns of the dispatch loop, one per clock reading of `nows`, with nothing
/// submitted meanwhile: the state reached and the actions taken.
pub open spec fn run_turns<T>(m: LoopModel<T>, nows: Seq<Timestamp>) -> (
    LoopModel<T>,
    Seq<LoopAction<T>>,
)
    decreases nows.len(),
{
    if nows.len() == 0 {
        (m, Seq::empty())
    } else {
        let (m1, a) = m.step(nows[0]);
        let (m2, acts) = run_turns(m1, nows.drop_first());
        (m2, seq![a] + acts)
    }
}

/// The dispatch loop running countdown tasks, at most `fuel` turns at clock
/// reading `now`: the task holding `k` runs, then submits the task holding
/// `k - 1`, or stops the engine when `k` is zero. The state reached and the
/// counters of the tasks run, in order.
pub open spec fn countdown_trace(m: LoopModel<nat>, now: Timestamp, fuel: nat) -> (
    LoopModel<nat>,
    Seq<nat>,
)
    decreases fuel,
{
    if fuel == 0 {
        (m, Seq::empty())
    } else {
        let (m1, a) = m.step(now);
        match a {
            LoopAction::Run(k) => {
                let m2 = if k > 0 {
                    m1.schedule((k - 1) as nat)
                } else {
                    m1.stop()
                };
                let (m3, ks) = countdown_trace(m2, now, (fuel - 1) as nat);
                (m3, seq![k] + ks)
            },
            LoopAction::Exit => (m1, Seq::empty()),
            _ => countdown_trace(m1, now, (fuel - 1) as nat),
        }
    }
}

proof fn lemma_schedule_each<T>(m: LoopModel<T>, ts: Seq<T>)
    ensures
        schedule_each(m, ts) == (LoopModel { stopped: m.stopped, ready: m.ready + ts, delayed: m.delayed }),
    decreases ts.len(),
{
    if ts.len() == 0 {
        assert(m.ready + ts =~= m.ready);
    } else {
        lemma_schedule_each(m, ts.drop_last());
        assert((m.ready + ts.drop_last()).push(ts.last()) =~= m.ready + ts);
    }
}

proof fn lemma_run_ready<T>(m: LoopModel<T>, nows: Seq<Timestamp>)
    requires
        !m.stopped,
        nows.len() <= m.ready.len(),
    ensures
        run_turns(m, nows).0 == (LoopModel {
            stopped: false,
            ready: m.ready.skip(nows.len() as int),
            delayed: m.delayed,
        }),
        run_turns(m, nows).1 == m.ready.take(nows.len() as int).map_values(
            |t: T| LoopAction::Run(t),
        ),
    decreases nows.len(),
{
    if nows.len() > 0 {
        let m1 = m.step(nows[0]).0;
        lemma_run_ready(m1, nows.drop_first());
        assert(m1.ready.skip(nows.len() - 1) =~= m.ready.skip(nows.len() as int));
        assert(seq![LoopAction::Run(m.ready[0])] + m1.ready.take(nows.len() - 1).map_values(
            |t: T| LoopAction::Run(t),
        ) =~= m.ready.take(nows.len() as int).map_values(|t: T| LoopAction::Run(t)));
    } else {
        assert(m.ready.take(0).map_values(|t: T| LoopAction::Run(t)) =~= Seq::empty());
        assert(m.ready.skip(0) =~= m.ready);
    }
}

proof fn lemma_run_turns_append<T>(m: LoopModel<T>, a: Seq<Timestamp>, b: Seq<Timestamp>)
    ensures
        run_turns(m, a + b) == (
            run_turns(run_turns(m, a).0, b).0,
            run_turns(m, a).1 + run_turns(run_turns(m, a).0, b).1,
        ),
    decreases a.len(),
{
    if a.len() == 0 {
        assert(a + b =~= b);
        assert(Seq::<LoopAction<T>>::empty() + run_turns(m, b).1 =~= run_turns(m, b).1);
    } else {
        let m1 = m.step(a[0]).0;
        assert((a + b).drop_first() =~= a.drop_first() + b);
        assert((a + b)[0] == a[0]);
        lemma_run_turns_append(m1, a.drop_first(), b);
        let x = run_turns(m1, a.drop_first()).1;
        let y = run_turns(run_turns(m1, a.drop_first()).0, b).1;
        assert(seq![m.step(a[0]).1] + (x + y) =~= (seq![m.step(a[0]).1] + x) + y);
    }
}

/// Tasks submitted with `schedule` while the loop is idle run in the order in
/// which they were submitted, one per turn.
pub proof fn law_fifo_dispatch<T>(m: LoopModel<T>, ts: Seq<T>, nows: Seq<Timestamp>)
    requires
        !m.stopped,
        m.ready.len() == 0,
        nows.len() == ts.len(),
    ensures
        run_turns(schedule_each(m, ts), nows).1 == ts.map_values(|t: T| LoopAction::Run(t)),
{
    lemma_schedule_each(m, ts);
    let m1 = schedule_each(m, ts);
    assert(m1.ready =~= ts);
    lemma_run_ready(m1, nows);
    assert(ts.take(ts.len() as int) =~= ts);
}

/// The actions of promoting and running the first `k` delayed tasks in turn.
spec fn promote_and_run<T>(delayed: Seq<DelayedTask<T>>, k: int) -> Seq<LoopAction<T>> {
    Seq::new(
        (2 * k) as nat,
        |x: int|
            if x % 2 == 0 {
                LoopAction::<T>::Promoted
            } else {
                LoopAction::Run(delayed[x / 2].task)
            },
    )
}

proof fn lemma_run_due<T>(m: LoopModel<T>, now: Timestamp, nows: Seq<Timestamp>, k: int)
    requires
        nows.len() == 2 * k,
        forall|x: int| 0 <= x < nows.len() ==> nows[x] == now,
        !m.stopped,
        m.ready.len() == 0,
        0 <= k <= m.delayed.len(),
        forall|q: int| 0 <= q < k ==> m.delayed[q].duetime.nanos <= now.nanos,
    ensures
        run_turns(m, nows) == (
            LoopModel { stopped: false, ready: Seq::<T>::empty(), delayed: m.delayed.skip(k) },
            promote_and_run(m.delayed, k),
        ),
    decreases k,
{
    if k == 0 {
        assert(m.delayed.skip(0) =~= m.delayed);
        assert(m.ready =~= Seq::<T>::empty());
        assert(promote_and_run(m.delayed, 0) =~= Seq::<LoopAction<T>>::empty());
    } else {
        let (m1, a1) = m.step(now);
        let (m2, a2) = m1.step(now);
        assert(m1.ready =~= seq![m.delayed[0].task]);
        assert(m2.ready =~= Seq::<T>::empty());
        let rest = LoopModel { stopped: false, ready: Seq::<T>::empty(), delayed: m.delayed.drop_first() };
        assert(m2 == rest);
        let nows2 = nows.drop_first().drop_first();
        lemma_run_due(rest, now, nows2, k - 1);
        assert(nows[0] == now);
        assert(nows.drop_first()[0] == now);
        assert(rest.delayed.skip(k - 1) =~= m.delayed.skip(k));
        let r2 = run_turns(rest, nows2);
        let r1 = run_turns(m1, nows.drop_first());
        assert(r1 == (r2.0, seq![a2] + r2.1));
        assert(run_turns(m, nows) == (r2.0, seq![a1] + r1.1));
        let acts = seq![a1] + (seq![a2] + promote_and_run(rest.delayed, k - 1));
        assert forall|x: int| 0 <= x < 2 * k implies acts[x] == promote_and_run(m.delayed, k)[x] by {
            if x >= 2 {
                assert(acts[x] == promote_and_run(rest.delayed, k - 1)[x - 2]);
                assert((x - 2) / 2 == x / 2 - 1);
                assert((x - 2) % 2 == x % 2);
            }
        }
        assert(acts =~= promote_and_run(m.delayed, k));
    }
}

/// Of two delayed tasks that have both come due, the one due earlier runs
/// first: the loop runs what is ready, then promotes and runs the delayed
/// tasks one by one in order of due time.
pub proof fn law_due_time_order<T>(m: LoopModel<T>, now: Timestamp, i: int, j: int)
    requires
        m.wf(),
        !m.stopped,
        0 <= i < m.delayed.len(),
        0 <= j < m.delayed.len(),
        m.delayed[i].duetime.nanos < m.delayed[j].duetime.nanos,
        m.delayed[j].duetime.nanos <= now.nanos,
    ensures
        i < j,
        ({
            let r = m.ready.len() as int;
            let acts = run_turns(m, Seq::new((r + 2 * (j + 1)) as nat, |x: int| now)).1;
            &&& acts[r + 2 * i + 1] == LoopAction::Run(m.delayed[i].task)
            &&& acts[r + 2 * j + 1] == LoopAction::Run(m.delayed[j].task)
        }),
{
    let r = m.ready.len() as int;
    let nows = Seq::new((r + 2 * (j + 1)) as nat, |x: int| now);
    let a = nows.take(r);
    let b = nows.skip(r);
    assert(a + b =~= nows);
    lemma_run_turns_append(m, a, b);
    lemma_run_ready(m, a);
    let m1 = run_turns(m, a).0;
    assert(m1.ready =~= Seq::<T>::empty());
    lemma_run_due(m1, now, b, j + 1);
    let acts = run_turns(m, nows).1;
    let due_acts = promote_and_run(m.delayed, j + 1);
    assert(acts[r + 2 * i + 1] == due_acts[2 * i + 1]);
    assert(acts[r + 2 * j + 1] == due_acts[2 * j + 1]);
    assert((2 * i + 1) / 2 == i);
    assert((2 * j + 1) / 2 == j);
}

/// A task leaves the delayed tasks only at a turn whose clock reading is no
/// earlier than its due time, and it is then the earliest of them; no other
/// turn adds to the ready queue or touches the delayed tasks.
pub proof fn law_promotion_never_early<T>(m: LoopModel<T>, now: Timestamp)
    requires
        m.wf(),
    ensures
        ({
            let (m1, a) = m.step(now);
            if a is Promoted {
                &&& m.delayed.len() > 0
                &&& m.delayed[0].duetime.nanos <= now.nanos
                &&& forall|k: int|
                    0 <= k < m.delayed.len() ==> m.delayed[0].duetime.nanos
                        <= #[trigger] m.delayed[k].duetime.nanos
                &&& m1.ready == m.ready.push(m.delayed[0].task)
                &&& m1.delayed == m.delayed.drop_first()
            } else {
                &&& m1.delayed == m.delayed
                &&& (m1.ready == m.ready || m1.ready == m.ready.drop_first())
            }
        }),
{
}

/// A task submitted `delay` after `now` is not ready at once: it waits among
/// the delayed tasks, due exactly `delay` after `now`.
pub proof fn law_relative_due<T>(m: LoopModel<T>, now: Timestamp, delay: Delay, task: T)
    requires
        m.wf(),
        now.nanos + delay.total_nanos() <= i128::MAX,
    ensures
        ({
            let due = Timestamp { nanos: (now.nanos + delay.total_nanos()) as i128 };
            let m1 = m.schedule_absolute(due, task);
            &&& m1.ready == m.ready
            &&& m1.delayed.len() == m.delayed.len() + 1
            &&& exists|k: int|
                0 <= k < m1.delayed.len() && m1.delayed[k] == (DelayedTask { task, duetime: due })
                    && m1.delayed.remove(k) == m.delayed
        }),
{
    let due = Timestamp { nanos: (now.nanos + delay.total_nanos()) as i128 };
    lemma_insertion_index_splits(m.delayed, due.nanos as int);
    let k = insertion_index(m.delayed, due.nanos as int);
    let m1 = m.schedule_absolute(due, task);
    assert(m1.delayed.remove(k) =~= m.delayed);
    assert(m1.delayed[k] == (DelayedTask { task, duetime: due }));
}

/// With nothing ready, the loop waits for the earliest delayed task exactly
/// until it falls due (where the span fits a `Delay`), and at any turn from
/// then on it promotes that task and runs it.
pub proof fn law_wait_ends_when_due<T>(m: LoopModel<T>, now: Timestamp, later: Timestamp)
    requires
        m.wf(),
        !m.stopped,
        m.ready.len() == 0,
        m.delayed.len() > 0,
        now.nanos < m.delayed[0].duetime.nanos <= later.nanos,
    ensures
        m.step(now) == (m, LoopAction::<T>::WaitFor(m.delayed[0].duetime.spec_delay_until(now))),
        (m.delayed[0].duetime.nanos - now.nanos) / (NANOS_PER_SEC as int) <= u64::MAX ==> now.nanos
            + m.delayed[0].duetime.spec_delay_until(now).total_nanos() == m.delayed[0].duetime.nanos,
        run_turns(m, seq![later, later]).1 == seq![
            LoopAction::<T>::Promoted,
            LoopAction::Run(m.delayed[0].task),
        ],
{
    lemma_delay_from_nanos((m.delayed[0].duetime.nanos - now.nanos) as nat);
    let (m1, a1) = m.step(later);
    assert(m1.ready =~= seq![m.delayed[0].task]);
    let (m2, a2) = m1.step(later);
    assert(seq![later, later].drop_first() =~= seq![later]);
    assert(seq![later].drop_first() =~= Seq::<Timestamp>::empty());
    let r2 = run_turns(m2, seq![later].drop_first());
    assert(r2.1 == Seq::<LoopAction<T>>::empty());
    let r1 = run_turns(m1, seq![later, later].drop_first());
    assert(r1.1 == seq![a2] + r2.1);
    assert(run_turns(m, seq![later, later]).1 == seq![a1] + r1.1);
    assert(run_turns(m, seq![later, later]).1 =~= seq![a1, a2]);
}

/// A submission ends an idle wait: after `schedule` the next turn runs a
/// task, and after `schedule_absolute` the loop never waits for a signal and
/// waits no longer than until the new task's due time.
pub proof fn law_submission_wakes_loop<T>(m: LoopModel<T>, task: T, duetime: Timestamp, now: Timestamp)
    requires
        m.wf(),
        !m.stopped,
    ensures
        m.schedule(task).step(now).1 is Run,
        !(m.schedule_absolute(duetime, task).step(now).1 is WaitForSignal),
        match m.schedule_absolute(duetime, task).step(now).1 {
            LoopAction::WaitFor(d) => now.nanos + d.total_nanos() <= duetime.nanos,
            _ => true,
        },
{
    let m1 = m.schedule_absolute(duetime, task);
    lemma_insertion_index_splits(m.delayed, duetime.nanos as int);
    let k = insertion_index(m.delayed, duetime.nanos as int);
    if m1.ready.len() == 0 && m1.delayed[0].duetime.nanos > now.nanos {
        if k == 0 {
            assert(m1.delayed[0].duetime == duetime);
        } else {
            assert(m1.delayed[0] == m.delayed[0]);
        }
        assert(m1.delayed[0].duetime.nanos <= duetime.nanos);
        lemma_delay_from_nanos((m1.delayed[0].duetime.nanos - now.nanos) as nat);
    }
}

/// Stopping is a one-time transition from running to stopped: after the
/// first `stop` the loop leaves at its next turn, and the engine is in the
/// state that `stop` does not admit, so a second `stop` is a caller's error.
pub proof fn law_single_stop<T>(m: LoopModel<T>, now: Timestamp)
    requires
        !m.stopped,
    ensures
        m.stop().stopped,
        m.stop().ready == m.ready,
        m.stop().delayed == m.delayed,
        m.stop().step(now) == (m.stop(), LoopAction::<T>::Exit),
{
}

/// Once stopped, the engine runs nothing more: every later turn leaves the
/// loop, whatever is still pending and whatever is submitted afterwards.
pub proof fn law_stopped_discards_pending<T>(m: LoopModel<T>, nows: Seq<Timestamp>)
    requires
        m.stopped,
    ensures
        run_turns(m, nows) == (m, Seq::new(nows.len(), |k: int| LoopAction::<T>::Exit)),
        forall|t: T| #[trigger] m.schedule(t).stopped,
        forall|d: Timestamp, t: T| #[trigger] m.schedule_absolute(d, t).stopped,
    decreases nows.len(),
{
    if nows.len() > 0 {
        law_stopped_discards_pending(m, nows.drop_first());
        assert(run_turns(m, nows).1 =~= Seq::new(nows.len(), |k: int| LoopAction::<T>::Exit));
    } else {
        assert(run_turns(m, nows).1 =~= Seq::new(nows.len(), |k: int| LoopAction::<T>::Exit));
    }
}

proof fn lemma_countdown(m: LoopModel<nat>, now: Timestamp, k: nat, fuel: nat)
    requires
        !m.stopped,
        m.ready == seq![k],
        fuel >= k + 1,
    ensures
        countdown_trace(m, now, fuel) == (
            LoopModel { stopped: true, ready: Seq::<nat>::empty(), delayed: m.delayed },
            Seq::new(k + 1, |i: int| (k - i) as nat),
        ),
    decreases k,
{
    let (m1, a) = m.step(now);
    assert(a == LoopAction::Run(k));
    assert(m1.ready =~= Seq::<nat>::empty());
    if k > 0 {
        let m2 = m1.schedule((k - 1) as nat);
        assert(m2.ready =~= seq![(k - 1) as nat]);
        lemma_countdown(m2, now, (k - 1) as nat, (fuel - 1) as nat);
        assert(seq![k] + Seq::new(k as nat, |i: int| (k - 1 - i) as nat) =~= Seq::new(
            k + 1,
            |i: int| (k - i) as nat,
        ));
    } else {
        let m2 = m1.stop();
        assert(countdown_trace(m2, now, (fuel - 1) as nat).1 =~= Seq::<nat>::empty());
        assert(seq![k] + Seq::<nat>::empty() =~= Seq::new(k + 1, |i: int| (k - i) as nat));
    }
}

/// A countdown task submitted once with counter `n` runs exactly `n + 1`
/// times, with counters `n, n - 1, ..., 0`, and leaves the engine stopped
/// with nothing ready.
pub proof fn law_countdown_terminates(n: nat, now: Timestamp, fuel: nat)
    requires
        fuel >= n + 1,
    ensures
        ({
            let (m, ks) = countdown_trace(LoopModel::<nat>::initial().schedule(n), now, fuel);
            &&& ks == Seq::new(n + 1, |i: int| (n - i) as nat)
            &&& m.stopped
            &&& m.ready.len() == 0
            &&& m.step(now).1 == LoopAction::<nat>::Exit
        }),
{
    let m = LoopModel::<nat>::initial().schedule(n);
    assert(m.ready =~= seq![n]);
    lemma_countdown(m, now, n, fuel);
}

/// The dispatch loop running countdown tasks that resubmit themselves with a
/// delay, one turn per clock reading of `nows`: the task holding `k` runs at
/// its turn's reading, then submits the task holding `k - 1` due `delay`
/// later, or stops the engine when `k` is zero. The state reached and the
/// counters of the tasks run, in order.
pub open spec fn countdown_relative_trace(m: LoopModel<nat>, nows: Seq<Timestamp>, delay: Delay) -> (
    LoopModel<nat>,
    Seq<nat>,
)
    decreases nows.len(),
{
    if nows.len() == 0 {
        (m, Seq::empty())
    } else {
        let (m1, a) = m.step(nows[0]);
        match a {
            LoopAction::Run(k) => {
                let m2 = if k > 0 {
                    m1.schedule_absolute(
                        Timestamp { nanos: (nows[0].nanos + delay.total_nanos()) as i128 },
                        (k - 1) as nat,
                    )
                } else {
                    m1.stop()
                };
                let (m3, ks) = countdown_relative_trace(m2, nows.drop_first(), delay);
                (m3, seq![k] + ks)
            },
            _ => countdown_relative_trace(m1, nows.drop_first(), delay),
        }
    }
}

/// The counters `k, k - 1, ..., 0`.
pub open spec fn counters_down_from(k: nat) -> Seq<nat> {
    Seq::new(k + 1, |i: int| (k - i) as nat)
}

/// The states a countdown passes through while it runs: its one task holding
/// `k`, either ready or delayed.
spec fn counting(m: LoopModel<nat>, k: nat) -> bool {
    &&& !m.stopped
    &&& ((m.ready == seq![k] && m.delayed.len() == 0) || (m.ready.len() == 0 && m.delayed.len() == 1
        && m.delayed[0].task == k))
}

/// Each clock reading is at least `delay` after the one before.
pub open spec fn advances_by(nows: Seq<Timestamp>, delay: Delay) -> bool {
    forall|i: int|
        0 <= i < nows.len() - 1 ==> #[trigger] nows[i + 1].nanos >= nows[i].nanos + delay.total_nanos()
}

proof fn lemma_stopped_countdown(m: LoopModel<nat>, nows: Seq<Timestamp>, delay: Delay)
    requires
        m.stopped,
    ensures
        countdown_relative_trace(m, nows, delay) == (m, Seq::<nat>::empty()),
    decreases nows.len(),
{
    if nows.len() > 0 {
        lemma_stopped_countdown(m, nows.drop_first(), delay);
    }
}

proof fn lemma_countdown_in_order(m: LoopModel<nat>, k: nat, nows: Seq<Timestamp>, delay: Delay)
    requires
        counting(m, k),
    ensures
        ({
            let (mf, ks) = countdown_relative_trace(m, nows, delay);
            &&& ks.len() <= k + 1
            &&& ks == counters_down_from(k).take(ks.len() as int)
            &&& ks.len() == k + 1 ==> mf.stopped && mf.ready.len() == 0 && mf.delayed.len() == 0
        }),
    decreases nows.len(),
{
    if nows.len() > 0 {
        let (m1, a) = m.step(nows[0]);
        let rest = nows.drop_first();
        if m.ready.len() > 0 {
            assert(a == LoopAction::Run(k));
            assert(m1.ready =~= Seq::<nat>::empty());
            let m2 = if k > 0 {
                m1.schedule_absolute(
                    Timestamp { nanos: (nows[0].nanos + delay.total_nanos()) as i128 },
                    (k - 1) as nat,
                )
            } else {
                m1.stop()
            };
            let ks2 = countdown_relative_trace(m2, rest, delay).1;
            if k > 0 {
                assert(m2.delayed.len() == 1);
                assert(counting(m2, (k - 1) as nat));
                lemma_countdown_in_order(m2, (k - 1) as nat, rest, delay);
                assert(seq![k] + ks2 =~= counters_down_from(k).take(ks2.len() as int + 1));
            } else {
                lemma_stopped_countdown(m2, rest, delay);
                assert(seq![k] + ks2 =~= counters_down_from(k).take(1));
            }
        } else {
            if a is Promoted {
                assert(m1.ready =~= seq![k]);
                assert(m1.delayed.len() == 0);
            }
            assert(counting(m1, k));
            lemma_countdown_in_order(m1, k, rest, delay);
        }
    } else {
        assert(counters_down_from(k).take(0) =~= Seq::<nat>::empty());
    }
}

proof fn lemma_countdown_completes(m: LoopModel<nat>, k: nat, nows: Seq<Timestamp>, delay: Delay)
    requires
        counting(m, k),
        advances_by(nows, delay),
        nows.len() > 0,
        m.ready.len() == 0 ==> m.delayed[0].duetime.nanos <= nows[0].nanos,
        nows.len() >= 2 * k + if m.ready.len() == 0 { 2int } else { 1int },
    ensures
        ({
            let (mf, ks) = countdown_relative_trace(m, nows, delay);
            &&& ks == counters_down_from(k)
            &&& mf.stopped
        }),
    decreases nows.len(),
{
    let (m1, a) = m.step(nows[0]);
    let rest = nows.drop_first();
    assert(advances_by(rest, delay)) by {
        assert forall|i: int| 0 <= i < rest.len() - 1 implies #[trigger] rest[i + 1].nanos
            >= rest[i].nanos + delay.total_nanos() by {
            assert(nows[(i + 1) + 1].nanos >= nows[i + 1].nanos + delay.total_nanos());
        }
    }
    if m.ready.len() > 0 {
        assert(a == LoopAction::Run(k));
        assert(m1.ready =~= Seq::<nat>::empty());
        if k > 0 {
            assert(nows[0int + 1].nanos >= nows[0int].nanos + delay.total_nanos());
            let due = Timestamp { nanos: (nows[0].nanos + delay.total_nanos()) as i128 };
            let m2 = m1.schedule_absolute(due, (k - 1) as nat);
            assert(m2.delayed.len() == 1);
            assert(counting(m2, (k - 1) as nat));
            lemma_countdown_completes(m2, (k - 1) as nat, rest, delay);
            let ks2 = countdown_relative_trace(m2, rest, delay).1;
            assert(seq![k] + ks2 =~= counters_down_from(k));
        } else {
            let m2 = m1.stop();
            lemma_stopped_countdown(m2, rest, delay);
            assert(seq![k] + Seq::<nat>::empty() =~= counters_down_from(k));
        }
    } else {
        assert(a is Promoted);
        assert(m1.ready =~= seq![k]);
        assert(m1.delayed.len() == 0);
        assert(counting(m1, k));
        lemma_countdown_completes(m1, k, rest, delay);
    }
}

/// A countdown task submitted once with counter `n`, which resubmits itself
/// `delay` later until its counter reaches zero and then stops the engine,
/// runs its counters strictly in the order `n, n - 1, ..., 0` and never past
/// zero, whatever the clock reads at each turn; once zero has run, the engine
/// is stopped with nothing pending. When each turn's clock reading is at
/// least `delay` after the last, `2 n + 1` turns run all `n + 1` counters.
pub proof fn law_countdown_relative(n: nat, nows: Seq<Timestamp>, delay: Delay)
    ensures
        ({
            let (m, ks) = countdown_relative_trace(LoopModel::<nat>::initial().schedule(n), nows, delay);
            &&& ks.len() <= n + 1
            &&& ks == counters_down_from(n).take(ks.len() as int)
            &&& ks.len() == n + 1 ==> m.stopped && m.ready.len() == 0 && m.delayed.len() == 0
            &&& advances_by(nows, delay) && nows.len() >= 2 * n + 1 ==> ks == counters_down_from(n)
                && m.stopped
        }),
{
    let m = LoopModel::<nat>::initial().schedule(n);
    assert(m.ready =~= seq![n]);
    assert(counting(m, n));
    lemma_countdown_in_order(m, n, nows, delay);
    if advances_by(nows, delay) && nows.len() >= 2 * n + 1 {
        lemma_countdown_completes(m, n, nows, delay);
    }
}

} // verus!
