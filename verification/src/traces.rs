//! The lock's laws, proved over whole executions of the protocol.
//!
//! A trace is a sequence of events, each enabled in the state the previous
//! ones produced. From the inductive invariant of `crate::model` follow the
//! three laws stated here for every reachable state and every interleaving:
//! mutual exclusion, no lost wakeup, and FIFO wake order.

use vstd::prelude::*;

use crate::model::Event;
use crate::model::Model;
use crate::model::Phase;
use crate::model::enabled;
use crate::model::init;
use crate::model::inv;
use crate::model::lemma_init_inv;
use crate::model::lemma_some_step_enabled;
use crate::model::lemma_step_preserves_inv;
use crate::model::owner;
use crate::model::step;
use crate::model::thread_of;
use crate::model::unwoken_waiter;
use crate::state::LockState;
use crate::state::UnlockOutcome;
use crate::state::lock_outcome;
use crate::state::unlock_outcome;

verus! {

/// `tr` is a run of the protocol from `s`: each event is enabled in the
/// state the ones before it produced.
pub open spec fn valid_trace(s: Model, tr: Seq<Event>) -> bool
    decreases tr.len(),
{
    tr.len() == 0 || (enabled(s, tr.first()) && valid_trace(step(s, tr.first()), tr.drop_first()))
}

/// The state a run leaves the system in.
pub open spec fn run(s: Model, tr: Seq<Event>) -> Model
    decreases tr.len(),
{
    if tr.len() == 0 {
        s
    } else {
        run(step(s, tr.first()), tr.drop_first())
    }
}

/// The invariant holds in every state a run reaches from an invariant state.
pub proof fn lemma_run_inv(s: Model, tr: Seq<Event>)
    requires
        inv(s),
        valid_trace(s, tr),
    ensures
        inv(run(s, tr)),
    decreases tr.len(),
{
    if tr.len() > 0 {
        lemma_step_preserves_inv(s, tr.first());
        lemma_run_inv(step(s, tr.first()), tr.drop_first());
    }
}

/// Mutual exclusion: in any state reachable from an initial state, by any
/// interleaving of any set of threads, at most one thread is between the
/// return of its `lock` call and its matching `unlock` call.
pub proof fn lemma_mutual_exclusion(s0: Model, tr: Seq<Event>, t1: u64, t2: u64)
    requires
        init(s0),
        valid_trace(s0, tr),
        run(s0, tr).phase.dom().contains(t1),
        run(s0, tr).phase.dom().contains(t2),
        run(s0, tr).phase[t1] is Holding,
        run(s0, tr).phase[t2] is Holding,
    ensures
        t1 == t2,
{
    lemma_init_inv(s0);
    lemma_run_inv(s0, tr);
    let f = run(s0, tr);
    assert(owner(f, t1));
    assert(owner(f, t2));
}

/// No lost wakeup, as safety: in any reachable state, a thread that has
/// enqueued itself and whose wake signal is unset is still in the wait
/// queue — and the mutex is held, so the unlock that serves the queue is
/// still owed. A thread whose signal was set can always complete its
/// `lock` call: the signal, once set, cannot be lost, even when it was set
/// before the thread finished blocking.
pub proof fn lemma_no_lost_wakeup(s0: Model, tr: Seq<Event>, t: u64)
    requires
        init(s0),
        valid_trace(s0, tr),
        run(s0, tr).phase.dom().contains(t),
    ensures
        run(s0, tr).phase[t] == (Phase::Waiting { woken: false }) ==> run(
            s0,
            tr,
        ).lock.waiters.contains(t) && run(s0, tr).lock.held,
        run(s0, tr).phase[t] == (Phase::Waiting { woken: true }) ==> enabled(
            run(s0, tr),
            Event::Resume { t },
        ),
{
    lemma_init_inv(s0);
    lemma_run_inv(s0, tr);
    let f = run(s0, tr);
    if f.phase[t] == (Phase::Waiting { woken: false }) {
        assert(unwoken_waiter(f, t));
        assert(f.lock.waiters.contains(t));
        assert(f.lock.waiters.len() > 0);
    }
}

/// Deadlock freedom over whole executions: in any reachable state in which
/// some thread is inside a `lock` or `unlock` call, the protocol has an
/// enabled next step. Together with `lemma_no_lost_wakeup` and the FIFO law
/// below, this is why, under correct pairing, no thread stays parked
/// forever: the queue it sits in keeps being served.
pub proof fn lemma_no_deadlock(s0: Model, tr: Seq<Event>, t: u64)
    requires
        init(s0),
        valid_trace(s0, tr),
        run(s0, tr).phase.dom().contains(t),
        !(run(s0, tr).phase[t] is Idle),
    ensures
        exists|e: Event| #[trigger] enabled(run(s0, tr), e),
{
    lemma_init_inv(s0);
    lemma_run_inv(s0, tr);
    lemma_some_step_enabled(run(s0, tr), t);
}

/// The handle a single event wakes: the queue head, when the event is an
/// unlock step that finds the queue non-empty.
pub open spec fn wake_of(s: Model, e: Event) -> Seq<u64> {
    match e {
        Event::UnlockDecide { t } => match unlock_outcome(s.lock) {
            UnlockOutcome::Wake(w) => seq![w],
            _ => Seq::empty(),
        },
        _ => Seq::empty(),
    }
}

/// The handle a single event appends to the wait queue: the caller of a
/// lock step that finds the mutex held.
pub open spec fn arrival_of(s: Model, e: Event) -> Seq<u64> {
    match e {
        Event::LockDecide { t } => if lock_outcome(s.lock) is Enqueued {
            seq![t]
        } else {
            Seq::empty()
        },
        _ => Seq::empty(),
    }
}

/// All handles a run wakes, in wake order.
pub open spec fn wakes(s: Model, tr: Seq<Event>) -> Seq<u64>
    decreases tr.len(),
{
    if tr.len() == 0 {
        Seq::empty()
    } else {
        wake_of(s, tr.first()) + wakes(step(s, tr.first()), tr.drop_first())
    }
}

/// All handles a run appends to the wait queue, in arrival order.
pub open spec fn arrivals(s: Model, tr: Seq<Event>) -> Seq<u64>
    decreases tr.len(),
{
    if tr.len() == 0 {
        Seq::empty()
    } else {
        arrival_of(s, tr.first()) + arrivals(step(s, tr.first()), tr.drop_first())
    }
}

/// FIFO wake order: along any run, waiters are woken in exactly the order
/// they arrived. The wakes are a prefix of the queue at the start followed
/// by the later arrivals, and what remains queued at the end is exactly the
/// rest of that sequence.
pub proof fn lemma_fifo_wake_order(s: Model, tr: Seq<Event>)
    requires
        inv(s),
        valid_trace(s, tr),
    ensures
        wakes(s, tr).is_prefix_of(s.lock.waiters + arrivals(s, tr)),
        run(s, tr).lock.waiters == (s.lock.waiters + arrivals(s, tr)).skip(
            wakes(s, tr).len() as int,
        ),
    decreases tr.len(),
{
    let w0 = s.lock.waiters;
    if tr.len() == 0 {
        assert(wakes(s, tr) =~= Seq::<u64>::empty());
        assert(arrivals(s, tr) =~= Seq::<u64>::empty());
        assert(w0 + arrivals(s, tr) =~= w0);
        assert(wakes(s, tr).is_prefix_of(w0 + arrivals(s, tr)));
        assert((w0 + arrivals(s, tr)).skip(0) =~= w0);
    } else {
        let e = tr.first();
        let s2 = step(s, e);
        let tr2 = tr.drop_first();
        lemma_step_preserves_inv(s, e);
        lemma_fifo_wake_order(s2, tr2);
        let arr2 = arrivals(s2, tr2);
        let wk2 = wakes(s2, tr2);
        let k = wk2.len() as int;
        if e is LockDecide && lock_outcome(s.lock) is Enqueued {
            // The caller joins the back of the queue: arrivals gain t, the
            // queue gains t, wakes are unchanged.
            let t = thread_of(e);
            assert(e == (Event::LockDecide { t }));
            assert(s2.lock.waiters =~= w0.push(t));
            assert(wakes(s, tr) =~= wk2);
            assert(arrivals(s, tr) =~= seq![t] + arr2);
            assert(w0 + arrivals(s, tr) =~= w0.push(t) + arr2);
            assert(wakes(s, tr).is_prefix_of(w0 + arrivals(s, tr)));
            assert(run(s, tr).lock.waiters == (w0 + arrivals(s, tr)).skip(wakes(s, tr).len() as int));
        } else if e is UnlockDecide && unlock_outcome(s.lock) is Wake {
            // The queue head w is woken: wakes gain w at the front, the
            // queue loses its head, arrivals are unchanged.
            let w = w0.first();
            assert(unlock_outcome(s.lock) == UnlockOutcome::Wake(w));
            assert(s2.lock.waiters =~= w0.drop_first());
            assert(wakes(s, tr) =~= seq![w] + wk2);
            assert(arrivals(s, tr) =~= arr2);
            let whole = w0 + arr2;
            let rest = w0.drop_first() + arr2;
            assert(whole =~= seq![w] + rest);
            // Prefix: index 0 is w; the rest is wk2, a prefix of rest.
            assert(wk2 =~= rest.subrange(0, k));
            assert(wakes(s, tr) =~= whole.subrange(0, k + 1));
            assert(wakes(s, tr).is_prefix_of(w0 + arrivals(s, tr)));
            // Remainder: dropping one more from the front of whole.
            assert(run(s, tr).lock.waiters == rest.skip(k));
            assert(rest.skip(k) =~= whole.skip(k + 1));
        } else {
            // Every other event leaves the queue alone, wakes no one, and
            // enqueues no one.
            assert(s2.lock.waiters =~= w0);
            assert(wakes(s, tr) =~= wk2);
            assert(arrivals(s, tr) =~= arr2);
            assert(wakes(s, tr).is_prefix_of(w0 + arrivals(s, tr)));
            assert(run(s, tr).lock.waiters == (w0 + arrivals(s, tr)).skip(wakes(s, tr).len() as int));
        }
    }
}

/// The parked-threads scenario spelled out: while no new thread enqueues
/// itself, the holder's successive unlocks wake exactly the threads already
/// parked, oldest first — the wakes are the head of the queue as it stood.
pub proof fn lemma_fifo_serves_the_parked(s: Model, tr: Seq<Event>)
    requires
        inv(s),
        valid_trace(s, tr),
        arrivals(s, tr) == Seq::<u64>::empty(),
    ensures
        wakes(s, tr) == s.lock.waiters.take(wakes(s, tr).len() as int),
{
    lemma_fifo_wake_order(s, tr);
    let k = wakes(s, tr).len() as int;
    assert(s.lock.waiters + arrivals(s, tr) =~= s.lock.waiters);
    assert(wakes(s, tr) =~= s.lock.waiters.take(k));
}

/// The laws above are not vacuous: for any two distinct threads there is a
/// complete contention run — the first acquires, the second finds the mutex
/// held and parks, the first's unlock hands off and wakes it, it resumes and
/// releases — that is valid, wakes the second thread exactly once, and ends
/// with the mutex free, its queue empty, and both threads idle again.
pub proof fn lemma_contended_handoff_run(t1: u64, t2: u64)
    requires
        t1 != t2,
    ensures
        exists|s0: Model, tr: Seq<Event>|
            {
                &&& init(s0)
                &&& #[trigger] valid_trace(s0, tr)
                &&& wakes(s0, tr) == seq![t2]
                &&& !run(s0, tr).lock.held
                &&& run(s0, tr).lock.waiters.len() == 0
            },
{
    let s0 = Model {
        guard: false,
        lock: LockState { held: false, waiters: Seq::empty() },
        phase: map![t1 => Phase::Idle, t2 => Phase::Idle],
    };
    assert forall|t: u64| s0.phase.dom().contains(t) implies (#[trigger] s0.phase[t]) is Idle by {
        assert(t == t1 || t == t2);
    }
    assert(init(s0));
    // The thirteen events of the story, with the state after each.
    let e1 = Event::CallLock { t: t1 };
    let s1 = step(s0, e1);
    let e2 = Event::LockGuard { t: t1 };
    let s2 = step(s1, e2);
    let e3 = Event::LockDecide { t: t1 };
    let s3 = step(s2, e3);
    let e4 = Event::CallLock { t: t2 };
    let s4 = step(s3, e4);
    let e5 = Event::LockGuard { t: t2 };
    let s5 = step(s4, e5);
    let e6 = Event::LockDecide { t: t2 };
    let s6 = step(s5, e6);
    let e7 = Event::CallUnlock { t: t1 };
    let s7 = step(s6, e7);
    let e8 = Event::UnlockGuard { t: t1 };
    let s8 = step(s7, e8);
    let e9 = Event::UnlockDecide { t: t1 };
    let s9 = step(s8, e9);
    let e10 = Event::Resume { t: t2 };
    let s10 = step(s9, e10);
    let e11 = Event::CallUnlock { t: t2 };
    let s11 = step(s10, e11);
    let e12 = Event::UnlockGuard { t: t2 };
    let s12 = step(s11, e12);
    let e13 = Event::UnlockDecide { t: t2 };
    let s13 = step(s12, e13);
    // t2 queues behind t1, and the hand-off serves it.
    assert(s5.lock.waiters =~= Seq::empty());
    assert(s6.lock.waiters =~= Seq::empty().push(t2));
    assert(s6.lock.waiters.first() == t2);
    assert(unlock_outcome(s8.lock) == UnlockOutcome::Wake(t2));
    assert(s9.lock.waiters =~= Seq::empty());
    assert(unlock_outcome(s12.lock) == UnlockOutcome::Released);
    assert(!s13.lock.held && s13.lock.waiters.len() == 0);
    // Each event is enabled in its turn.
    assert(enabled(s0, e1));
    assert(enabled(s1, e2));
    assert(enabled(s2, e3));
    assert(enabled(s3, e4));
    assert(enabled(s4, e5));
    assert(enabled(s5, e6));
    assert(enabled(s6, e7));
    assert(enabled(s7, e8));
    assert(enabled(s8, e9));
    assert(enabled(s9, e10));
    assert(enabled(s10, e11));
    assert(enabled(s11, e12));
    assert(enabled(s12, e13));
    // Chain the run together from the back.
    let tr13: Seq<Event> = Seq::empty();
    assert(valid_trace(s13, tr13));
    assert(wakes(s13, tr13) =~= Seq::<u64>::empty());
    lemma_trace_cons(s12, e13, tr13);
    let tr12 = seq![e13] + tr13;
    lemma_trace_cons(s11, e12, tr12);
    let tr11 = seq![e12] + tr12;
    lemma_trace_cons(s10, e11, tr11);
    let tr10 = seq![e11] + tr11;
    lemma_trace_cons(s9, e10, tr10);
    let tr9 = seq![e10] + tr10;
    lemma_trace_cons(s8, e9, tr9);
    let tr8 = seq![e9] + tr9;
    lemma_trace_cons(s7, e8, tr8);
    let tr7 = seq![e8] + tr8;
    lemma_trace_cons(s6, e7, tr7);
    let tr6 = seq![e7] + tr7;
    lemma_trace_cons(s5, e6, tr6);
    let tr5 = seq![e6] + tr6;
    lemma_trace_cons(s4, e5, tr5);
    let tr4 = seq![e5] + tr5;
    lemma_trace_cons(s3, e4, tr4);
    let tr3 = seq![e4] + tr4;
    lemma_trace_cons(s2, e3, tr3);
    let tr2 = seq![e3] + tr3;
    lemma_trace_cons(s1, e2, tr2);
    let tr1 = seq![e2] + tr2;
    lemma_trace_cons(s0, e1, tr1);
    let tr0 = seq![e1] + tr1;
    // Only the hand-off wakes anyone, and it wakes t2.
    assert(wakes(s0, tr0) =~= seq![t2]);
    assert(run(s0, tr0) == s13);
    assert(valid_trace(s0, tr0));
}

/// Prepending one enabled event to a run: the definitional unrolling of
/// `valid_trace`, `run`, `wakes` and `arrivals`, in a form proofs can chain.
proof fn lemma_trace_cons(s: Model, e: Event, rest: Seq<Event>)
    requires
        enabled(s, e),
        valid_trace(step(s, e), rest),
    ensures
        valid_trace(s, seq![e] + rest),
        run(s, seq![e] + rest) == run(step(s, e), rest),
        wakes(s, seq![e] + rest) == wake_of(s, e) + wakes(step(s, e), rest),
        arrivals(s, seq![e] + rest) == arrival_of(s, e) + arrivals(step(s, e), rest),
{
    let tr = seq![e] + rest;
    assert(tr.first() == e);
    assert(tr.drop_first() =~= rest);
}

} // verus!
