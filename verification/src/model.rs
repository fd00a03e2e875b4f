//! The concurrent protocol of the lock, one atomic step at a time.
//!
//! Threads are named by their wake-handles. A state of the whole system is
//! the spin guard, the guarded `held`/`waiters` fields, and each thread's
//! phase. The steps are exactly the atomic events of the implementation:
//! winning the guard's compare-and-swap, running one guarded step of
//! `crate::state` and releasing the guard, and a blocked thread's wake
//! signal letting it resume.
//!
//! A thread that has enqueued itself owns a single-slot wake signal; its
//! `woken` flag is set by the hand-off and consumed when the thread's block
//! returns. Because the signal absorbs a wake that arrives before the thread
//! has finished blocking, the model need not distinguish "announced itself
//! but not yet asleep" from "asleep": both are `Waiting { woken: false }`,
//! and the wake is never lost in between.
//!
//! `inv` is the protocol's inductive invariant: it is established by every
//! initial state (`lemma_init_inv`) and preserved by every enabled step
//! (`lemma_step_preserves_inv`). The laws over whole executions are derived
//! from it in `crate::traces`.

use vstd::prelude::*;

use crate::state::LockState;
use crate::state::UnlockOutcome;
use crate::state::lock_outcome;
use crate::state::lock_post;
use crate::state::state_inv;
use crate::state::unlock_outcome;
use crate::state::unlock_post;

verus! {

/// Where one thread stands in the protocol.
pub ghost enum Phase {
    /// Outside of `lock`/`unlock`.
    Idle,
    /// Called `lock`; spinning on the guard's compare-and-swap.
    LockEnter,
    /// Holds the guard inside `lock`, about to run the lock step.
    LockCrit,
    /// Enqueued itself and released the guard. `woken` is the thread's own
    /// wake signal: false until a hand-off sets it.
    Waiting { woken: bool },
    /// Owns the mutex; its `lock` call has returned.
    Holding,
    /// Called `unlock` while owning the mutex; spinning on the guard.
    UnlockEnter,
    /// Holds the guard inside `unlock`, about to run the unlock step.
    UnlockCrit,
}

/// A state of the whole system. `phase.dom()` is the set of threads.
#[verifier::ext_equal]
pub ghost struct Model {
    /// The spin guard: true while one thread mutates `lock`.
    pub guard: bool,
    /// The guarded fields: the `held` flag and the FIFO wait queue.
    pub lock: LockState,
    /// Each thread's phase, by wake-handle.
    pub phase: Map<u64, Phase>,
}

/// One atomic step, taken by thread `t`.
pub ghost enum Event {
    /// `t` calls `lock` and starts spinning on the guard.
    CallLock { t: u64 },
    /// `t`'s compare-and-swap on the guard succeeds inside `lock`.
    LockGuard { t: u64 },
    /// `t` runs the lock step and releases the guard: it either returns as
    /// the owner, or has enqueued itself and goes on to block.
    LockDecide { t: u64 },
    /// `t`'s wake signal is set and its block returns: `lock` returns.
    Resume { t: u64 },
    /// `t`, the owner, calls `unlock` and starts spinning on the guard.
    CallUnlock { t: u64 },
    /// `t`'s compare-and-swap on the guard succeeds inside `unlock`.
    UnlockGuard { t: u64 },
    /// `t` runs the unlock step and releases the guard, setting the queue
    /// head's wake signal if anyone waited.
    UnlockDecide { t: u64 },
}

/// The thread taking an event.
pub open spec fn thread_of(e: Event) -> u64 {
    match e {
        Event::CallLock { t } => t,
        Event::LockGuard { t } => t,
        Event::LockDecide { t } => t,
        Event::Resume { t } => t,
        Event::CallUnlock { t } => t,
        Event::UnlockGuard { t } => t,
        Event::UnlockDecide { t } => t,
    }
}

/// When an event can be taken.
pub open spec fn enabled(s: Model, e: Event) -> bool {
    &&& s.phase.dom().contains(thread_of(e))
    &&& match e {
        Event::CallLock { t } => s.phase[t] is Idle,
        Event::LockGuard { t } => s.phase[t] is LockEnter && !s.guard,
        Event::LockDecide { t } => s.phase[t] is LockCrit,
        Event::Resume { t } => s.phase[t] == (Phase::Waiting { woken: true }),
        Event::CallUnlock { t } => s.phase[t] is Holding,
        Event::UnlockGuard { t } => s.phase[t] is UnlockEnter && !s.guard,
        Event::UnlockDecide { t } => s.phase[t] is UnlockCrit,
    }
}

/// The state after an event. The guarded steps change `lock` exactly as the
/// executable `MutexCore` does: by `lock_post` and `unlock_post`.
pub open spec fn step(s: Model, e: Event) -> Model {
    match e {
        Event::CallLock { t } => Model {
            guard: s.guard,
            lock: s.lock,
            phase: s.phase.insert(t, Phase::LockEnter),
        },
        Event::LockGuard { t } => Model {
            guard: true,
            lock: s.lock,
            phase: s.phase.insert(t, Phase::LockCrit),
        },
        Event::LockDecide { t } => Model {
            guard: false,
            lock: lock_post(s.lock, t),
            phase: s.phase.insert(
                t,
                if lock_outcome(s.lock) is Acquired {
                    Phase::Holding
                } else {
                    Phase::Waiting { woken: false }
                },
            ),
        },
        Event::Resume { t } => Model {
            guard: s.guard,
            lock: s.lock,
            phase: s.phase.insert(t, Phase::Holding),
        },
        Event::CallUnlock { t } => Model {
            guard: s.guard,
            lock: s.lock,
            phase: s.phase.insert(t, Phase::UnlockEnter),
        },
        Event::UnlockGuard { t } => Model {
            guard: true,
            lock: s.lock,
            phase: s.phase.insert(t, Phase::UnlockCrit),
        },
        Event::UnlockDecide { t } => Model {
            guard: false,
            lock: unlock_post(s.lock),
            phase: match unlock_outcome(s.lock) {
                UnlockOutcome::Wake(w) => s.phase.insert(t, Phase::Idle).insert(
                    w,
                    Phase::Waiting { woken: true },
                ),
                _ => s.phase.insert(t, Phase::Idle),
            },
        },
    }
}

/// An initial state: guard clear, mutex free, queue empty, every thread idle.
pub open spec fn init(s: Model) -> bool {
    &&& !s.guard
    &&& !s.lock.held
    &&& s.lock.waiters.len() == 0
    &&& forall|t: u64| s.phase.dom().contains(t) ==> (#[trigger] s.phase[t]) is Idle
}

/// Phases in which a thread owns the mutex: from winning it to the unlock
/// step that gives it away, or as the in-flight target of a hand-off.
pub open spec fn phase_owner(p: Phase) -> bool {
    ||| p is Holding
    ||| p is UnlockEnter
    ||| p is UnlockCrit
    ||| p == (Phase::Waiting { woken: true })
}

/// Phases in which a thread holds the spin guard.
pub open spec fn phase_crit(p: Phase) -> bool {
    p is LockCrit || p is UnlockCrit
}

/// The phase of a thread that is enqueued and whose wake signal is unset.
pub open spec fn phase_unwoken(p: Phase) -> bool {
    p == (Phase::Waiting { woken: false })
}

/// `t` owns the mutex (or is the in-flight target of a hand-off).
pub open spec fn owner(s: Model, t: u64) -> bool {
    s.phase.dom().contains(t) && phase_owner(s.phase[t])
}

/// `t` holds the spin guard.
pub open spec fn in_crit(s: Model, t: u64) -> bool {
    s.phase.dom().contains(t) && phase_crit(s.phase[t])
}

/// `t` is enqueued and its wake signal is unset.
pub open spec fn unwoken_waiter(s: Model, t: u64) -> bool {
    s.phase.dom().contains(t) && phase_unwoken(s.phase[t])
}

/// The protocol's inductive invariant.
pub open spec fn inv(s: Model) -> bool {
    &&& state_inv(s.lock)
    &&& s.lock.waiters.no_duplicates()
    &&& forall|i: int|
        0 <= i < s.lock.waiters.len() ==> unwoken_waiter(s, #[trigger] s.lock.waiters[i])
    &&& forall|t: u64| #[trigger] unwoken_waiter(s, t) ==> s.lock.waiters.contains(t)
    &&& forall|t1: u64, t2: u64| #[trigger] owner(s, t1) && #[trigger] owner(s, t2) ==> t1 == t2
    &&& (s.lock.held <==> exists|t: u64| owner(s, t))
    &&& forall|t1: u64, t2: u64|
        #[trigger] in_crit(s, t1) && #[trigger] in_crit(s, t2) ==> t1 == t2
    &&& (s.guard <==> exists|t: u64| in_crit(s, t))
}

/// Every initial state satisfies the invariant.
pub proof fn lemma_init_inv(s: Model)
    requires
        init(s),
    ensures
        inv(s),
{
    assert forall|t: u64| !owner(s, t) && !in_crit(s, t) && !unwoken_waiter(s, t) by {
        if s.phase.dom().contains(t) {
            assert(s.phase[t] is Idle);
        }
    }
}

/// A phase change that keeps the thread's classification (owner, guard
/// holder, unwoken waiter) keeps the invariant; the guard and the guarded
/// fields do not move.
proof fn lemma_reclassify_none(s: Model, t: u64, p: Phase)
    requires
        inv(s),
        s.phase.dom().contains(t),
        phase_owner(p) == phase_owner(s.phase[t]),
        phase_crit(p) == phase_crit(s.phase[t]),
        phase_unwoken(p) == phase_unwoken(s.phase[t]),
    ensures
        inv(Model { guard: s.guard, lock: s.lock, phase: s.phase.insert(t, p) }),
{
    let s2 = Model { guard: s.guard, lock: s.lock, phase: s.phase.insert(t, p) };
    assert forall|x: u64| #[trigger] owner(s2, x) <==> owner(s, x) by {}
    assert forall|x: u64| #[trigger] in_crit(s2, x) <==> in_crit(s, x) by {}
    assert forall|x: u64| #[trigger] unwoken_waiter(s2, x) <==> unwoken_waiter(s, x) by {}
    if s.lock.held {
        let x0 = choose|x: u64| owner(s, x);
        assert(owner(s2, x0));
    }
    if exists|x: u64| owner(s2, x) {
        let x0 = choose|x: u64| owner(s2, x);
        assert(owner(s, x0));
    }
    if s.guard {
        let x0 = choose|x: u64| in_crit(s, x);
        assert(in_crit(s2, x0));
    }
    if exists|x: u64| in_crit(s2, x) {
        let x0 = choose|x: u64| in_crit(s2, x);
        assert(in_crit(s, x0));
    }
}

/// Winning the guard's compare-and-swap preserves the invariant: the winner
/// becomes the one guard holder. Shared by `lock` and `unlock`.
proof fn lemma_acquire_guard(s: Model, t: u64, p: Phase)
    requires
        inv(s),
        !s.guard,
        s.phase.dom().contains(t),
        phase_crit(p),
        !phase_crit(s.phase[t]),
        phase_owner(p) == phase_owner(s.phase[t]),
        !phase_unwoken(p),
        !phase_unwoken(s.phase[t]),
    ensures
        inv(Model { guard: true, lock: s.lock, phase: s.phase.insert(t, p) }),
{
    let s2 = Model { guard: true, lock: s.lock, phase: s.phase.insert(t, p) };
    assert forall|x: u64| #[trigger] owner(s2, x) <==> owner(s, x) by {}
    assert forall|x: u64| #[trigger] unwoken_waiter(s2, x) <==> unwoken_waiter(s, x) by {}
    // No one held the guard, so t is now its only holder.
    assert forall|x: u64| #[trigger] in_crit(s2, x) implies x == t by {
        if x != t {
            assert(in_crit(s, x));
        }
    }
    assert(in_crit(s2, t));
    if s.lock.held {
        let x0 = choose|x: u64| owner(s, x);
        assert(owner(s2, x0));
    }
    if exists|x: u64| owner(s2, x) {
        let x0 = choose|x: u64| owner(s2, x);
        assert(owner(s, x0));
    }
}

/// The guarded step of `lock` preserves the invariant: the thread either
/// becomes the owner of a previously free mutex, or joins the back of the
/// queue of a held one.
proof fn lemma_lock_decide(s: Model, t: u64)
    requires
        inv(s),
        enabled(s, Event::LockDecide { t }),
    ensures
        inv(step(s, Event::LockDecide { t })),
{
    let s2 = step(s, Event::LockDecide { t });
    // t holds the guard, so it is neither an owner nor an enqueued waiter.
    assert(!owner(s, t));
    assert(!unwoken_waiter(s, t));
    assert forall|i: int| 0 <= i < s.lock.waiters.len() implies s.lock.waiters[i] != t by {
        assert(unwoken_waiter(s, s.lock.waiters[i]));
    }
    // t was the only guard holder; afterwards no one holds the guard.
    assert forall|x: u64| !in_crit(s2, x) by {
        if x != t && in_crit(s2, x) {
            assert(in_crit(s, x));
            assert(in_crit(s, t));
        }
    }
    if !s.lock.held {
        // The mutex was free: no owner existed; t is now the only one.
        assert forall|x: u64| #[trigger] owner(s2, x) implies x == t by {
            if x != t {
                assert(owner(s, x));
            }
        }
        assert(owner(s2, t));
        assert forall|x: u64| #[trigger] unwoken_waiter(s2, x) <==> unwoken_waiter(s, x) by {}
        assert forall|i: int|
            0 <= i < s2.lock.waiters.len() implies unwoken_waiter(
            s2,
            #[trigger] s2.lock.waiters[i],
        ) by {
            assert(s2.lock.waiters[i] == s.lock.waiters[i]);
            assert(unwoken_waiter(s, s.lock.waiters[i]));
        }
    } else {
        // The mutex was held: t joins the back of the queue, unwoken.
        let w2 = s2.lock.waiters;
        let w1 = s.lock.waiters;
        assert(w2 == w1.push(t));
        assert(w2.len() == w1.len() + 1);
        assert forall|x: u64| #[trigger] owner(s2, x) <==> owner(s, x) by {}
        if s.lock.held {
            let x0 = choose|x: u64| owner(s, x);
            assert(owner(s2, x0));
        }
        // The queue stays duplicate-free: t was not in it.
        assert forall|i: int, j: int| 0 <= i < j < w2.len() implies w2[i] != w2[j] by {
            if j < w1.len() {
                assert(w1[i] != w1[j]);
            } else {
                assert(w2[j] == t);
                assert(w2[i] == w1[i]);
            }
        }
        assert(w2.no_duplicates());
        assert forall|i: int| 0 <= i < w2.len() implies unwoken_waiter(s2, #[trigger] w2[i]) by {
            if i < w1.len() {
                assert(unwoken_waiter(s, w1[i]));
                assert(w1[i] != t);
            } else {
                assert(w2[i] == t);
            }
        }
        assert forall|x: u64| #[trigger] unwoken_waiter(s2, x) implies w2.contains(x) by {
            if x == t {
                assert(w2[w1.len() as int] == t);
            } else {
                assert(unwoken_waiter(s, x));
                let i = choose|i: int| 0 <= i < w1.len() && w1[i] == x;
                assert(w2[i] == x);
            }
        }
    }
}

/// The guarded step of `unlock` preserves the invariant: ownership is handed
/// to the queue head by setting its wake signal, or the mutex becomes free.
proof fn lemma_unlock_decide(s: Model, t: u64)
    requires
        inv(s),
        enabled(s, Event::UnlockDecide { t }),
    ensures
        inv(step(s, Event::UnlockDecide { t })),
{
    let s2 = step(s, Event::UnlockDecide { t });
    // t holds both the mutex and the guard, so the fatal case is unreachable.
    assert(owner(s, t));
    assert(s.lock.held);
    // t was the only guard holder; afterwards no one holds the guard.
    assert forall|x: u64| !in_crit(s2, x) by {
        if in_crit(s2, x) {
            assert(x != t);
            if s.lock.waiters.len() > 0 && x == s.lock.waiters.first() {
                assert(unwoken_waiter(s, s.lock.waiters[0]));
            } else {
                assert(in_crit(s, x));
                assert(in_crit(s, t));
            }
        }
    }
    if s.lock.waiters.len() == 0 {
        // Clean release: t gives the mutex up and no owner remains.
        assert forall|x: u64| !owner(s2, x) by {
            if owner(s2, x) {
                assert(x != t);
                assert(owner(s, x));
            }
        }
        assert forall|x: u64| !unwoken_waiter(s2, x) by {
            if unwoken_waiter(s2, x) {
                assert(x != t);
                assert(unwoken_waiter(s, x));
                assert(s.lock.waiters.contains(x));
            }
        }
    } else {
        // Hand-off: the queue head w becomes the owner-elect, woken.
        let w1 = s.lock.waiters;
        let w2 = s2.lock.waiters;
        let w = w1.first();
        assert(unwoken_waiter(s, w1[0]));
        assert(w != t);
        assert(w2 == w1.drop_first());
        assert(s2.phase == s.phase.insert(t, Phase::Idle).insert(w, Phase::Waiting { woken: true }));
        // The shrunken queue keeps its properties.
        assert forall|i: int, j: int| 0 <= i < j < w2.len() implies w2[i] != w2[j] by {
            assert(w1[i + 1] != w1[j + 1]);
        }
        assert(w2.no_duplicates());
        assert forall|i: int| 0 <= i < w2.len() implies unwoken_waiter(s2, #[trigger] w2[i]) by {
            assert(w2[i] == w1[i + 1]);
            assert(unwoken_waiter(s, w1[i + 1]));
            assert(w1[i + 1] != t);
            // w sits only at the queue head, so it is gone from the rest.
            assert(w1[i + 1] != w1[0]);
        }
        assert forall|x: u64| #[trigger] unwoken_waiter(s2, x) implies w2.contains(x) by {
            assert(x != t);
            assert(x != w);
            assert(unwoken_waiter(s, x));
            assert(w1.contains(x));
            let i = choose|i: int| 0 <= i < w1.len() && w1[i] == x;
            assert(i != 0);
            assert(w2[i - 1] == x);
        }
        // t stands down; w is now the only owner.
        assert(owner(s2, w));
        assert forall|x: u64| #[trigger] owner(s2, x) implies x == w by {
            if x != w && x != t && owner(s2, x) {
                assert(owner(s, x));
                assert(owner(s, t));
            }
        }
    }
}

/// The invariant is inductive: every enabled event preserves it.
pub proof fn lemma_step_preserves_inv(s: Model, e: Event)
    requires
        inv(s),
        enabled(s, e),
    ensures
        inv(step(s, e)),
{
    match e {
        Event::CallLock { t } => {
            lemma_reclassify_none(s, t, Phase::LockEnter);
        },
        Event::LockGuard { t } => {
            lemma_acquire_guard(s, t, Phase::LockCrit);
        },
        Event::LockDecide { t } => {
            lemma_lock_decide(s, t);
        },
        Event::Resume { t } => {
            lemma_reclassify_none(s, t, Phase::Holding);
        },
        Event::CallUnlock { t } => {
            lemma_reclassify_none(s, t, Phase::UnlockEnter);
        },
        Event::UnlockGuard { t } => {
            lemma_acquire_guard(s, t, Phase::UnlockCrit);
        },
        Event::UnlockDecide { t } => {
            lemma_unlock_decide(s, t);
        },
    }
}

/// Under the protocol — where only the owner calls `unlock` — the fatal
/// "unlock of an unlocked mutex" case is unreachable.
pub proof fn lemma_paired_unlock_never_fatal(s: Model, t: u64)
    requires
        inv(s),
        enabled(s, Event::UnlockDecide { t }),
    ensures
        unlock_outcome(s.lock) != UnlockOutcome::FatalUnheld,
{
    assert(owner(s, t));
}

/// The system can never wedge: while any thread is somewhere inside a
/// `lock` or `unlock` call, some step of the protocol is enabled. In
/// particular a parked thread never waits on a dead system: the spin guard
/// is always released again, and the mutex it waits for is held by an owner
/// that can keep moving toward the unlock that serves the queue.
pub proof fn lemma_some_step_enabled(s: Model, t: u64)
    requires
        inv(s),
        s.phase.dom().contains(t),
        !(s.phase[t] is Idle),
    ensures
        exists|e: Event| #[trigger] enabled(s, e),
{
    if s.guard {
        // Whoever holds the guard can run its guarded step.
        let x = choose|x: u64| in_crit(s, x);
        if s.phase[x] is LockCrit {
            assert(enabled(s, Event::LockDecide { t: x }));
        } else {
            assert(enabled(s, Event::UnlockDecide { t: x }));
        }
    } else if s.phase[t] is LockEnter {
        assert(enabled(s, Event::LockGuard { t }));
    } else if s.phase[t] is UnlockEnter {
        assert(enabled(s, Event::UnlockGuard { t }));
    } else if s.phase[t] is Holding {
        assert(enabled(s, Event::CallUnlock { t }));
    } else if s.phase[t] == (Phase::Waiting { woken: true }) {
        assert(enabled(s, Event::Resume { t }));
    } else {
        // t waits unwoken, so the mutex is held; its owner is not parked
        // and not stuck behind the (free) guard, so the owner can move.
        if in_crit(s, t) {
            assert(s.guard);
        }
        assert(unwoken_waiter(s, t));
        assert(s.lock.waiters.contains(t));
        assert(s.lock.held);
        let o = choose|x: u64| owner(s, x);
        assert(owner(s, o));
        if s.phase[o] is Holding {
            assert(enabled(s, Event::CallUnlock { t: o }));
        } else if s.phase[o] is UnlockEnter {
            assert(enabled(s, Event::UnlockGuard { t: o }));
        } else if s.phase[o] is UnlockCrit {
            assert(in_crit(s, o));
        } else {
            assert(enabled(s, Event::Resume { t: o }));
        }
    }
}

} // verus!
