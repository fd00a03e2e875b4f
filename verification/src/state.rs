//! The mutex's internal state and the two guarded steps that every
//! `lock`/`unlock` call performs on it.
//!
//! A caller of the lock first wins the spin guard, then runs exactly one of
//! the steps below on the shared state, then releases the guard. The steps
//! themselves are sequential code and are verified here against the
//! transition functions (`lock_post`, `unlock_post`, ...) that the
//! concurrent protocol model in `crate::model` is built from.

use vstd::prelude::*;

verus! {

/// What one guarded inspection of the state tells the thread calling `lock`.
#[derive(Clone, Copy, Debug, PartialEq, Eq, Structural)]
pub enum LockOutcome {
    /// The mutex was free; the caller owns it now and returns at once.
    Acquired,
    /// The mutex was held; the caller was appended to the wait queue and
    /// must block on its own wake signal after releasing the guard.
    Enqueued,
}

/// What one guarded inspection of the state tells the thread calling `unlock`.
#[derive(Clone, Copy, Debug, PartialEq, Eq, Structural)]
pub enum UnlockOutcome {
    /// The mutex was not held at all: a caller bug ("unlock of an unlocked
    /// mutex"). The caller must abort; the state is left unchanged.
    FatalUnheld,
    /// The queue was non-empty: ownership is handed directly to this waiter,
    /// whose wake signal the caller must now set. The mutex stays held.
    Wake(u64),
    /// The queue was empty: the mutex returns to the free state.
    Released,
}

/// The mathematical value of the mutex state: the `held` flag and the FIFO
/// queue of wake-handles of blocked waiters, in arrival order.
#[verifier::ext_equal]
pub ghost struct LockState {
    pub held: bool,
    pub waiters: Seq<u64>,
}

/// The state's invariant: a free mutex has no waiters. A releasing thread
/// either hands the mutex to the queue head, keeping `held`, or finds the
/// queue empty and clears `held`.
pub open spec fn state_inv(s: LockState) -> bool {
    !s.held ==> s.waiters.len() == 0
}

/// The state after a `lock` step by a thread with wake-handle `t`: a free
/// mutex becomes held; a held one gains `t` at the back of the queue.
pub open spec fn lock_post(s: LockState, t: u64) -> LockState {
    if !s.held {
        LockState { held: true, waiters: s.waiters }
    } else {
        LockState { held: true, waiters: s.waiters.push(t) }
    }
}

/// The outcome a `lock` step reports.
pub open spec fn lock_outcome(s: LockState) -> LockOutcome {
    if !s.held {
        LockOutcome::Acquired
    } else {
        LockOutcome::Enqueued
    }
}

/// The state after an `unlock` step: misuse leaves it unchanged, a non-empty
/// queue loses its head (the mutex stays held: direct hand-off), an empty
/// queue frees the mutex.
pub open spec fn unlock_post(s: LockState) -> LockState {
    if !s.held {
        s
    } else if s.waiters.len() == 0 {
        LockState { held: false, waiters: s.waiters }
    } else {
        LockState { held: true, waiters: s.waiters.drop_first() }
    }
}

/// The outcome an `unlock` step reports: fatal misuse, a waiter to wake,
/// or a clean release — each exactly on the inputs shown here.
pub open spec fn unlock_outcome(s: LockState) -> UnlockOutcome {
    if !s.held {
        UnlockOutcome::FatalUnheld
    } else if s.waiters.len() == 0 {
        UnlockOutcome::Released
    } else {
        UnlockOutcome::Wake(s.waiters.first())
    }
}

/// The fields a mutex protects with its spin guard: the `held` flag and the
/// FIFO queue of blocked waiters' wake-handles. A handle is an opaque `u64`
/// naming one blocked acquisition's wake signal.
pub struct MutexCore {
    held: bool,
    waiters: Vec<u64>,
}

impl View for MutexCore {
    type V = LockState;

    closed spec fn view(&self) -> LockState {
        LockState { held: self.held, waiters: self.waiters@ }
    }
}

impl MutexCore {
    /// A fresh mutex: free, with an empty wait queue.
    pub fn new() -> (m: MutexCore)
        ensures
            !m@.held,
            m@.waiters == Seq::<u64>::empty(),
            state_inv(m@),
    {
        let m = MutexCore { held: false, waiters: Vec::new() };
        proof {
            assert(m@.waiters =~= Seq::<u64>::empty());
        }
        m
    }

    /// The step `lock` runs under the spin guard for the thread whose
    /// wake-handle is `waiter`: take the mutex if it is free, otherwise
    /// join the back of the wait queue.
    pub fn lock_step(&mut self, waiter: u64) -> (r: LockOutcome)
        requires
            state_inv(old(self)@),
        ensures
            final(self)@ == lock_post(old(self)@, waiter),
            r == lock_outcome(old(self)@),
            state_inv(final(self)@),
    {
        if self.held {
            self.waiters.push(waiter);
            proof {
                assert(self@ =~= lock_post(old(self)@, waiter));
            }
            LockOutcome::Enqueued
        } else {
            self.held = true;
            proof {
                assert(self@ =~= lock_post(old(self)@, waiter));
            }
            LockOutcome::Acquired
        }
    }

    /// The step `unlock` runs under the spin guard: report misuse if the
    /// mutex is not held; otherwise hand ownership to the queue head, or
    /// free the mutex when no one waits.
    pub fn unlock_step(&mut self) -> (r: UnlockOutcome)
        requires
            state_inv(old(self)@),
        ensures
            final(self)@ == unlock_post(old(self)@),
            r == unlock_outcome(old(self)@),
            state_inv(final(self)@),
    {
        if !self.held {
            UnlockOutcome::FatalUnheld
        } else if self.waiters.len() == 0 {
            self.held = false;
            proof {
                assert(self@ =~= unlock_post(old(self)@));
            }
            UnlockOutcome::Released
        } else {
            let head = self.waiters.remove(0);
            proof {
                assert(self@.waiters =~= old(self)@.waiters.drop_first());
                assert(self@ =~= unlock_post(old(self)@));
            }
            UnlockOutcome::Wake(head)
        }
    }

    /// Whether some thread currently owns the mutex.
    pub fn is_held(&self) -> (b: bool)
        ensures
            b == self@.held,
    {
        self.held
    }

    /// How many threads are blocked waiting for a hand-off.
    pub fn waiter_count(&self) -> (n: usize)
        ensures
            n == self@.waiters.len(),
    {
        self.waiters.len()
    }

    /// The wake-handle at position `i` of the wait queue (0 is the head,
    /// the next to be woken).
    pub fn waiter_at(&self, i: usize) -> (t: u64)
        requires
            i < self@.waiters.len(),
        ensures
            t == self@.waiters[i as int],
    {
        self.waiters[i]
    }
}

} // verus!
