//! Scenario tests for the mutex state machine: construction, the fatal
//! misuse case, FIFO hand-off order, and a high-contention simulation.

use mmutex::state::LockOutcome;
use mmutex::state::MutexCore;
use mmutex::state::UnlockOutcome;

#[test]
fn new_is_free_with_empty_queue() {
    let m = MutexCore::new();
    assert!(!m.is_held());
    assert_eq!(m.waiter_count(), 0);
}

#[test]
fn lock_on_fresh_mutex_returns_at_once() {
    let mut m = MutexCore::new();
    assert_eq!(m.lock_step(1), LockOutcome::Acquired);
    assert!(m.is_held());
    assert_eq!(m.waiter_count(), 0);
}

#[test]
fn unlock_of_never_locked_mutex_is_fatal() {
    let mut m = MutexCore::new();
    assert_eq!(m.unlock_step(), UnlockOutcome::FatalUnheld);
    // The misuse leaves the state untouched.
    assert!(!m.is_held());
    assert_eq!(m.waiter_count(), 0);
}

#[test]
fn unlock_after_release_is_fatal_again() {
    let mut m = MutexCore::new();
    assert_eq!(m.lock_step(1), LockOutcome::Acquired);
    assert_eq!(m.unlock_step(), UnlockOutcome::Released);
    assert_eq!(m.unlock_step(), UnlockOutcome::FatalUnheld);
}

#[test]
fn unlock_with_empty_queue_frees_the_mutex() {
    let mut m = MutexCore::new();
    assert_eq!(m.lock_step(5), LockOutcome::Acquired);
    assert_eq!(m.unlock_step(), UnlockOutcome::Released);
    assert!(!m.is_held());
    assert_eq!(m.waiter_count(), 0);
}

#[test]
fn contended_lock_enqueues_in_arrival_order() {
    let mut m = MutexCore::new();
    assert_eq!(m.lock_step(10), LockOutcome::Acquired);
    assert_eq!(m.lock_step(11), LockOutcome::Enqueued);
    assert_eq!(m.lock_step(12), LockOutcome::Enqueued);
    assert_eq!(m.lock_step(13), LockOutcome::Enqueued);
    assert!(m.is_held());
    assert_eq!(m.waiter_count(), 3);
    assert_eq!(m.waiter_at(0), 11);
    assert_eq!(m.waiter_at(1), 12);
    assert_eq!(m.waiter_at(2), 13);
}

#[test]
fn unlock_wakes_parked_threads_in_fifo_order() {
    let mut m = MutexCore::new();
    assert_eq!(m.lock_step(10), LockOutcome::Acquired);
    assert_eq!(m.lock_step(11), LockOutcome::Enqueued);
    assert_eq!(m.lock_step(12), LockOutcome::Enqueued);
    assert_eq!(m.lock_step(13), LockOutcome::Enqueued);
    // Each hand-off wakes the oldest waiter and keeps the mutex held.
    assert_eq!(m.unlock_step(), UnlockOutcome::Wake(11));
    assert!(m.is_held());
    assert_eq!(m.unlock_step(), UnlockOutcome::Wake(12));
    assert!(m.is_held());
    assert_eq!(m.unlock_step(), UnlockOutcome::Wake(13));
    assert!(m.is_held());
    assert_eq!(m.waiter_count(), 0);
    // The last owner finds no one waiting and frees the mutex.
    assert_eq!(m.unlock_step(), UnlockOutcome::Released);
    assert!(!m.is_held());
}

#[test]
fn new_arrival_may_take_a_freed_mutex_at_once() {
    let mut m = MutexCore::new();
    assert_eq!(m.lock_step(1), LockOutcome::Acquired);
    assert_eq!(m.unlock_step(), UnlockOutcome::Released);
    // No strict queuing for acquisition: a fresh caller that finds the
    // mutex free takes it without parking.
    assert_eq!(m.lock_step(2), LockOutcome::Acquired);
}

#[test]
fn reentrant_lock_enqueues_the_owner_behind_itself() {
    // Documented behavior: an owner that calls lock again joins its own
    // wait queue and would park forever.
    let mut m = MutexCore::new();
    assert_eq!(m.lock_step(7), LockOutcome::Acquired);
    assert_eq!(m.lock_step(7), LockOutcome::Enqueued);
    assert_eq!(m.waiter_count(), 1);
    assert_eq!(m.waiter_at(0), 7);
}

/// What one simulated thread is doing, and how many lock/unlock cycles it
/// still owes.
#[derive(Clone, Copy, PartialEq, Eq, Debug)]
enum Sim {
    Ready,
    Parked,
    Owner,
}

/// Eight simulated threads, each looping one thousand times over
/// lock; counter += 1; unlock — interleaved by a deterministic
/// pseudo-random scheduler. The counter must come out exact, and at no
/// instant may two threads own the mutex.
#[test]
fn stress_interleaving_counts_exactly() {
    const THREADS: usize = 8;
    const CYCLES: u64 = 1000;

    let mut m = MutexCore::new();
    let mut sim = [Sim::Ready; THREADS];
    let mut left = [CYCLES; THREADS];
    let mut counter: u64 = 0;
    let mut holder: Option<usize> = None;

    // A small linear congruential generator picks which runnable thread
    // moves next.
    let mut rng: u64 = 0x2545F4914F6CDD1D;
    let mut pick = |n: usize, rng: &mut u64| -> usize {
        *rng = rng.wrapping_mul(6364136223846793005).wrapping_add(1442695040888963407);
        ((*rng >> 33) as usize) % n
    };

    loop {
        let runnable: Vec<usize> = (0..THREADS)
            .filter(|&i| left[i] > 0 && sim[i] != Sim::Parked)
            .collect();
        if runnable.is_empty() {
            break;
        }
        let i = runnable[pick(runnable.len(), &mut rng)];
        match sim[i] {
            Sim::Ready => match m.lock_step(i as u64) {
                LockOutcome::Acquired => {
                    assert_eq!(holder, None);
                    holder = Some(i);
                    sim[i] = Sim::Owner;
                }
                LockOutcome::Enqueued => {
                    assert!(holder.is_some());
                    sim[i] = Sim::Parked;
                }
            },
            Sim::Owner => {
                assert_eq!(holder, Some(i));
                counter += 1;
                left[i] -= 1;
                match m.unlock_step() {
                    UnlockOutcome::Wake(t) => {
                        // Direct hand-off: the woken thread owns the mutex.
                        let t = t as usize;
                        assert_eq!(sim[t], Sim::Parked);
                        sim[t] = Sim::Owner;
                        holder = Some(t);
                        assert!(m.is_held());
                    }
                    UnlockOutcome::Released => {
                        holder = None;
                        assert!(!m.is_held());
                    }
                    UnlockOutcome::FatalUnheld => {
                        panic!("unlock of an unlocked mutex");
                    }
                }
                sim[i] = Sim::Ready;
            }
            Sim::Parked => unreachable!(),
        }
    }

    assert_eq!(counter, THREADS as u64 * CYCLES);
    assert!(!m.is_held());
    assert_eq!(m.waiter_count(), 0);
    assert_eq!(holder, None);
}

/// Five threads each perform exactly one lock/unlock cycle under the worst
/// contention: every one of them queues up before the first release. No
/// thread is left waiting — each is woken exactly once and completes.
#[test]
fn every_thread_completes_one_cycle() {
    const N: u64 = 5;
    let mut m = MutexCore::new();
    assert_eq!(m.lock_step(0), LockOutcome::Acquired);
    for t in 1..N {
        assert_eq!(m.lock_step(t), LockOutcome::Enqueued);
    }
    let mut completed = vec![false; N as usize];
    let mut owner: u64 = 0;
    loop {
        completed[owner as usize] = true;
        match m.unlock_step() {
            UnlockOutcome::Wake(t) => owner = t,
            UnlockOutcome::Released => break,
            UnlockOutcome::FatalUnheld => panic!("unlock of an unlocked mutex"),
        }
    }
    assert!(completed.iter().all(|&c| c));
    assert!(!m.is_held());
    assert_eq!(m.waiter_count(), 0);
}
