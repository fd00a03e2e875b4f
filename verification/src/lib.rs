//! A user-space mutual-exclusion lock built from first principles: a
//! spinlock-protected internal state plus a FIFO queue of blocked waiters,
//! woken by a directed block/wake signal instead of busy-waiting.
//!
//! The verified heart of the lock is its state machine. `state` holds the
//! executable core that every `lock`/`unlock` call steps through while the
//! spin guard is held; `model` describes the whole concurrent protocol,
//! one phase per thread, together with its inductive invariant; `traces`
//! proves the protocol's laws over arbitrary interleavings: mutual
//! exclusion, no lost wakeup, deadlock freedom, and FIFO hand-off order.

pub mod model;
pub mod state;
pub mod traces;
