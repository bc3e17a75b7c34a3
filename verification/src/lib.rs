//! A first-come-first-served reader-writer lock.
//!
//! Any number of readers or one writer may use the value at a time. The order in
//! which threads ask is the order in which they are let in: consider this history.
//!
//! 1. Thread A wants shared access: it is let in.
//! 2. Thread B wants shared access: it is let in.
//! 3. Thread C wants exclusive access: it has to wait until A and B are done.
//! 4. Thread D wants shared access: it has to wait until A, B and C are done.
//!
//! A lock that let D in while A and B read could keep C waiting for long.
//!
//! A writer that panics while it has access poisons the lock. Everybody who gets
//! access later is told so.
//!
//! The functions of this crate change the state of a lock through `&mut`
//! references and never block. A thread that has to wait is told so, keeps its
//! place, and asks again later. What the threads of a program need besides, which
//! is a way to take turns on the state, to yield, and to know when they panic,
//! is left to the code around the crate.
//!
//! * [`lock`] is the lock and the access to it.
//! * [`queue`] is the queue of requests that the lock works with.
//! * [`sticky`] is the slot by which a request points to the one before it.
//! * [`model`] says what the queue is and what each step on it does.
//! * [`history`] is everything that threads can do with a lock, step by step.
//! * [`effects`] and [`sticky_effects`] say what each step and each call changes.
//! * [`laws`] and [`sticky_laws`] say what holds of all of that.
//! * [`fairness`] says that in an endless run no request starves.
pub mod effects;
pub mod error;
pub mod fairness;
pub mod history;
pub mod laws;
pub mod lock;
pub mod model;
pub mod queue;
pub mod sticky;
pub mod sticky_effects;
pub mod sticky_laws;

pub use crate::error::{LockResult, PoisonError, TryLockError, TryLockResult};
pub use crate::lock::{Acquire, RwLock, RwLockReadGuard, RwLockWriteGuard};
pub use crate::model::ThreadId;
pub use crate::queue::Request;
