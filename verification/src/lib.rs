//! A minimal single-threaded cooperative task runtime.
//!
//! The crate models the core of a poll-based runtime: a [`future::Future`]
//! capability that is polled to completion, a [`reactor::Reactor`] that maps
//! I/O identities to wakers and queues I/O requests for an outside driver, an
//! [`executor::Executor`] that schedules ready tasks, and a coroutine-style
//! state machine built from explicit suspension points.

pub mod coroutine;
pub mod executor;
pub mod future;
pub mod http;
pub mod join;
pub mod reactor;
pub mod waker;
