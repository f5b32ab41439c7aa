//! A cross-platform recursive filesystem watcher core: a unified event
//! model, per-platform event decoding and bookkeeping, and a pull-based
//! stream coordinator with adaptive backoff.
//!
//! The blocking OS loops (FSEvents, inotify, fanotify, epoll) live outside
//! this library; it holds the decisions those loops make: which events to
//! emit, how to deduplicate them, how the watch bookkeeping evolves, and
//! how the consumer-side stream polls and stops.

pub mod adapter;
pub mod event;
pub mod watch;

pub use event::Event;
pub use event::Kind;
pub use event::What;
pub use watch::Delay;
pub use watch::EventStream;
pub use watch::watch;
