//! Verified core logic of a local process supervisor: durable log journals
//! and the reading of detached processes' journals, cursor paging, launchd
//! plist generation, detached-helper control messages, process-group
//! signalling and shutdown decisions, runtime guards and file watches, job
//! triggers and their timers, browser sessions, ownership rules of the
//! private state, and wire types.

pub mod text;
pub mod instant;
pub mod journal;
pub mod hex;
pub mod paging;
pub mod launchd;
pub mod control;
pub mod signals;
pub mod api;
pub mod events;
pub mod stream;
pub mod auth;
pub mod notification;
pub mod shutdown;
pub mod spawn;
pub mod guards;
pub mod lifecycle;
pub mod hook;
pub mod reaper;
pub mod store;
pub mod scheduler;
pub mod journal_read;
pub mod watch;
pub mod owner;
pub mod repr;
pub mod error;
pub mod mapping;
pub mod schema;
pub mod proxy;
pub mod wire;
