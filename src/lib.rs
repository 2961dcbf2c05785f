//! Task domain model, persistence records and undoable command history
//! for a small single-user task manager.
//!
//! - `task`: the task entity and its lifecycle state machine.
//! - `text`, `shorthand`: free-text input and its inline priority and
//!   due-date tokens.
//! - `storage`: the persisted record format and where the file lives.
//! - `service`: the store, the undo history and the commands over them.
//! - `clock`: the monotonic clock for lifecycle stamps.

pub mod clock;
pub mod task;
pub mod text;
pub mod shorthand;
pub mod storage;
pub mod service;
