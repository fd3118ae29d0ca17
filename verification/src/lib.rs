//! Command and trace-supervision core of a remotely controllable tracing
//! daemon: a durable catalog of named trace definitions behind a
//! single-writer store, a supervisor that admission-controls running trace
//! executions, the per-execution state machine, and the in-order outbound
//! channel that carries replies and completion notices.
pub mod codec;
pub mod model;
pub mod store;
pub mod execution;
pub mod supervisor;
pub mod notifier;
pub mod dispatch;
pub mod laws;
