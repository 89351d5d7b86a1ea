//! The routing kernel of an event collector: a layered configuration resolver
//! deciding which named sources and sinks exist and are active, a
//! fixed-capacity broadcast bus with explicit loss semantics under
//! backpressure, and the supervision logic that checks start-up preconditions
//! and aggregates the outcome of the running adapter tasks.

pub mod bus;
pub mod config;
pub mod errors;
pub mod message;
pub mod supervisor;
