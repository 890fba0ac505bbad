//! A readiness-driven echo service and the harness that drives it, written as
//! state machines from readiness events and I/O outcomes to re-registrations.
//!
//! The reactor and the sockets stay outside: a caller performs each
//! non-blocking attempt and hands its outcome to the state machine, which
//! answers with the registration to submit next.

pub mod reactor;
pub mod error;
pub mod buffer;
pub mod conn;
pub mod table;
pub mod client;
pub mod echo;
