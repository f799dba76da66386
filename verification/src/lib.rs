//! A bridge between a chat event stream and locally configured shell commands.
//!
//! The library holds the verified core: the fenced-block message parser, the
//! command registry and template renderer, the execution engine, and the
//! event-dispatch state machine with its acknowledgement rules. Transport,
//! HTTP calls and configuration loading live outside the library.

pub mod config;
pub mod dispatch;
pub mod executor;
pub mod text;
