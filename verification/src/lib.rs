//! Supervisor core for a backend "sidecar" process launched by a desktop
//! host application.
//!
//! The sidecar announces the network port it bound to by printing a single
//! stdout line `SIDECAR_PORT:<decimal-port>`; every other line it writes, on
//! stdout or stderr, is a structured log line that is classified by severity
//! and forwarded to the host's logging sink.
//!
//! This crate holds the decision logic of that supervisor, fully verified:
//! trimming and port parsing (`text`), log-line classification (`classify`),
//! the handshake and forwarding decisions over the process's output events
//! (`handshake`), and the lifecycle state machine (`supervisor`). Process
//! spawning, channels, timers and the logging sink live outside: the host
//! shell feeds plain output events in and carries log records and signals out.

pub mod classify;
pub mod handshake;
pub mod supervisor;
pub mod text;
