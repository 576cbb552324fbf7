//! The process supervisor's lifecycle state machine: spawn, handshake,
//! hand-off to the forwarder, and an idempotent stop.
//!
//! The supervisor owns at most one process handle at a time. Starting spawns
//! the child and drives the handshake over the child's output events within a
//! time bound; on success the discovered port is stored and the rest of the
//! stream belongs to the forwarder. On a handshake failure the child is left
//! running (stopping it there would race a process still initializing), so
//! the state stays `Starting` and the handle stays owned. Stopping signals
//! the child exactly once, whatever else happened, and is a no-op without an
//! owned handle. The host shell performs the spawn, the timing and the signal
//! delivery; this machine decides everything.

use vstd::prelude::*;

use crate::classify::LogRecord;
use crate::handshake::handshake_consumed;
use crate::handshake::handshake_records;
use crate::handshake::handshake_result;
use crate::handshake::read_port;
use crate::handshake::HandshakeError;
use crate::handshake::OutputEvent;
use crate::handshake::StreamEnd;

verus! {

/// Where the supervised sidecar stands: never started, spawned but without a
/// discovered port yet, running with its announced port, or stopped for good.
#[derive(Clone, Copy, Debug, PartialEq, Eq, Structural)]
pub enum SidecarState {
    NotStarted,
    Starting,
    Running(u16),
    Stopped,
}

/// Why a start failed: the process could not be created at all, or it was
/// spawned but the port handshake failed.
#[derive(Clone, Copy, Debug, PartialEq, Eq)]
pub enum StartError {
    Spawn,
    Handshake(HandshakeError),
}

/// The mathematical value of a `SidecarManager`: its lifecycle state and
/// whether it currently owns the child's process handle.
pub struct ManagerModel {
    pub state: SidecarState,
    pub owns_handle: bool,
}

/// A freshly constructed manager: nothing started, no handle owned.
pub open spec fn initial_model() -> ManagerModel {
    ManagerModel { state: SidecarState::NotStarted, owns_handle: false }
}

/// How a start attempt moves the manager: a failed spawn changes nothing; a
/// successful spawn takes the handle and reaches `Running` exactly when the
/// handshake on the observed events succeeds, staying `Starting` otherwise.
pub open spec fn start_transition(
    m: ManagerModel,
    spawned: bool,
    events: Seq<OutputEvent>,
    end: StreamEnd,
) -> ManagerModel {
    if !spawned {
        m
    } else {
        match handshake_result(events, end) {
            Ok(p) => ManagerModel { state: SidecarState::Running(p), owns_handle: true },
            Err(_) => ManagerModel { state: SidecarState::Starting, owns_handle: true },
        }
    }
}

/// What a start attempt returns: the spawn failure, the handshake failure,
/// or the discovered port.
pub open spec fn start_result(spawned: bool, events: Seq<OutputEvent>, end: StreamEnd) -> Result<
    u16,
    StartError,
> {
    if !spawned {
        Err(StartError::Spawn)
    } else {
        match handshake_result(events, end) {
            Ok(p) => Ok(p),
            Err(e) => Err(StartError::Handshake(e)),
        }
    }
}

/// How a stop moves the manager, and whether it signals the child: with an
/// owned handle the handle is released, the state becomes `Stopped` and the
/// child is signalled; without one nothing happens.
pub open spec fn stop_transition(m: ManagerModel) -> (ManagerModel, bool) {
    if m.owns_handle {
        (ManagerModel { state: SidecarState::Stopped, owns_handle: false }, true)
    } else {
        (m, false)
    }
}

/// The port a manager can answer a query with: only a running sidecar has
/// one.
pub open spec fn known_port(m: ManagerModel) -> Option<u16> {
    match m.state {
        SidecarState::Running(p) => Some(p),
        _ => None,
    }
}

/// Supervises the lifecycle of the sidecar process: holds the state machine
/// and the (abstract) ownership of the child's handle.
pub struct SidecarManager {
    state: SidecarState,
    owns_handle: bool,
}

impl View for SidecarManager {
    type V = ManagerModel;

    closed spec fn view(&self) -> ManagerModel {
        ManagerModel { state: self.state, owns_handle: self.owns_handle }
    }
}

/// What a start attempt hands back: the port or the failure, the events the
/// handshake consumed (the forwarder takes over right after), and the records
/// forwarded while the handshake ran, in order.
pub struct StartOutcome {
    pub result: Result<u16, StartError>,
    pub consumed: usize,
    pub records: Vec<LogRecord>,
}

impl SidecarManager {
    /// A manager with nothing started and no handle owned.
    pub fn new() -> (m: SidecarManager)
        ensures
            m@ == initial_model(),
    {
        SidecarManager { state: SidecarState::NotStarted, owns_handle: false }
    }

    /// Starts the sidecar, given what the host shell observed: whether the
    /// spawn succeeded, and the window of output events it produced before a
    /// decision, a closed stream, or the time bound (`end` says which of the
    /// two cut the window short when no event decided).
    ///
    /// On a successful handshake the announced port is stored and returned;
    /// on any failure the error says why, and a spawned child stays running
    /// and owned, in state `Starting`.
    pub fn start(
        &mut self,
        spawned: bool,
        events: &Vec<OutputEvent>,
        end: StreamEnd,
    ) -> (out: StartOutcome)
        requires
            old(self)@.state is NotStarted,
            !old(self)@.owns_handle,
        ensures
            final(self)@ == start_transition(old(self)@, spawned, events@, end),
            out.result == start_result(spawned, events@, end),
            spawned ==> out.consumed == handshake_consumed(events@),
            spawned ==> out.records@.map_values(|r: LogRecord| r@) == handshake_records(events@),
            !spawned ==> out.consumed == 0 && out.records@ == Seq::<LogRecord>::empty(),
    {
        if !spawned {
            return StartOutcome { result: Err(StartError::Spawn), consumed: 0, records: Vec::new() };
        }
        self.owns_handle = true;
        self.state = SidecarState::Starting;
        let hs = read_port(events, end);
        match hs.result {
            Ok(p) => {
                self.state = SidecarState::Running(p);
                StartOutcome { result: Ok(p), consumed: hs.consumed, records: hs.records }
            },
            Err(e) => {
                StartOutcome {
                    result: Err(StartError::Handshake(e)),
                    consumed: hs.consumed,
                    records: hs.records,
                }
            },
        }
    }

    /// Stops the sidecar: reports whether the host shell must signal the
    /// child's termination now, which happens exactly once, on the first stop
    /// after a successful spawn. Without an owned handle — never started, a
    /// failed spawn, or already stopped — this is a no-op.
    pub fn stop(&mut self) -> (signal: bool)
        ensures
            final(self)@ == stop_transition(old(self)@).0,
            signal == stop_transition(old(self)@).1,
    {
        if self.owns_handle {
            self.owns_handle = false;
            self.state = SidecarState::Stopped;
            true
        } else {
            false
        }
    }

    /// The port the sidecar announced, or nothing while it is not running.
    pub fn get_sidecar_port(&self) -> (r: Option<u16>)
        ensures
            r == known_port(self@),
    {
        match self.state {
            SidecarState::Running(p) => Some(p),
            _ => None,
        }
    }
}

/// Stopping is idempotent: a second stop right after a first one changes
/// nothing and never signals the child again, and a stop on a manager that
/// never spawned anything changes nothing and signals nothing.
pub proof fn lemma_stop_idempotent(m: ManagerModel)
    ensures
        stop_transition(stop_transition(m).0) == (stop_transition(m).0, false),
        stop_transition(initial_model()) == (initial_model(), false),
{
}

/// `Running` is reached only through a successful handshake: whatever window
/// a start attempt observed, the manager ends up running on port `p` exactly
/// when the spawn succeeded and the handshake returned `p`.
pub proof fn lemma_running_needs_handshake(
    m: ManagerModel,
    spawned: bool,
    events: Seq<OutputEvent>,
    end: StreamEnd,
)
    requires
        m.state is NotStarted,
    ensures
        forall|p: u16|
            start_transition(m, spawned, events, end).state == SidecarState::Running(p) <==> (
            spawned && handshake_result(events, end) == Ok::<u16, HandshakeError>(p)),
{
}

} // verus!
