use sidecar_supervisor::classify::Severity;
use sidecar_supervisor::handshake::forward_output;
use sidecar_supervisor::handshake::HandshakeError;
use sidecar_supervisor::handshake::OutputEvent;
use sidecar_supervisor::handshake::StreamEnd;
use sidecar_supervisor::supervisor::SidecarManager;
use sidecar_supervisor::supervisor::StartError;

fn stdout(line: &[u8]) -> OutputEvent {
    OutputEvent::StdoutLine(line.to_vec())
}

#[test]
fn fresh_manager_knows_no_port() {
    let m = SidecarManager::new();
    assert_eq!(m.get_sidecar_port(), None);
}

#[test]
fn successful_start_stores_the_port() {
    let mut m = SidecarManager::new();
    let events = vec![stdout(b"SIDECAR_PORT:54321")];
    let out = m.start(true, &events, StreamEnd::Closed);
    assert_eq!(out.result, Ok(54321));
    assert_eq!(m.get_sidecar_port(), Some(54321));
}

#[test]
fn boot_scenario_forwards_around_the_handshake() {
    // The sidecar prints an info line, announces its port, then keeps
    // logging: the info line is forwarded by the handshake reader, the port
    // is returned, and the later warn line belongs to the forwarder.
    let mut m = SidecarManager::new();
    let events = vec![
        stdout(b"[INF] booting"),
        stdout(b"SIDECAR_PORT:54321"),
        stdout(b"[WRN] cache miss"),
    ];
    let out = m.start(true, &events, StreamEnd::Closed);
    assert_eq!(out.result, Ok(54321));
    assert_eq!(out.consumed, 2);
    assert_eq!(out.records.len(), 1);
    assert_eq!(out.records[0].severity, Severity::Info);
    assert_eq!(out.records[0].message, b"booting".to_vec());

    let rest: Vec<OutputEvent> = events[out.consumed..].to_vec();
    let forwarded = forward_output(&rest);
    assert_eq!(forwarded.exit, None);
    assert_eq!(forwarded.records.len(), 1);
    assert_eq!(forwarded.records[0].severity, Severity::Warn);
    assert_eq!(forwarded.records[0].message, b"cache miss".to_vec());
}

#[test]
fn immediate_close_fails_start_with_channel_closed() {
    let mut m = SidecarManager::new();
    let events: Vec<OutputEvent> = Vec::new();
    let out = m.start(true, &events, StreamEnd::Closed);
    assert_eq!(out.result, Err(StartError::Handshake(HandshakeError::ChannelClosed)));
    assert_eq!(m.get_sidecar_port(), None);
}

#[test]
fn timeout_fails_start_but_leaves_the_child_owned() {
    let mut m = SidecarManager::new();
    let events: Vec<OutputEvent> = Vec::new();
    let out = m.start(true, &events, StreamEnd::TimedOut);
    assert_eq!(out.result, Err(StartError::Handshake(HandshakeError::Timeout)));
    // The child was spawned and is still owned: the first stop signals it.
    assert!(m.stop());
    assert!(!m.stop());
}

#[test]
fn premature_exit_reaches_start_with_the_exit_code() {
    let mut m = SidecarManager::new();
    let events = vec![OutputEvent::Terminated(Some(7))];
    let out = m.start(true, &events, StreamEnd::Closed);
    assert_eq!(
        out.result,
        Err(StartError::Handshake(HandshakeError::PrematureExit(Some(7))))
    );
}

#[test]
fn failed_spawn_fails_start_and_owns_nothing() {
    let mut m = SidecarManager::new();
    let events: Vec<OutputEvent> = Vec::new();
    let out = m.start(false, &events, StreamEnd::Closed);
    assert_eq!(out.result, Err(StartError::Spawn));
    assert!(out.records.is_empty());
    // Nothing was spawned, so stop has nothing to signal.
    assert!(!m.stop());
}

#[test]
fn stop_is_idempotent_after_a_run() {
    let mut m = SidecarManager::new();
    let events = vec![stdout(b"SIDECAR_PORT:1234")];
    let out = m.start(true, &events, StreamEnd::Closed);
    assert_eq!(out.result, Ok(1234));
    assert!(m.stop());
    assert!(!m.stop());
    assert_eq!(m.get_sidecar_port(), None);
}

#[test]
fn stop_without_start_is_a_no_op() {
    let mut m = SidecarManager::new();
    assert!(!m.stop());
    assert!(!m.stop());
    assert_eq!(m.get_sidecar_port(), None);
}
