use sidecar_supervisor::classify::Severity;
use sidecar_supervisor::handshake::forward_output;
use sidecar_supervisor::handshake::handshake_step;
use sidecar_supervisor::handshake::read_port;
use sidecar_supervisor::handshake::HandshakeError;
use sidecar_supervisor::handshake::HandshakeStep;
use sidecar_supervisor::handshake::OutputEvent;
use sidecar_supervisor::handshake::StreamEnd;

fn stdout(line: &[u8]) -> OutputEvent {
    OutputEvent::StdoutLine(line.to_vec())
}

fn stderr(line: &[u8]) -> OutputEvent {
    OutputEvent::StderrLine(line.to_vec())
}

#[test]
fn valid_announcement_succeeds() {
    let events = vec![stdout(b"SIDECAR_PORT:54321")];
    let out = read_port(&events, StreamEnd::Closed);
    assert_eq!(out.result, Ok(54321));
    assert_eq!(out.consumed, 1);
    assert!(out.records.is_empty());
}

#[test]
fn announcement_payload_may_carry_whitespace() {
    let events = vec![stdout(b"SIDECAR_PORT: 8080 \r")];
    let out = read_port(&events, StreamEnd::TimedOut);
    assert_eq!(out.result, Ok(8080));
}

#[test]
fn unparsable_announcement_is_invalid_port() {
    let events = vec![stdout(b"SIDECAR_PORT:fast")];
    let out = read_port(&events, StreamEnd::Closed);
    assert_eq!(out.result, Err(HandshakeError::InvalidPort));
}

#[test]
fn out_of_range_announcement_is_invalid_port() {
    let events = vec![stdout(b"SIDECAR_PORT:70000")];
    let out = read_port(&events, StreamEnd::Closed);
    assert_eq!(out.result, Err(HandshakeError::InvalidPort));
}

#[test]
fn termination_before_announcement_is_premature_exit() {
    let events = vec![stderr(b"[ERR] bind failed"), OutputEvent::Terminated(Some(3))];
    let out = read_port(&events, StreamEnd::Closed);
    assert_eq!(out.result, Err(HandshakeError::PrematureExit(Some(3))));
    assert_eq!(out.consumed, 2);
    assert_eq!(out.records.len(), 1);
    assert_eq!(out.records[0].severity, Severity::Error);
    assert_eq!(out.records[0].message, b"bind failed".to_vec());
}

#[test]
fn termination_without_code_keeps_the_unknown_code() {
    let events = vec![OutputEvent::Terminated(None)];
    let out = read_port(&events, StreamEnd::Closed);
    assert_eq!(out.result, Err(HandshakeError::PrematureExit(None)));
}

#[test]
fn silent_close_is_channel_closed() {
    let events: Vec<OutputEvent> = Vec::new();
    let out = read_port(&events, StreamEnd::Closed);
    assert_eq!(out.result, Err(HandshakeError::ChannelClosed));
    assert_eq!(out.consumed, 0);
    assert!(out.records.is_empty());
}

#[test]
fn elapsed_bound_is_timeout() {
    let events = vec![stdout(b"[INF] still warming up")];
    let out = read_port(&events, StreamEnd::TimedOut);
    assert_eq!(out.result, Err(HandshakeError::Timeout));
    assert_eq!(out.consumed, 1);
    assert_eq!(out.records.len(), 1);
    assert_eq!(out.records[0].severity, Severity::Info);
}

#[test]
fn lines_before_the_announcement_are_forwarded_in_order() {
    let events = vec![
        stdout(b"[DBG] reading config"),
        stderr(b"[WRN] config missing, defaults"),
        stdout(b"   "),
        stdout(b"SIDECAR_PORT:9000"),
        stdout(b"[INF] after handshake"),
    ];
    let out = read_port(&events, StreamEnd::Closed);
    assert_eq!(out.result, Ok(9000));
    assert_eq!(out.consumed, 4);
    assert_eq!(out.records.len(), 2);
    assert_eq!(out.records[0].severity, Severity::Debug);
    assert_eq!(out.records[0].message, b"reading config".to_vec());
    assert_eq!(out.records[1].severity, Severity::Warn);
    assert_eq!(out.records[1].message, b"config missing, defaults".to_vec());
}

#[test]
fn first_announcement_wins() {
    let events = vec![stdout(b"SIDECAR_PORT:1000"), stdout(b"SIDECAR_PORT:2000")];
    let out = read_port(&events, StreamEnd::Closed);
    assert_eq!(out.result, Ok(1000));
    assert_eq!(out.consumed, 1);
}

#[test]
fn announcement_on_stderr_does_not_count() {
    let events = vec![stderr(b"SIDECAR_PORT:4242")];
    let out = read_port(&events, StreamEnd::Closed);
    assert_eq!(out.result, Err(HandshakeError::ChannelClosed));
    // The would-be announcement is forwarded as an ordinary info line.
    assert_eq!(out.records.len(), 1);
    assert_eq!(out.records[0].severity, Severity::Info);
    assert_eq!(out.records[0].message, b"SIDECAR_PORT:4242".to_vec());
}

#[test]
fn step_decides_one_event_at_a_time() {
    match handshake_step(&stdout(b"SIDECAR_PORT:7")) {
        HandshakeStep::Port(p) => assert_eq!(p, 7),
        _ => panic!("expected the port"),
    }
    match handshake_step(&stdout(b"SIDECAR_PORT:x")) {
        HandshakeStep::Fail(e) => assert_eq!(e, HandshakeError::InvalidPort),
        _ => panic!("expected invalid port"),
    }
    match handshake_step(&OutputEvent::Terminated(Some(9))) {
        HandshakeStep::Fail(e) => assert_eq!(e, HandshakeError::PrematureExit(Some(9))),
        _ => panic!("expected premature exit"),
    }
    match handshake_step(&stdout(b"  ")) {
        HandshakeStep::Skip => {}
        _ => panic!("expected a dropped blank line"),
    }
    match handshake_step(&stderr(b"[VRB] noisy")) {
        HandshakeStep::Forward(rec) => {
            assert_eq!(rec.severity, Severity::Trace);
            assert_eq!(rec.message, b"noisy".to_vec());
        }
        _ => panic!("expected a forwarded record"),
    }
}

#[test]
fn forwarder_classifies_until_termination() {
    let events = vec![
        stdout(b"[INF] serving"),
        stderr(b"[ERR] dropped conn"),
        OutputEvent::Terminated(Some(0)),
        stdout(b"[INF] never seen"),
    ];
    let out = forward_output(&events);
    assert_eq!(out.exit, Some(Some(0)));
    assert_eq!(out.records.len(), 2);
    assert_eq!(out.records[0].severity, Severity::Info);
    assert_eq!(out.records[0].message, b"serving".to_vec());
    assert_eq!(out.records[1].severity, Severity::Error);
    assert_eq!(out.records[1].message, b"dropped conn".to_vec());
}

#[test]
fn forwarder_ends_silently_without_termination() {
    let events = vec![stdout(b"[INF] tail line")];
    let out = forward_output(&events);
    assert_eq!(out.exit, None);
    assert_eq!(out.records.len(), 1);
}

#[test]
fn forwarder_drops_blank_lines() {
    let events = vec![stdout(b""), stderr(b" \t"), stdout(b"kept")];
    let out = forward_output(&events);
    assert_eq!(out.records.len(), 1);
    assert_eq!(out.records[0].message, b"kept".to_vec());
}
