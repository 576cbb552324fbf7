use sidecar_supervisor::classify::forward_dotnet_line;
use sidecar_supervisor::classify::Severity;

fn expect_record(line: &[u8], severity: Severity, message: &[u8]) {
    let rec = forward_dotnet_line(line).expect("line should produce a record");
    assert_eq!(rec.severity, severity);
    assert_eq!(rec.message, message.to_vec());
}

#[test]
fn fatal_tag_maps_to_error() {
    expect_record(b"[FTL] disk gone", Severity::Error, b"disk gone");
}

#[test]
fn error_tag_maps_to_error() {
    expect_record(b"[ERR] bad request", Severity::Error, b"bad request");
}

#[test]
fn warn_tag_maps_to_warn() {
    expect_record(b"[WRN] cache miss", Severity::Warn, b"cache miss");
}

#[test]
fn info_tag_maps_to_info() {
    expect_record(b"[INF] booting", Severity::Info, b"booting");
}

#[test]
fn debug_tag_maps_to_debug() {
    expect_record(b"[DBG] poll tick", Severity::Debug, b"poll tick");
}

#[test]
fn verbose_tag_maps_to_trace() {
    expect_record(b"[VRB] handler enter", Severity::Trace, b"handler enter");
}

#[test]
fn untagged_line_is_info_verbatim() {
    expect_record(b"plain progress note", Severity::Info, b"plain progress note");
}

#[test]
fn unknown_tag_is_forwarded_whole() {
    expect_record(b"[XXX] odd line", Severity::Info, b"[XXX] odd line");
}

#[test]
fn surrounding_whitespace_is_trimmed() {
    expect_record(b"  [WRN] low space \r\n", Severity::Warn, b"low space");
}

#[test]
fn message_keeps_inner_whitespace() {
    expect_record(b"[INF]  two  spaces", Severity::Info, b" two  spaces");
}

#[test]
fn empty_line_is_dropped() {
    assert!(forward_dotnet_line(b"").is_none());
}

#[test]
fn all_whitespace_line_is_dropped() {
    assert!(forward_dotnet_line(b" \t \r\n ").is_none());
}

#[test]
fn bare_tag_loses_its_trailing_space_and_stays_verbatim() {
    // "[FTL] " trims to "[FTL]", which no longer carries the 6-byte tag.
    expect_record(b"[FTL] ", Severity::Info, b"[FTL]");
}

#[test]
fn stderr_and_stdout_share_the_classifier() {
    // The classifier takes bytes, not a stream: same line, same record.
    expect_record(b"[ERR] from either stream", Severity::Error, b"from either stream");
}
