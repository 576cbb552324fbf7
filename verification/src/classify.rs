//! Log line classification: a pure mapping from a raw output line to a
//! severity and a message, following the sidecar's short level tags.
//!
//! A line is trimmed of surrounding whitespace; an all-whitespace line is
//! dropped. A recognized 6-byte tag — `"[FTL] "`, `"[ERR] "`, `"[WRN] "`,
//! `"[INF] "`, `"[DBG] "`, `"[VRB] "` — picks the severity and is stripped
//! from the message; a line with no recognized tag is forwarded verbatim at
//! info severity.

use vstd::prelude::*;

use crate::text::is_space;
use crate::text::suffix_from;
use crate::text::trim_bytes;
use crate::text::trimmed;

verus! {

/// The importance of a forwarded log line, lowest first.
#[derive(Clone, Copy, Debug, PartialEq, Eq, Structural)]
pub enum Severity {
    Trace,
    Debug,
    Info,
    Warn,
    Error,
}

/// One classified log line, ready for the host's logging sink.
#[derive(Clone, Debug)]
pub struct LogRecord {
    pub severity: Severity,
    pub message: Vec<u8>,
}

/// The mathematical value of a `LogRecord`.
pub struct RecordModel {
    pub severity: Severity,
    pub message: Seq<u8>,
}

impl View for LogRecord {
    type V = RecordModel;

    open spec fn view(&self) -> RecordModel {
        RecordModel { severity: self.severity, message: self.message@ }
    }
}

/// The 6-byte severity tag `"[" c0 c1 c2 "] "`.
pub open spec fn tag(c0: u8, c1: u8, c2: u8) -> Seq<u8> {
    seq![91u8, c0, c1, c2, 93u8, 32u8]
}

/// The bytes of `"[FTL] "`.
pub open spec fn ftl_tag() -> Seq<u8> {
    tag(70, 84, 76)
}

/// The bytes of `"[ERR] "`.
pub open spec fn err_tag() -> Seq<u8> {
    tag(69, 82, 82)
}

/// The bytes of `"[WRN] "`.
pub open spec fn wrn_tag() -> Seq<u8> {
    tag(87, 82, 78)
}

/// The bytes of `"[INF] "`.
pub open spec fn inf_tag() -> Seq<u8> {
    tag(73, 78, 70)
}

/// The bytes of `"[DBG] "`.
pub open spec fn dbg_tag() -> Seq<u8> {
    tag(68, 66, 71)
}

/// The bytes of `"[VRB] "`.
pub open spec fn vrb_tag() -> Seq<u8> {
    tag(86, 82, 66)
}

/// Whether `s` begins with `p`.
pub open spec fn starts_with(s: Seq<u8>, p: Seq<u8>) -> bool {
    s.len() >= p.len() && s.subrange(0, p.len() as int) == p
}

/// Whether the trimmed line `t` begins with one of the recognized tags.
pub open spec fn has_known_tag(t: Seq<u8>) -> bool {
    ||| starts_with(t, ftl_tag())
    ||| starts_with(t, err_tag())
    ||| starts_with(t, wrn_tag())
    ||| starts_with(t, inf_tag())
    ||| starts_with(t, dbg_tag())
    ||| starts_with(t, vrb_tag())
}

/// The severity a trimmed line `t` carries: the one its tag names, or info
/// when no tag is recognized.
pub open spec fn severity_of(t: Seq<u8>) -> Severity {
    if starts_with(t, ftl_tag()) || starts_with(t, err_tag()) {
        Severity::Error
    } else if starts_with(t, wrn_tag()) {
        Severity::Warn
    } else if starts_with(t, inf_tag()) {
        Severity::Info
    } else if starts_with(t, dbg_tag()) {
        Severity::Debug
    } else if starts_with(t, vrb_tag()) {
        Severity::Trace
    } else {
        Severity::Info
    }
}

/// The message a trimmed line `t` carries: the line with a recognized tag
/// stripped, or the whole line when no tag is recognized.
pub open spec fn message_of(t: Seq<u8>) -> Seq<u8> {
    if has_known_tag(t) {
        t.subrange(6, t.len() as int)
    } else {
        t
    }
}

/// What classification makes of a raw line: nothing for an all-whitespace
/// line, else the severity and message of the trimmed line.
pub open spec fn classify(line: Seq<u8>) -> Option<RecordModel> {
    let t = trimmed(line);
    if t.len() == 0 {
        None
    } else {
        Some(RecordModel { severity: severity_of(t), message: message_of(t) })
    }
}

/// Whether the trimmed line `t` begins with the tag `"[" c0 c1 c2 "] "`.
fn has_tag(t: &Vec<u8>, c0: u8, c1: u8, c2: u8) -> (r: bool)
    ensures
        r == starts_with(t@, tag(c0, c1, c2)),
{
    let r = t.len() >= 6 && t[0] == 91 && t[1] == c0 && t[2] == c1 && t[3] == c2 && t[4] == 93
        && t[5] == 32;
    proof {
        if r {
            assert(t@.subrange(0, 6) =~= tag(c0, c1, c2));
        } else if t@.len() >= 6 && t@.subrange(0, 6) == tag(c0, c1, c2) {
            assert(t@[0] == t@.subrange(0, 6)[0]);
            assert(t@[1] == t@.subrange(0, 6)[1]);
            assert(t@[2] == t@.subrange(0, 6)[2]);
            assert(t@[3] == t@.subrange(0, 6)[3]);
            assert(t@[4] == t@.subrange(0, 6)[4]);
            assert(t@[5] == t@.subrange(0, 6)[5]);
        }
    }
    r
}

/// The severity a recognized tag names.
pub open spec fn tag_severity(p: Seq<u8>) -> Severity {
    if p == ftl_tag() || p == err_tag() {
        Severity::Error
    } else if p == wrn_tag() {
        Severity::Warn
    } else if p == inf_tag() {
        Severity::Info
    } else if p == dbg_tag() {
        Severity::Debug
    } else {
        Severity::Trace
    }
}

/// Whether `p` is one of the six recognized tags.
pub open spec fn is_known_tag(p: Seq<u8>) -> bool {
    p == ftl_tag() || p == err_tag() || p == wrn_tag() || p == inf_tag() || p == dbg_tag() || p
        == vrb_tag()
}

/// Two recognized tags that prefix the same line are the same tag, and a
/// line prefixed by a recognized tag has a known tag.
proof fn lemma_tag_prefix_unique(t: Seq<u8>, p: Seq<u8>)
    requires
        is_known_tag(p),
        starts_with(t, p),
    ensures
        has_known_tag(t),
        forall|q: Seq<u8>| is_known_tag(q) && starts_with(t, q) ==> q == p,
{
    assert(p.len() == 6);
    assert forall|q: Seq<u8>| is_known_tag(q) && starts_with(t, q) implies q == p by {
        assert(q == t.subrange(0, 6));
        assert(p == t.subrange(0, 6));
    }
}

/// Classifier round trip, tagged: prefixing a message with a recognized tag
/// classifies to that tag's severity and strips the tag off unchanged. The
/// message must be non-empty and carry no trailing whitespace — trimming
/// would otherwise eat into the tag or shorten the message.
pub proof fn lemma_classify_tagged(p: Seq<u8>, msg: Seq<u8>)
    requires
        is_known_tag(p),
        msg.len() > 0,
        !is_space(msg.last()),
    ensures
        classify(p + msg) == Some(RecordModel { severity: tag_severity(p), message: msg }),
{
    let line = p + msg;
    assert(line[0] == p[0] && p[0] == 91 && !is_space(91));
    crate::text::lemma_trim_start_skip(line, 0);
    assert(crate::text::trim_start(line) =~= line);
    assert(line.last() == msg.last());
    crate::text::lemma_trim_end_skip(line, line.len() as int);
    assert(trimmed(line) =~= line);
    assert(line.subrange(0, 6) =~= p);
    lemma_tag_prefix_unique(line, p);
    assert(ftl_tag()[1] == 70 && err_tag()[1] == 69 && wrn_tag()[1] == 87 && inf_tag()[1] == 73
        && dbg_tag()[1] == 68 && vrb_tag()[1] == 86);
    assert(severity_of(line) == tag_severity(p));
    assert(message_of(line) =~= msg);
}

/// Classifier round trip, untagged: an already-trimmed message with no
/// recognized tag classifies verbatim at info severity.
pub proof fn lemma_classify_untagged(msg: Seq<u8>)
    requires
        msg.len() > 0,
        !is_space(msg[0]),
        !is_space(msg.last()),
        !has_known_tag(msg),
    ensures
        classify(msg) == Some(RecordModel { severity: Severity::Info, message: msg }),
{
    crate::text::lemma_trim_start_skip(msg, 0);
    assert(crate::text::trim_start(msg) =~= msg);
    crate::text::lemma_trim_end_skip(msg, msg.len() as int);
    assert(trimmed(msg) =~= msg);
}

/// Classifier round trip, blank: an all-whitespace line produces no record.
pub proof fn lemma_classify_blank(line: Seq<u8>)
    requires
        forall|k: int| 0 <= k < line.len() ==> is_space(line[k]),
    ensures
        classify(line) is None,
{
    crate::text::lemma_trim_start_skip(line, line.len() as int);
    assert(crate::text::trim_start(line) =~= Seq::<u8>::empty());
}

/// Classifies one raw output line of the sidecar: `None` exactly for
/// all-whitespace lines, otherwise the severity named by the line's tag (info
/// when untagged) and the message with the tag stripped.
pub fn forward_dotnet_line(line: &[u8]) -> (r: Option<LogRecord>)
    ensures
        r is Some <==> classify(line@) is Some,
        r matches Some(rec) ==> classify(line@) == Some(rec@),
{
    let t = trim_bytes(line);
    if t.len() == 0 {
        return None;
    }
    let severity = if has_tag(&t, 70, 84, 76) || has_tag(&t, 69, 82, 82) {
        Severity::Error
    } else if has_tag(&t, 87, 82, 78) {
        Severity::Warn
    } else if has_tag(&t, 73, 78, 70) {
        Severity::Info
    } else if has_tag(&t, 68, 66, 71) {
        Severity::Debug
    } else if has_tag(&t, 86, 82, 66) {
        Severity::Trace
    } else {
        let message = t;
        return Some(LogRecord { severity: Severity::Info, message });
    };
    let message = suffix_from(&t, 6);
    Some(LogRecord { severity, message })
}

} // verus!
