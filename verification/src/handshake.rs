//! The port handshake and the output forwarder: decisions over the ordered
//! stream of output events a running sidecar process produces.
//!
//! The sidecar announces its bound port with a single stdout line of the form
//! `SIDECAR_PORT:<decimal-port>`. The handshake reader walks the event stream
//! in order: the first port line decides the handshake (parsed port, or an
//! invalid-port failure), a termination event decides it (premature exit),
//! and every other line is classified and forwarded meanwhile. A window that
//! ends with no deciding event fails as channel-closed or timed-out,
//! according to how it ended. After a successful handshake the forwarder
//! classifies the rest of the stream until it terminates.

use vstd::prelude::*;

use crate::classify::classify;
use crate::classify::forward_dotnet_line;
use crate::classify::LogRecord;
use crate::classify::RecordModel;
use crate::classify::starts_with;
use crate::text::parse_port;
use crate::text::parse_port_bytes;
use crate::text::suffix_from;

verus! {

/// One event of the sidecar's output stream: a stdout line, a stderr line,
/// or the process's termination with its exit code, if one is known.
#[derive(Clone, Debug)]
pub enum OutputEvent {
    StdoutLine(Vec<u8>),
    StderrLine(Vec<u8>),
    Terminated(Option<i32>),
}

/// How an observed window of events ended when no deciding event came: the
/// stream closed, or the handshake's time bound elapsed first.
#[derive(Clone, Copy, Debug, PartialEq, Eq, Structural)]
pub enum StreamEnd {
    Closed,
    TimedOut,
}

/// Why a handshake failed: the announced value was not a 16-bit port, the
/// process exited first (with its exit code, if known), the output stream
/// closed without an announcement, or nothing qualifying came in time.
#[derive(Clone, Copy, Debug, PartialEq, Eq)]
pub enum HandshakeError {
    InvalidPort,
    PrematureExit(Option<i32>),
    ChannelClosed,
    Timeout,
}

/// The bytes of `"SIDECAR_PORT:"`, the announcement line's prefix.
pub open spec fn port_prefix() -> Seq<u8> {
    seq![83u8, 73u8, 68u8, 69u8, 67u8, 65u8, 82u8, 95u8, 80u8, 79u8, 82u8, 84u8, 58u8]
}

/// Whether the line `l` is a port announcement: it begins with the prefix.
pub open spec fn is_port_line(l: Seq<u8>) -> bool {
    starts_with(l, port_prefix())
}

/// The remainder of a port announcement line, after the prefix.
pub open spec fn port_payload(l: Seq<u8>) -> Seq<u8> {
    l.subrange(13, l.len() as int)
}

/// Whether the event `e` decides the handshake: a port announcement line on
/// stdout, or the process's termination.
pub open spec fn decides(e: OutputEvent) -> bool {
    match e {
        OutputEvent::StdoutLine(l) => is_port_line(l@),
        OutputEvent::StderrLine(_) => false,
        OutputEvent::Terminated(_) => true,
    }
}

/// What a deciding event decides: the parsed port of an announcement line
/// (or an invalid-port failure), or a premature-exit failure.
pub open spec fn decision_of(e: OutputEvent) -> Result<u16, HandshakeError>
    recommends
        decides(e),
{
    match e {
        OutputEvent::StdoutLine(l) => match parse_port(port_payload(l@)) {
            Some(p) => Ok(p),
            None => Err(HandshakeError::InvalidPort),
        },
        OutputEvent::StderrLine(_) => Err(HandshakeError::ChannelClosed),
        OutputEvent::Terminated(code) => Err(HandshakeError::PrematureExit(code)),
    }
}

/// The index of the first event satisfying `p`, or the window's length when
/// none does.
pub open spec fn first_where(events: Seq<OutputEvent>, p: spec_fn(OutputEvent) -> bool) -> int
    decreases events.len(),
{
    if events.len() == 0 {
        0
    } else if p(events[0]) {
        0
    } else {
        1 + first_where(events.drop_first(), p)
    }
}

/// `first_where` is pinned by its characteristic facts: everything before `i`
/// fails `p`, and `i` is the window's length or a position satisfying `p`.
pub proof fn lemma_first_where_at(
    events: Seq<OutputEvent>,
    p: spec_fn(OutputEvent) -> bool,
    i: int,
)
    requires
        0 <= i <= events.len(),
        forall|k: int| 0 <= k < i ==> !p(events[k]),
        i < events.len() ==> p(events[i]),
    ensures
        first_where(events, p) == i,
    decreases i,
{
    if i == 0 {
    } else {
        lemma_first_where_at(events.drop_first(), p, i - 1);
    }
}

/// The index of the event that decides the handshake, or the window's length
/// when none does.
pub open spec fn first_decider(events: Seq<OutputEvent>) -> int {
    first_where(events, |e: OutputEvent| decides(e))
}

/// The index of the first termination event, or the window's length when the
/// stream never terminated inside it.
pub open spec fn first_termination(events: Seq<OutputEvent>) -> int {
    first_where(events, |e: OutputEvent| e is Terminated)
}

/// The records one event contributes to the forwarded log: the classified
/// line, nothing for a dropped (all-whitespace) line or a termination event.
pub open spec fn records_of_event(e: OutputEvent) -> Seq<RecordModel> {
    match e {
        OutputEvent::StdoutLine(l) => match classify(l@) {
            Some(m) => seq![m],
            None => Seq::empty(),
        },
        OutputEvent::StderrLine(l) => match classify(l@) {
            Some(m) => seq![m],
            None => Seq::empty(),
        },
        OutputEvent::Terminated(_) => Seq::empty(),
    }
}

/// The records a window of events contributes, in arrival order.
pub open spec fn records_of(events: Seq<OutputEvent>) -> Seq<RecordModel>
    decreases events.len(),
{
    if events.len() == 0 {
        Seq::empty()
    } else {
        records_of(events.drop_last()) + records_of_event(events.last())
    }
}

/// What the handshake returns on a window of events that ended as `end`
/// says: the first deciding event's decision, or the failure the ending
/// itself means.
pub open spec fn handshake_result(events: Seq<OutputEvent>, end: StreamEnd) -> Result<
    u16,
    HandshakeError,
> {
    let i = first_decider(events);
    if i < events.len() {
        decision_of(events[i])
    } else {
        match end {
            StreamEnd::Closed => Err(HandshakeError::ChannelClosed),
            StreamEnd::TimedOut => Err(HandshakeError::Timeout),
        }
    }
}

/// The records the handshake forwards: every line before the deciding event.
pub open spec fn handshake_records(events: Seq<OutputEvent>) -> Seq<RecordModel> {
    records_of(events.take(first_decider(events)))
}

/// How many events the handshake consumes: through the deciding event, or
/// the whole window when none decides. The forwarder resumes right after.
pub open spec fn handshake_consumed(events: Seq<OutputEvent>) -> int {
    let i = first_decider(events);
    if i < events.len() {
        i + 1
    } else {
        events.len() as int
    }
}

/// What the handshake reader does with one event, in stream order.
pub enum HandshakeStep {
    /// A classified log line to forward; keep reading.
    Forward(LogRecord),
    /// A dropped (all-whitespace) line; keep reading.
    Skip,
    /// The port announcement: the handshake is complete.
    Port(u16),
    /// A deciding failure: an unparsable announcement or a termination.
    Fail(HandshakeError),
}

/// Whether `l` begins with the bytes of `"SIDECAR_PORT:"`.
fn has_port_prefix(l: &Vec<u8>) -> (r: bool)
    ensures
        r == is_port_line(l@),
{
    let r = l.len() >= 13 && l[0] == 83 && l[1] == 73 && l[2] == 68 && l[3] == 69 && l[4] == 67
        && l[5] == 65 && l[6] == 82 && l[7] == 95 && l[8] == 80 && l[9] == 79 && l[10] == 82
        && l[11] == 84 && l[12] == 58;
    proof {
        if r {
            assert(l@.subrange(0, 13) =~= port_prefix());
        } else if l@.len() >= 13 && l@.subrange(0, 13) == port_prefix() {
            assert forall|k: int| 0 <= k < 13 implies l@[k] == port_prefix()[k] by {
                assert(l@.subrange(0, 13)[k] == l@[k]);
            }
        }
    }
    r
}

/// Decides what one event of the stream means to the handshake reader: the
/// deciding events map to their decision, every other line to its classified
/// record or to nothing.
pub fn handshake_step(e: &OutputEvent) -> (s: HandshakeStep)
    ensures
        match s {
            HandshakeStep::Port(p) => decides(*e) && decision_of(*e) == Ok::<
                u16,
                HandshakeError,
            >(p),
            HandshakeStep::Fail(err) => decides(*e) && decision_of(*e) == Err::<
                u16,
                HandshakeError,
            >(err),
            HandshakeStep::Forward(rec) => !decides(*e) && records_of_event(*e) == seq![rec@],
            HandshakeStep::Skip => !decides(*e) && records_of_event(*e)
                == Seq::<RecordModel>::empty(),
        },
{
    match e {
        OutputEvent::StdoutLine(l) => {
            if has_port_prefix(l) {
                let payload = suffix_from(l, 13);
                match parse_port_bytes(payload.as_slice()) {
                    Some(p) => HandshakeStep::Port(p),
                    None => HandshakeStep::Fail(HandshakeError::InvalidPort),
                }
            } else {
                match forward_dotnet_line(l.as_slice()) {
                    Some(rec) => HandshakeStep::Forward(rec),
                    None => HandshakeStep::Skip,
                }
            }
        },
        OutputEvent::StderrLine(l) => {
            match forward_dotnet_line(l.as_slice()) {
                Some(rec) => HandshakeStep::Forward(rec),
                None => HandshakeStep::Skip,
            }
        },
        OutputEvent::Terminated(code) => {
            HandshakeStep::Fail(HandshakeError::PrematureExit(*code))
        },
    }
}

/// What a completed handshake window yields: the decision, how many events
/// it consumed, and the records it forwarded meanwhile, in order.
pub struct HandshakeOutcome {
    pub result: Result<u16, HandshakeError>,
    pub consumed: usize,
    pub records: Vec<LogRecord>,
}

/// Reads the port announcement from a window of output events that ended as
/// `end` says: walks the stream in order, forwarding classified lines, until
/// a port line, a termination event, or the window's end decides it.
pub fn read_port(events: &Vec<OutputEvent>, end: StreamEnd) -> (out: HandshakeOutcome)
    ensures
        out.result == handshake_result(events@, end),
        out.consumed == handshake_consumed(events@),
        out.records@.map_values(|r: LogRecord| r@) == handshake_records(events@),
{
    let mut records: Vec<LogRecord> = Vec::new();
    let mut i: usize = 0;
    while i < events.len()
        invariant
            0 <= i <= events@.len(),
            forall|k: int| 0 <= k < i ==> !decides(events@[k]),
            records@.map_values(|r: LogRecord| r@) == records_of(events@.take(i as int)),
        decreases events@.len() - i,
    {
        let ghost prior = records@;
        let step = handshake_step(&events[i]);
        proof {
            assert(events@.take(i + 1).drop_last() =~= events@.take(i as int));
            assert(events@.take(i + 1).last() == events@[i as int]);
        }
        match step {
            HandshakeStep::Forward(rec) => {
                records.push(rec);
                proof {
                    assert(records@.map_values(|r: LogRecord| r@) =~= prior.map_values(
                        |r: LogRecord| r@,
                    ) + records_of_event(events@[i as int]));
                }
            },
            HandshakeStep::Skip => {
                proof {
                    assert(records_of(events@.take(i + 1)) =~= records_of(events@.take(i as int)));
                }
            },
            HandshakeStep::Port(p) => {
                proof {
                    lemma_first_where_at(events@, |e: OutputEvent| decides(e), i as int);
                }
                return HandshakeOutcome { result: Ok(p), consumed: i + 1, records };
            },
            HandshakeStep::Fail(err) => {
                proof {
                    lemma_first_where_at(events@, |e: OutputEvent| decides(e), i as int);
                }
                return HandshakeOutcome { result: Err(err), consumed: i + 1, records };
            },
        }
        i = i + 1;
    }
    proof {
        lemma_first_where_at(events@, |e: OutputEvent| decides(e), events@.len() as int);
        assert(events@.take(events@.len() as int) =~= events@);
    }
    let result = match end {
        StreamEnd::Closed => Err(HandshakeError::ChannelClosed),
        StreamEnd::TimedOut => Err(HandshakeError::Timeout),
    };
    HandshakeOutcome { result, consumed: i, records }
}

/// A valid announcement decides the handshake with its port: if the first
/// deciding event of the window is a stdout line `SIDECAR_PORT:<rest>` and
/// `rest` (whitespace-trimmed) parses as the 16-bit port `p`, the handshake
/// succeeds with `p` and consumes the stream through that line.
pub proof fn lemma_handshake_accepts_port(
    events: Seq<OutputEvent>,
    i: int,
    line: Vec<u8>,
    p: u16,
    end: StreamEnd,
)
    requires
        0 <= i < events.len(),
        forall|k: int| 0 <= k < i ==> !decides(events[k]),
        events[i] == OutputEvent::StdoutLine(line),
        is_port_line(line@),
        parse_port(port_payload(line@)) == Some(p),
    ensures
        handshake_result(events, end) == Ok::<u16, HandshakeError>(p),
        handshake_consumed(events) == i + 1,
{
    lemma_first_where_at(events, |e: OutputEvent| decides(e), i);
}

/// An unparsable announcement decides the handshake as an invalid port: if
/// the first deciding event is a stdout line `SIDECAR_PORT:<rest>` whose
/// `rest` is not a decimal 16-bit value, the handshake fails as invalid-port.
pub proof fn lemma_handshake_rejects_invalid(
    events: Seq<OutputEvent>,
    i: int,
    line: Vec<u8>,
    end: StreamEnd,
)
    requires
        0 <= i < events.len(),
        forall|k: int| 0 <= k < i ==> !decides(events[k]),
        events[i] == OutputEvent::StdoutLine(line),
        is_port_line(line@),
        parse_port(port_payload(line@)) is None,
    ensures
        handshake_result(events, end) == Err::<u16, HandshakeError>(HandshakeError::InvalidPort),
{
    lemma_first_where_at(events, |e: OutputEvent| decides(e), i);
}

/// Termination before any announcement decides the handshake as a premature
/// exit carrying that termination's exit code, whatever the code is.
pub proof fn lemma_handshake_premature_exit(
    events: Seq<OutputEvent>,
    i: int,
    code: Option<i32>,
    end: StreamEnd,
)
    requires
        0 <= i < events.len(),
        forall|k: int| 0 <= k < i ==> !decides(events[k]),
        events[i] == OutputEvent::Terminated(code),
    ensures
        handshake_result(events, end) == Err::<u16, HandshakeError>(
            HandshakeError::PrematureExit(code),
        ),
{
    lemma_first_where_at(events, |e: OutputEvent| decides(e), i);
}

/// A window with no deciding event fails by how it ended, and nothing else:
/// timed out when the time bound elapsed, channel-closed when the stream
/// closed — in either case the whole window was consumed and every line of
/// it was forwarded.
pub proof fn lemma_handshake_no_decider(events: Seq<OutputEvent>, end: StreamEnd)
    requires
        forall|k: int| 0 <= k < events.len() ==> !decides(events[k]),
    ensures
        handshake_result(events, end) == (match end {
            StreamEnd::TimedOut => Err::<u16, HandshakeError>(HandshakeError::Timeout),
            StreamEnd::Closed => Err::<u16, HandshakeError>(HandshakeError::ChannelClosed),
        }),
        handshake_consumed(events) == events.len(),
        handshake_records(events) == records_of(events),
{
    lemma_first_where_at(events, |e: OutputEvent| decides(e), events.len() as int);
    assert(events.take(events.len() as int) =~= events);
}

/// The records the forwarder emits from a window of post-handshake events:
/// every line before the stream's termination, in order.
pub open spec fn forward_records(events: Seq<OutputEvent>) -> Seq<RecordModel> {
    records_of(events.take(first_termination(events)))
}

/// The exit report the forwarder observes: the first termination event's
/// exit code (itself optional), or nothing when the window closed silently.
pub open spec fn forward_exit(events: Seq<OutputEvent>) -> Option<Option<i32>> {
    let i = first_termination(events);
    if i < events.len() {
        match events[i] {
            OutputEvent::Terminated(code) => Some(code),
            _ => None,
        }
    } else {
        None
    }
}

/// What the forwarder makes of a window of events: the classified records to
/// hand to the logging sink, and the termination it saw, if any — the caller
/// logs that exit code as a final informational record.
pub struct ForwardOutcome {
    pub records: Vec<LogRecord>,
    pub exit: Option<Option<i32>>,
}

/// Consumes the output stream after a successful handshake: classifies and
/// forwards every line, in order, until a termination event (whose exit code
/// is reported) or the window's silent end.
pub fn forward_output(events: &Vec<OutputEvent>) -> (out: ForwardOutcome)
    ensures
        out.records@.map_values(|r: LogRecord| r@) == forward_records(events@),
        out.exit == forward_exit(events@),
{
    let mut records: Vec<LogRecord> = Vec::new();
    let mut i: usize = 0;
    while i < events.len()
        invariant
            0 <= i <= events@.len(),
            forall|k: int| 0 <= k < i ==> !(events@[k] is Terminated),
            records@.map_values(|r: LogRecord| r@) == records_of(events@.take(i as int)),
        decreases events@.len() - i,
    {
        let ghost prior = records@;
        proof {
            assert(events@.take(i + 1).drop_last() =~= events@.take(i as int));
            assert(events@.take(i + 1).last() == events@[i as int]);
        }
        match &events[i] {
            OutputEvent::Terminated(code) => {
                proof {
                    lemma_first_where_at(events@, |e: OutputEvent| e is Terminated, i as int);
                }
                return ForwardOutcome { records, exit: Some(*code) };
            },
            OutputEvent::StdoutLine(l) => {
                match forward_dotnet_line(l.as_slice()) {
                    Some(rec) => {
                        records.push(rec);
                        proof {
                            assert(records@.map_values(|r: LogRecord| r@) =~= prior.map_values(
                                |r: LogRecord| r@,
                            ) + records_of_event(events@[i as int]));
                        }
                    },
                    None => {
                        proof {
                            assert(records_of(events@.take(i + 1)) =~= records_of(
                                events@.take(i as int),
                            ));
                        }
                    },
                }
            },
            OutputEvent::StderrLine(l) => {
                match forward_dotnet_line(l.as_slice()) {
                    Some(rec) => {
                        records.push(rec);
                        proof {
                            assert(records@.map_values(|r: LogRecord| r@) =~= prior.map_values(
                                |r: LogRecord| r@,
                            ) + records_of_event(events@[i as int]));
                        }
                    },
                    None => {
                        proof {
                            assert(records_of(events@.take(i + 1)) =~= records_of(
                                events@.take(i as int),
                            ));
                        }
                    },
                }
            },
        }
        i = i + 1;
    }
    proof {
        lemma_first_where_at(events@, |e: OutputEvent| e is Terminated, events@.len() as int);
        assert(events@.take(events@.len() as int) =~= events@);
    }
    ForwardOutcome { records, exit: None }
}

} // verus!
