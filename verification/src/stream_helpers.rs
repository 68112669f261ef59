//! The relay between the two streams of a connection.
use crate::error::{result_view, ErrorKind, ErrorView, ProxyError};
use crate::policy::{charge, lookup, PolicyManager, RuleView};
use crate::text::{append_decimal, decimal};
use vstd::prelude::*;
use vstd::string::*;

verus! {

/// Default buffer size (64 KB)
pub const BUFFER_SIZE: usize = 65536;

/// Which half of a stream is shut down.
#[derive(Debug, Clone, Copy, PartialEq, Eq, Structural)]
pub enum ShutdownMode {
    Read,
    Write,
    Both,
}

/// What happened in one direction of the relay.
#[derive(Debug)]
pub enum RelayEvent {
    /// A read gave this many bytes; none means that the peer has closed the stream
    Read(usize),
    /// The bytes were written and flushed
    Forwarded,
    /// A read, a write or a flush failed
    Failed(ProxyError),
}

/// What one direction of the relay does next.
#[derive(Debug)]
pub enum RelayAction {
    /// Read from the source
    Read,
    /// Write this many of the bytes that were read to the destination, and flush it
    Forward(usize),
    /// Shut the two streams down and end with the result
    Close {
        source: ShutdownMode,
        destination: ShutdownMode,
        result: Result<(), ProxyError>,
    },
    /// Nothing: the direction has ended before
    Done,
}

/// The contents of an action.
pub enum RelayActionView {
    Read,
    Forward(usize),
    Close { source: ShutdownMode, destination: ShutdownMode, result: Result<(), ErrorView> },
    Done,
}

impl View for RelayAction {
    type V = RelayActionView;

    open spec fn view(&self) -> RelayActionView {
        match *self {
            RelayAction::Read => RelayActionView::Read,
            RelayAction::Forward(n) => RelayActionView::Forward(n),
            RelayAction::Close { source, destination, result } => RelayActionView::Close {
                source,
                destination,
                result: result_view(result),
            },
            RelayAction::Done => RelayActionView::Done,
        }
    }
}

/// The end of the direction from the server to the client: each stream loses the half that the
/// direction used.
pub open spec fn inbound_close(result: Result<(), ErrorView>) -> RelayActionView {
    RelayActionView::Close {
        source: ShutdownMode::Read,
        destination: ShutdownMode::Write,
        result,
    }
}

/// The end of the direction from the client to the server. After an error both streams are shut
/// down altogether, so that the other direction ends too.
pub open spec fn outbound_close(result: Result<(), ErrorView>) -> RelayActionView {
    if result is Err {
        RelayActionView::Close {
            source: ShutdownMode::Both,
            destination: ShutdownMode::Both,
            result,
        }
    } else {
        RelayActionView::Close {
            source: ShutdownMode::Read,
            destination: ShutdownMode::Write,
            result,
        }
    }
}

/// The sum as a counter of the bytes on one connection holds it, which starts again at 0.
pub open spec fn wrapping_sum(a: u64, b: u64) -> u64 {
    if a + b <= u64::MAX {
        (a + b) as u64
    } else {
        (a + b - 0x1_0000_0000_0000_0000) as u64
    }
}

/// The state of the direction from the server to the client: the number of bytes received, and
/// whether the direction has ended.
pub struct InboundState {
    pub bytes: u64,
    pub ended: bool,
}

/// The next state and action of the direction from the server to the client.
pub open spec fn inbound_step(state: InboundState, event: RelayEvent) -> (
    InboundState,
    RelayActionView,
) {
    if state.ended {
        (state, RelayActionView::Done)
    } else {
        match event {
            RelayEvent::Read(n) => if n == 0 {
                (InboundState { ended: true, ..state }, inbound_close(Ok(())))
            } else {
                (
                    InboundState { bytes: wrapping_sum(state.bytes, n as u64), ..state },
                    RelayActionView::Forward(n),
                )
            },
            RelayEvent::Forwarded => (state, RelayActionView::Read),
            RelayEvent::Failed(error) => (
                InboundState { ended: true, ..state },
                inbound_close(Err(error@)),
            ),
        }
    }
}

/// The state of the direction from the client to the server: the rules, where a policy is in
/// force, the number of bytes relayed without one, and whether the direction has ended.
pub struct OutboundState {
    pub rules: Option<Seq<RuleView>>,
    pub bytes: u64,
    pub ended: bool,
}

/// The next state and action of the direction from the client to the server.
///
/// Where a policy is in force, bytes are forwarded only once they are counted on the server's
/// rule; where that is refused, the direction ends with the error.
pub open spec fn outbound_step(
    state: OutboundState,
    host: Seq<char>,
    port: u16,
    event: RelayEvent,
) -> (OutboundState, RelayActionView) {
    if state.ended {
        (state, RelayActionView::Done)
    } else {
        match event {
            RelayEvent::Read(n) => if n == 0 {
                (OutboundState { ended: true, ..state }, outbound_close(Ok(())))
            } else {
                match state.rules {
                    Some(rules) => {
                        let (after, result) = charge(rules, host, port, n as u64);
                        (
                            OutboundState { rules: Some(after), ended: result is Err, ..state },
                            if result is Ok {
                                RelayActionView::Forward(n)
                            } else {
                                outbound_close(result)
                            },
                        )
                    },
                    None => (
                        OutboundState { bytes: wrapping_sum(state.bytes, n as u64), ..state },
                        RelayActionView::Forward(n),
                    ),
                }
            },
            RelayEvent::Forwarded => (state, RelayActionView::Read),
            RelayEvent::Failed(error) => (
                OutboundState { ended: true, ..state },
                outbound_close(Err(error@)),
            ),
        }
    }
}

/// The direction from the server to the client.
#[derive(Debug)]
pub struct Inbound {
    bytes: u64,
    ended: bool,
}

impl View for Inbound {
    type V = InboundState;

    closed spec fn view(&self) -> InboundState {
        InboundState { bytes: self.bytes, ended: self.ended }
    }
}

impl Inbound {
    /// A direction in which nothing was relayed.
    pub fn new() -> (inbound: Inbound)
        ensures
            inbound@ == (InboundState { bytes: 0, ended: false }),
    {
        Inbound { bytes: 0, ended: false }
    }

    /// The number of bytes received.
    pub fn bytes(&self) -> (bytes: u64)
        ensures
            bytes == self@.bytes,
    {
        self.bytes
    }

    /// Takes an event and says what to do next.
    pub fn step(&mut self, event: RelayEvent) -> (action: RelayAction)
        ensures
            (final(self)@, action@) == inbound_step(old(self)@, event),
    {
        if self.ended {
            return RelayAction::Done;
        }
        match event {
            RelayEvent::Read(n) => {
                if n == 0 {
                    self.ended = true;
                    return RelayAction::Close {
                        source: ShutdownMode::Read,
                        destination: ShutdownMode::Write,
                        result: Ok(()),
                    };
                }
                self.bytes = self.bytes.wrapping_add(n as u64);
                RelayAction::Forward(n)
            },
            RelayEvent::Forwarded => RelayAction::Read,
            RelayEvent::Failed(error) => {
                self.ended = true;
                RelayAction::Close {
                    source: ShutdownMode::Read,
                    destination: ShutdownMode::Write,
                    result: Err(error),
                }
            },
        }
    }
}

/// The direction from the client to the server at `host` and `port`.
#[derive(Debug)]
pub struct Outbound {
    host: String,
    port: u16,
    bytes: u64,
    ended: bool,
}

impl Outbound {
    /// The server's host, as the policy is asked for it.
    pub closed spec fn host(&self) -> Seq<char> {
        self.host@
    }

    /// The server's port.
    pub closed spec fn port(&self) -> u16 {
        self.port
    }

    /// The number of bytes relayed without a policy.
    pub closed spec fn relayed(&self) -> u64 {
        self.bytes
    }

    /// Whether the direction has ended.
    pub closed spec fn ended(&self) -> bool {
        self.ended
    }

    /// A direction in which nothing was relayed.
    pub fn new(host: String, port: u16) -> (outbound: Outbound)
        ensures
            outbound.host() == host@,
            outbound.port() == port,
            outbound.relayed() == 0,
            !outbound.ended(),
    {
        Outbound { host, port, bytes: 0, ended: false }
    }

    /// The number of bytes relayed without a policy.
    pub fn bytes(&self) -> (bytes: u64)
        ensures
            bytes == self.relayed(),
    {
        self.bytes
    }

    /// Takes an event and says what to do next.
    pub fn step(&mut self, event: RelayEvent, policy: Option<&mut PolicyManager>) -> (action:
        RelayAction)
        ensures
            final(self).host() == old(self).host(),
            final(self).port() == old(self).port(),
            ({
                let before = OutboundState {
                    rules: match policy {
                        Some(manager) => Some((*manager)@),
                        None => None,
                    },
                    bytes: old(self).relayed(),
                    ended: old(self).ended(),
                };
                let after = OutboundState {
                    rules: match policy {
                        Some(manager) => Some(final(manager)@),
                        None => None,
                    },
                    bytes: final(self).relayed(),
                    ended: final(self).ended(),
                };
                (after, action@) == outbound_step(before, old(self).host(), old(self).port(), event)
            }),
    {
        if self.ended {
            return RelayAction::Done;
        }
        match event {
            RelayEvent::Read(n) => {
                if n == 0 {
                    self.ended = true;
                    return close_outbound(Ok(()));
                }
                match policy {
                    Some(manager) => {
                        let result = manager.check_and_add_tx_bytes(&self.host, self.port, n as u64);
                        if result.is_err() {
                            self.ended = true;
                            return close_outbound(result);
                        }
                    },
                    None => {
                        self.bytes = self.bytes.wrapping_add(n as u64);
                    },
                }
                RelayAction::Forward(n)
            },
            RelayEvent::Forwarded => RelayAction::Read,
            RelayEvent::Failed(error) => {
                self.ended = true;
                close_outbound(Err(error))
            },
        }
    }
}

/// Ends the direction from the client to the server.
fn close_outbound(result: Result<(), ProxyError>) -> (action: RelayAction)
    ensures
        action@ == outbound_close(result_view(result)),
{
    if result.is_err() {
        RelayAction::Close { source: ShutdownMode::Both, destination: ShutdownMode::Both, result }
    } else {
        RelayAction::Close { source: ShutdownMode::Read, destination: ShutdownMode::Write, result }
    }
}

/// The contents of the error for a stream that could not be cloned.
pub open spec fn clone_failure(cause: ErrorView, what: Seq<char>) -> ErrorView {
    ErrorView { kind: cause.kind, message: "Failed to clone "@ + what + " stream"@ }
}

/// The error for a stream that could not be cloned: it keeps the kind of the cause.
pub fn clone_error(cause: &ProxyError, what: &str) -> (raised: ProxyError)
    ensures
        raised@ == clone_failure(cause@, what@),
{
    let mut message = "Failed to clone ".to_owned();
    message.append(what);
    message.append(" stream");
    ProxyError::new(cause.kind(), message)
}

/// Whether an error of this kind is how a connection ordinarily ends.
pub open spec fn expected_close(kind: ErrorKind) -> bool {
    kind == ErrorKind::BrokenPipe || kind == ErrorKind::ConnectionReset || kind
        == ErrorKind::ConnectionAborted || kind == ErrorKind::UnexpectedEof
}

/// Check if an IO error is expected during normal connection termination
pub fn is_expected_close_error(kind: ErrorKind) -> (expected: bool)
    ensures
        expected == expected_close(kind),
{
    match kind {
        // Broken pipe - writing to a socket the peer has closed
        ErrorKind::BrokenPipe => true,
        // Connection reset - peer forcibly closed the connection
        ErrorKind::ConnectionReset => true,
        // Connection aborted - connection was aborted
        ErrorKind::ConnectionAborted => true,
        // Unexpected end of file - peer closed during read
        ErrorKind::UnexpectedEof => true,
        _ => false,
    }
}

/// The two directions of the relay.
#[derive(Debug, Clone, Copy, PartialEq, Eq, Structural)]
pub enum Direction {
    /// From the server to the client
    Inbound,
    /// From the client to the server
    Outbound,
}

/// How a direction is named in reports.
pub open spec fn direction_name(direction: Direction) -> Seq<char> {
    match direction {
        Direction::Inbound => "VSOCK <- TCP"@,
        Direction::Outbound => "VSOCK -> TCP"@,
    }
}

/// The report on the end of a direction's thread; an expected end has none.
pub open spec fn end_report(direction: Direction, end: Option<Result<(), ErrorView>>) -> Option<
    Seq<char>,
> {
    match end {
        Some(Ok(())) => None,
        Some(Err(error)) => if expected_close(error.kind) {
            None
        } else {
            Some(direction_name(direction) + " thread error: "@ + error.message)
        },
        None => Some(direction_name(direction) + " thread panicked"@),
    }
}

/// The report on the end of a direction's thread: on the result that it ended with, or, without
/// one, on its panic.
pub fn thread_report(direction: Direction, end: Option<Result<(), ProxyError>>) -> (report: Option<
    String,
>)
    ensures
        match report {
            Some(line) => end_report(
                direction,
                match end {
                    Some(result) => Some(result_view(result)),
                    None => None,
                },
            ) == Some(line@),
            None => end_report(
                direction,
                match end {
                    Some(result) => Some(result_view(result)),
                    None => None,
                },
            ) is None,
        },
{
    let mut line = match direction {
        Direction::Inbound => "VSOCK <- TCP".to_owned(),
        Direction::Outbound => "VSOCK -> TCP".to_owned(),
    };
    match end {
        Some(Ok(())) => None,
        Some(Err(error)) => {
            if is_expected_close_error(error.kind()) {
                return None;
            }
            line.append(" thread error: ");
            line.append(&error.message);
            Some(line)
        },
        None => {
            line.append(" thread panicked");
            Some(line)
        },
    }
}

/// The line that reports a number of bytes.
pub open spec fn bytes_line(label: Seq<char>, bytes: u64) -> Seq<char> {
    "  "@ + label + ": "@ + decimal(bytes as nat) + " bytes"@
}

fn format_bytes(label: &str, bytes: u64) -> (line: String)
    ensures
        line@ == bytes_line(label@, bytes),
{
    let mut line = "  ".to_owned();
    line.append(label);
    line.append(": ");
    append_decimal(&mut line, bytes);
    line.append(" bytes");
    line
}

/// The number of bytes sent that is reported for a connection: the server's counter where a policy
/// is in force, the bytes of the connection elsewhere.
pub open spec fn sent_bytes(
    rules: Option<Seq<RuleView>>,
    host: Seq<char>,
    port: u16,
    relayed: u64,
) -> Option<u64> {
    match rules {
        Some(rules) => match lookup(rules, host, port) {
            Some(i) => Some(rules[i].used),
            None => None,
        },
        None => Some(relayed),
    }
}

/// The lines that report on a connection that is complete.
pub open spec fn completion_lines(sent: Option<u64>, received: u64) -> Seq<Seq<char>> {
    match sent {
        Some(sent) => seq![
            "Connection complete"@,
            bytes_line("TX"@, sent),
            bytes_line("RX"@, received),
        ],
        None => seq!["Connection complete"@, bytes_line("RX"@, received)],
    }
}

/// The lines that report on a connection that is complete.
pub fn completion_report(
    policy: Option<&PolicyManager>,
    outbound: &Outbound,
    inbound: &Inbound,
) -> (lines: Vec<String>)
    ensures
        Seq::new(lines@.len(), |i: int| lines@[i]@) == completion_lines(
            sent_bytes(
                match policy {
                    Some(manager) => Some(manager@),
                    None => None,
                },
                outbound.host(),
                outbound.port(),
                outbound.relayed(),
            ),
            inbound@.bytes,
        ),
{
    let mut lines: Vec<String> = Vec::new();
    lines.push("Connection complete".to_owned());
    let sent: Option<u64> = match policy {
        Some(manager) => manager.tx_bytes_used(&outbound.host, outbound.port),
        None => Some(outbound.bytes),
    };
    match sent {
        Some(sent) => {
            lines.push(format_bytes("TX", sent));
        },
        None => {},
    }
    lines.push(format_bytes("RX", inbound.bytes));
    assert(Seq::new(lines@.len(), |i: int| lines@[i]@) =~= completion_lines(sent, inbound@.bytes));
    lines
}

} // verus!
