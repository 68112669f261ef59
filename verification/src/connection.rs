//! The steps from a server's address to a relay with the server.
use crate::error::{result_view, ErrorKind, ErrorView, ProxyError};
use crate::policy::{lookup, PolicyManager, RuleView};
use crate::text::{
    all_digits, append_decimal, chars_of, decimal, digits_value, find_last, last_position,
    parse_digits, trim_bounds, trim_end, trim_start,
};
use vstd::prelude::*;
use vstd::string::*;

verus! {

/// The timeout for read/write operations on TCP socket
pub const TCP_READ_WRITE_TIMEOUT: u64 = 60;

/// The port that `s` denotes: digits, with or without a plus sign before them.
pub open spec fn port_number(s: Seq<char>) -> Option<u16> {
    let digits = if s.len() > 0 && s[0] == '+' {
        s.drop_first()
    } else {
        s
    };
    if digits.len() > 0 && all_digits(digits) && digits_value(digits) <= 65535 {
        Some(digits_value(digits) as u16)
    } else {
        None
    }
}

/// The host and the port that an address denotes.
///
/// The last colon parts them, and the brackets round an IPv6 host are no part of it.
pub open spec fn host_port(addr: Seq<char>) -> Option<(Seq<char>, u16)> {
    match last_position(addr, ':') {
        None => None,
        Some(i) => match port_number(addr.skip(i + 1)) {
            None => None,
            Some(port) => Some((trim_end(trim_start(addr.take(i), '['), ']'), port)),
        },
    }
}

/// The error for an address that denotes no host and port.
pub open spec fn invalid_address() -> ErrorView {
    ErrorView {
        kind: ErrorKind::InvalidInput,
        message: "Invalid address format, expected host:port"@,
    }
}

/// The host and the port that an address denotes.
pub fn parse_server_addr<'a>(addr: &'a str) -> (target: Result<(&'a str, u16), ProxyError>)
    ensures
        match (target, host_port(addr@)) {
            (Ok((host, port)), Some((host_text, port_number))) => host@ == host_text && port
                == port_number,
            (Err(error), None) => error@ == invalid_address(),
            _ => false,
        },
{
    let chars = chars_of(addr);
    match find_last(&chars, ':') {
        Some(i) => {
            let digits: usize = if i + 1 < chars.len() && chars[i + 1] == '+' {
                i + 2
            } else {
                i + 1
            };
            proof {
                let port_text = addr@.skip(i + 1);
                assert(addr@.skip(digits as int) =~= if port_text.len() > 0 && port_text[0] == '+' {
                    port_text.drop_first()
                } else {
                    port_text
                });
            }
            match parse_digits(&chars, digits, 65535) {
                Some(port) => {
                    let (from, to) = trim_bounds(&chars, i, '[', ']');
                    return Ok((addr.substring_char(from, to), port as u16));
                },
                None => {},
            }
        },
        None => {},
    }
    Err(
        ProxyError::new(
            ErrorKind::InvalidInput,
            "Invalid address format, expected host:port".to_owned(),
        ),
    )
}

/// The text of the error for a server that the policy does not allow.
pub open spec fn not_allowed(host: Seq<char>, port: u16) -> Seq<char> {
    "Connection to "@ + host + ":"@ + decimal(port as nat) + " is not allowed by policy"@
}

/// Whether a connection to an address is authorized, and to which host and port the policy applies.
/// Without a policy every address that denotes a host and a port is authorized.
pub open spec fn authorization(rules: Option<Seq<RuleView>>, addr: Seq<char>) -> Result<
    (Seq<char>, u16),
    ErrorView,
> {
    match host_port(addr) {
        None => Err(invalid_address()),
        Some((host, port)) => if rules is Some && lookup(rules->0, host, port) is None {
            Err(
                ErrorView {
                    kind: ErrorKind::PermissionDenied,
                    message: not_allowed(host, port),
                },
            )
        } else {
            Ok((host, port))
        },
    }
}

/// Decides whether a connection to an address is authorized.
pub fn authorize<'a>(policy: Option<&PolicyManager>, addr: &'a str) -> (target: Result<
    (&'a str, u16),
    ProxyError,
>)
    ensures
        match (
            target,
            authorization(
                match policy {
                    Some(manager) => Some(manager@),
                    None => None,
                },
                addr@,
            ),
        ) {
            (Ok((host, port)), Ok((host_text, port_number))) => host@ == host_text && port
                == port_number,
            (Err(error), Err(raised)) => error@ == raised,
            _ => false,
        },
{
    let (host, port) = match parse_server_addr(addr) {
        Ok(target) => target,
        Err(error) => return Err(error),
    };
    match policy {
        Some(manager) => {
            if !manager.is_allowed(host, port) {
                let mut message = "Connection to ".to_owned();
                message.append(host);
                message.append(":");
                append_decimal(&mut message, port as u64);
                message.append(" is not allowed by policy");
                return Err(ProxyError::new(ErrorKind::PermissionDenied, message));
            }
        },
        None => {},
    }
    Ok((host, port))
}

/// How far the setup of a connection has come.
#[derive(Debug, Clone, Copy, PartialEq, Eq, Structural)]
pub enum Phase {
    /// The address is being resolved
    Resolving,
    /// The address at this position, of so many, is being connected to
    Connecting(usize, usize),
    /// The read timeout of the TCP stream is being set
    SettingReadTimeout,
    /// The write timeout of the TCP stream is being set
    SettingWriteTimeout,
    /// The response is being sent to the client
    Responding,
    /// The streams are being relayed
    Relaying,
    /// The connection has ended
    Ended,
}

/// What the setup of a connection does next.
#[derive(Debug)]
pub enum Action {
    /// Resolve the address
    Resolve(String),
    /// Connect to the resolved address at this position
    Connect(usize),
    /// Set the read timeout of the TCP stream, in seconds
    SetReadTimeout(u64),
    /// Set the write timeout of the TCP stream, in seconds
    SetWriteTimeout(u64),
    /// Tell the client that the connection is established
    Respond,
    /// Relay the two streams, under the policy for the host and the port
    Relay(String, u16),
    /// End with the result
    End(Result<(), ProxyError>),
}

/// The contents of an action.
pub enum ActionView {
    Resolve(Seq<char>),
    Connect(usize),
    SetReadTimeout(u64),
    SetWriteTimeout(u64),
    Respond,
    Relay(Seq<char>, u16),
    End(Result<(), ErrorView>),
}

impl View for Action {
    type V = ActionView;

    open spec fn view(&self) -> ActionView {
        match *self {
            Action::Resolve(addr) => ActionView::Resolve(addr@),
            Action::Connect(i) => ActionView::Connect(i),
            Action::SetReadTimeout(seconds) => ActionView::SetReadTimeout(seconds),
            Action::SetWriteTimeout(seconds) => ActionView::SetWriteTimeout(seconds),
            Action::Respond => ActionView::Respond,
            Action::Relay(host, port) => ActionView::Relay(host@, port),
            Action::End(result) => ActionView::End(result_view(result)),
        }
    }
}

/// The state of the setup: the host and the port that the policy applies to, whether the client
/// waits for a response, and the phase.
pub struct SessionView {
    pub host: Seq<char>,
    pub port: u16,
    pub conproto: bool,
    pub phase: Phase,
}

/// The end of a setup that failed.
pub open spec fn failed(kind: ErrorKind, message: Seq<char>) -> ActionView {
    ActionView::End(Err(ErrorView { kind, message }))
}

/// The first state and action. Only where the connection is authorized is the address resolved.
pub open spec fn session_start(
    rules: Option<Seq<RuleView>>,
    addr: Seq<char>,
    conproto: bool,
) -> (SessionView, ActionView) {
    match authorization(rules, addr) {
        Ok((host, port)) => (
            SessionView { host, port, conproto, phase: Phase::Resolving },
            ActionView::Resolve(addr),
        ),
        Err(error) => (
            SessionView { host: Seq::empty(), port: 0, conproto, phase: Phase::Ended },
            ActionView::End(Err(error)),
        ),
    }
}

/// The phase and the action by which the address at position `i` is tried, where there is one.
pub open spec fn attempt(i: int, addresses: usize) -> (Phase, ActionView) {
    if i < addresses {
        (Phase::Connecting(i as usize, addresses), ActionView::Connect(i as usize))
    } else {
        (
            Phase::Ended,
            failed(
                ErrorKind::ConnectionRefused,
                "Failed to connect to any resolved address"@,
            ),
        )
    }
}

/// The next phase and action, given how the last action went: well, where resolving gave so many
/// addresses, or with an error.
pub open spec fn session_step(state: SessionView, outcome: Result<usize, ErrorView>) -> (
    Phase,
    ActionView,
) {
    match (state.phase, outcome) {
        (Phase::Resolving, Ok(addresses)) => attempt(0, addresses),
        (Phase::Resolving, Err(error)) => (
            Phase::Ended,
            failed(ErrorKind::InvalidInput, "Failed to resolve address: "@ + error.message),
        ),
        (Phase::Connecting(_, _), Ok(_)) => (
            Phase::SettingReadTimeout,
            ActionView::SetReadTimeout(TCP_READ_WRITE_TIMEOUT),
        ),
        (Phase::Connecting(i, addresses), Err(_)) => attempt(i + 1, addresses),
        (Phase::SettingReadTimeout, Ok(_)) => (
            Phase::SettingWriteTimeout,
            ActionView::SetWriteTimeout(TCP_READ_WRITE_TIMEOUT),
        ),
        (Phase::SettingReadTimeout, Err(error)) => (
            Phase::Ended,
            failed(error.kind, "Failed to set TCP read timeout: "@ + error.message),
        ),
        (Phase::SettingWriteTimeout, Ok(_)) => if state.conproto {
            (Phase::Responding, ActionView::Respond)
        } else {
            (Phase::Relaying, ActionView::Relay(state.host, state.port))
        },
        (Phase::SettingWriteTimeout, Err(error)) => (
            Phase::Ended,
            failed(error.kind, "Failed to set TCP write timeout: "@ + error.message),
        ),
        (Phase::Responding, Ok(_)) => (
            Phase::Relaying,
            ActionView::Relay(state.host, state.port),
        ),
        (Phase::Responding, Err(error)) => (Phase::Ended, ActionView::End(Err(error))),
        // An error of the relay is no error of the connection.
        (Phase::Relaying, _) => (Phase::Ended, ActionView::End(Ok(()))),
        (Phase::Ended, _) => (Phase::Ended, ActionView::End(Ok(()))),
    }
}

/// What an outcome says, with the error by its view.
pub open spec fn outcome_view(outcome: Result<usize, ProxyError>) -> Result<usize, ErrorView> {
    match outcome {
        Ok(addresses) => Ok(addresses),
        Err(error) => Err(error@),
    }
}

/// The setup of one connection.
#[derive(Debug)]
pub struct Session {
    host: String,
    port: u16,
    conproto: bool,
    phase: Phase,
}

impl View for Session {
    type V = SessionView;

    closed spec fn view(&self) -> SessionView {
        SessionView {
            host: self.host@,
            port: self.port,
            conproto: self.conproto,
            phase: self.phase,
        }
    }
}

impl Session {
    /// Starts the setup of a connection to an address, where it is authorized.
    pub fn start(policy: Option<&PolicyManager>, addr: &str, conproto: bool) -> (started: (
        Session,
        Action,
    ))
        ensures
            (started.0@, started.1@) == session_start(
                match policy {
                    Some(manager) => Some(manager@),
                    None => None,
                },
                addr@,
                conproto,
            ),
    {
        match authorize(policy, addr) {
            Ok((host, port)) => (
                Session { host: host.to_owned(), port, conproto, phase: Phase::Resolving },
                Action::Resolve(addr.to_owned()),
            ),
            Err(error) => {
                let host = String::new();
                proof {
                    assert(host@ =~= Seq::<char>::empty());
                }
                (
                    Session { host, port: 0, conproto, phase: Phase::Ended },
                    Action::End(Err(error)),
                )
            },
        }
    }

    /// Whether the connection has ended.
    pub fn ended(&self) -> (ended: bool)
        ensures
            ended == (self@.phase == Phase::Ended),
    {
        self.phase == Phase::Ended
    }

    /// Tries the address at position `i`.
    fn attempt(&mut self, i: usize, addresses: usize) -> (action: Action)
        ensures
            final(self)@ == (SessionView { phase: attempt(i as int, addresses).0, ..old(self)@ }),
            action@ == attempt(i as int, addresses).1,
    {
        if i < addresses {
            self.phase = Phase::Connecting(i, addresses);
            Action::Connect(i)
        } else {
            self.phase = Phase::Ended;
            Action::End(
                Err(
                    ProxyError::new(
                        ErrorKind::ConnectionRefused,
                        "Failed to connect to any resolved address".to_owned(),
                    ),
                ),
            )
        }
    }

    /// Ends with the text of an I/O error behind `context`.
    fn fail(&mut self, kind: ErrorKind, context: &str, cause: &str) -> (action: Action)
        ensures
            final(self)@ == (SessionView { phase: Phase::Ended, ..old(self)@ }),
            action@ == failed(kind, context@ + cause@),
    {
        self.phase = Phase::Ended;
        let mut message = context.to_owned();
        message.append(cause);
        Action::End(Err(ProxyError::new(kind, message)))
    }

    /// Goes over to relaying.
    fn relay(&mut self) -> (action: Action)
        ensures
            final(self)@ == (SessionView { phase: Phase::Relaying, ..old(self)@ }),
            action@ == ActionView::Relay(old(self)@.host, old(self)@.port),
    {
        self.phase = Phase::Relaying;
        Action::Relay(self.host.clone(), self.port)
    }

    /// Takes how the last action went and says what to do next. Where it went well, the outcome
    /// holds the number of addresses that resolving gave; after other actions the number is of no
    /// account.
    pub fn step(&mut self, outcome: Result<usize, ProxyError>) -> (action: Action)
        ensures
            final(self)@ == (SessionView {
                phase: session_step(old(self)@, outcome_view(outcome)).0,
                ..old(self)@
            }),
            action@ == session_step(old(self)@, outcome_view(outcome)).1,
    {
        match self.phase {
            Phase::Resolving => match outcome {
                Ok(addresses) => self.attempt(0, addresses),
                Err(error) => self.fail(
                    ErrorKind::InvalidInput,
                    "Failed to resolve address: ",
                    &error.message,
                ),
            },
            Phase::Connecting(i, addresses) => match outcome {
                Ok(_) => {
                    self.phase = Phase::SettingReadTimeout;
                    Action::SetReadTimeout(TCP_READ_WRITE_TIMEOUT)
                },
                Err(_) => self.attempt(i.saturating_add(1), addresses),
            },
            Phase::SettingReadTimeout => match outcome {
                Ok(_) => {
                    self.phase = Phase::SettingWriteTimeout;
                    Action::SetWriteTimeout(TCP_READ_WRITE_TIMEOUT)
                },
                Err(error) => self.fail(
                    error.kind(),
                    "Failed to set TCP read timeout: ",
                    &error.message,
                ),
            },
            Phase::SettingWriteTimeout => match outcome {
                Ok(_) => {
                    if self.conproto {
                        self.phase = Phase::Responding;
                        Action::Respond
                    } else {
                        self.relay()
                    }
                },
                Err(error) => self.fail(
                    error.kind(),
                    "Failed to set TCP write timeout: ",
                    &error.message,
                ),
            },
            Phase::Responding => match outcome {
                Ok(_) => self.relay(),
                Err(error) => {
                    self.phase = Phase::Ended;
                    Action::End(Err(error))
                },
            },
            _ => {
                self.phase = Phase::Ended;
                Action::End(Ok(()))
            },
        }
    }
}

} // verus!
