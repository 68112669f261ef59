//! What holds of every run of a relay and of the setup before it.
use crate::connection::{
    attempt, authorization, host_port, outcome_view, session_start, session_step, Action,
    ActionView, Phase, SessionView, TCP_READ_WRITE_TIMEOUT,
};
use crate::error::{ErrorKind, ErrorView, ProxyError};
use crate::notation_laws::{lemma_host_port_notation, writes_host_port};
use crate::policy::{
    charge, lookup, rule_applies, same_address, used_of, valid_rules, RuleView,
};
use crate::policy_laws::{lemma_lookup_by_addresses, lemma_lookup_is_first};
use crate::stream_helpers::{
    clone_failure, completion_lines, end_report, expected_close, inbound_step, outbound_step,
    sent_bytes, Direction, InboundState, OutboundState, RelayAction, RelayActionView, RelayEvent,
    ShutdownMode, BUFFER_SIZE,
};
use crate::text::decimal;
use vstd::prelude::*;

verus! {

/// Whether an event ends a direction: the source is closed, or an I/O operation failed.
pub open spec fn closes(event: RelayEvent) -> bool {
    match event {
        RelayEvent::Read(n) => n == 0,
        RelayEvent::Forwarded => false,
        RelayEvent::Failed(_) => true,
    }
}

/// Whether no event of a run ends the direction.
pub open spec fn stays_open(events: Seq<RelayEvent>) -> bool {
    forall|i: int| 0 <= i < events.len() ==> !closes(#[trigger] events[i])
}

/// The sizes of the chunks that were read in a run of events, up to the first that ends the
/// direction.
pub open spec fn chunks_read(events: Seq<RelayEvent>) -> Seq<usize>
    decreases events.len(),
{
    if events.len() == 0 {
        Seq::empty()
    } else {
        let before = chunks_read(events.drop_last());
        match events.last() {
            RelayEvent::Read(n) => if n > 0 && stays_open(events.drop_last()) {
                before.push(n)
            } else {
                before
            },
            _ => before,
        }
    }
}

/// The number of bytes of chunks in all.
pub open spec fn total(chunks: Seq<usize>) -> nat
    decreases chunks.len(),
{
    if chunks.len() == 0 {
        0
    } else {
        total(chunks.drop_last()) + chunks.last() as nat
    }
}

/// The chunks, and the one that an action forwards behind them.
pub open spec fn with_forwarded(chunks: Seq<usize>, action: RelayActionView) -> Seq<usize> {
    match action {
        RelayActionView::Forward(n) => chunks.push(n),
        _ => chunks,
    }
}

/// The state of the direction to the server after a run of events.
pub open spec fn outbound_run(
    state: OutboundState,
    host: Seq<char>,
    port: u16,
    events: Seq<RelayEvent>,
) -> OutboundState
    decreases events.len(),
{
    if events.len() == 0 {
        state
    } else {
        outbound_step(outbound_run(state, host, port, events.drop_last()), host, port, events.last()).0
    }
}

/// The sizes of the chunks that were forwarded to the server in a run of events.
pub open spec fn forwarded(
    state: OutboundState,
    host: Seq<char>,
    port: u16,
    events: Seq<RelayEvent>,
) -> Seq<usize>
    decreases events.len(),
{
    if events.len() == 0 {
        Seq::empty()
    } else {
        let before = outbound_run(state, host, port, events.drop_last());
        with_forwarded(
            forwarded(state, host, port, events.drop_last()),
            outbound_step(before, host, port, events.last()).1,
        )
    }
}

proof fn lemma_stays_open(events: Seq<RelayEvent>)
    requires
        events.len() > 0,
    ensures
        stays_open(events) <==> stays_open(events.drop_last()) && !closes(events.last()),
{
    let front = events.drop_last();
    assert(forall|i: int| 0 <= i < front.len() ==> #[trigger] front[i] == events[i]);
    assert(events.last() == events[events.len() - 1]);
    if stays_open(events) {
        assert forall|i: int| 0 <= i < front.len() implies !closes(#[trigger] front[i]) by {
            assert(!closes(events[i]));
        }
    }
    if stays_open(front) && !closes(events.last()) {
        assert forall|i: int| 0 <= i < events.len() implies !closes(#[trigger] events[i]) by {
            if i < front.len() {
                assert(!closes(front[i]));
            }
        }
    }
}

/// Whatever happens on a connection under a policy, the chunks that are forwarded to the server
/// are the longest prefix of those read from the client that fits in what is left of the limit.
/// They are counted on the server's rule, byte for byte, and no other rule changes. The direction
/// ends with the first chunk that does not fit, and otherwise only where the client has closed the
/// stream or an I/O operation failed; from then on nothing is forwarded.
pub proof fn lemma_longest_prefix_that_fits_is_forwarded(
    rules: Seq<RuleView>,
    bytes: u64,
    host: Seq<char>,
    port: u16,
    events: Seq<RelayEvent>,
    i: int,
)
    requires
        valid_rules(rules),
        lookup(rules, host, port) == Some(i),
    ensures
        ({
            let start = OutboundState { rules: Some(rules), bytes, ended: false };
            let read = chunks_read(events);
            let sent = forwarded(start, host, port, events);
            &&& sent.len() <= read.len()
            &&& sent == read.take(sent.len() as int)
            &&& rules[i].used + total(sent) <= rules[i].limit
            &&& sent.len() < read.len() ==> rules[i].used + total(read.take(sent.len() as int + 1))
                > rules[i].limit
            &&& outbound_run(start, host, port, events) == (OutboundState {
                rules: Some(
                    rules.update(
                        i,
                        RuleView { used: (rules[i].used + total(sent)) as u64, ..rules[i] },
                    ),
                ),
                bytes,
                ended: sent.len() < read.len() || !stays_open(events),
            })
        }),
    decreases events.len(),
{
    let start = OutboundState { rules: Some(rules), bytes, ended: false };
    let read = chunks_read(events);
    lemma_lookup_is_first(rules, host, port);
    if events.len() == 0 {
        assert(rules.update(i, RuleView { used: (rules[i].used + 0) as u64, ..rules[i] }) =~= rules);
    } else {
        let front = events.drop_last();
        lemma_longest_prefix_that_fits_is_forwarded(rules, bytes, host, port, front, i);
        lemma_stays_open(events);
        let before = outbound_run(start, host, port, front);
        let sent = forwarded(start, host, port, front);
        let k = sent.len() as int;
        assert(lookup(before.rules->0, host, port) == Some(i)) by {
            lemma_lookup_by_addresses(before.rules->0, rules, host, port);
        }
        assert(read.take(k) =~= chunks_read(front).take(k));
        if k < chunks_read(front).len() {
            assert(read.take(k + 1) =~= chunks_read(front).take(k + 1));
        }
        match events.last() {
            RelayEvent::Read(n) => if n > 0 && !before.ended {
                let after = charge(before.rules->0, host, port, n as u64);
                assert(sent =~= chunks_read(front));
                assert(read =~= sent.push(n));
                assert(read.take(k + 1) =~= sent.push(n));
                assert(sent.push(n).drop_last() =~= sent);
                assert(total(sent.push(n)) == total(sent) + n);
                if after.1 is Ok {
                    assert(after.0 =~= rules.update(
                        i,
                        RuleView { used: (rules[i].used + total(sent) + n) as u64, ..rules[i] },
                    ));
                }
            },
            _ => {},
        }
    }
}

/// Under a policy, nothing is forwarded to a server without a rule, and no counter changes.
pub proof fn lemma_nothing_is_forwarded_without_rule(
    rules: Seq<RuleView>,
    bytes: u64,
    host: Seq<char>,
    port: u16,
    events: Seq<RelayEvent>,
)
    requires
        lookup(rules, host, port) is None,
    ensures
        ({
            let start = OutboundState { rules: Some(rules), bytes, ended: false };
            &&& forwarded(start, host, port, events).len() == 0
            &&& outbound_run(start, host, port, events).rules == Some(rules)
        }),
    decreases events.len(),
{
    if events.len() > 0 {
        lemma_nothing_is_forwarded_without_rule(rules, bytes, host, port, events.drop_last());
    }
}

/// Bytes that the policy refuses are not forwarded; the direction ends with the policy's error and
/// both streams are shut down altogether.
pub proof fn lemma_refused_bytes_end_the_connection(
    rules: Seq<RuleView>,
    bytes: u64,
    host: Seq<char>,
    port: u16,
    n: usize,
)
    requires
        n > 0,
        charge(rules, host, port, n as u64).1 is Err,
    ensures
        outbound_step(
            OutboundState { rules: Some(rules), bytes, ended: false },
            host,
            port,
            RelayEvent::Read(n),
        ) == (
            OutboundState { rules: Some(rules), bytes, ended: true },
            RelayActionView::Close {
                source: ShutdownMode::Both,
                destination: ShutdownMode::Both,
                result: charge(rules, host, port, n as u64).1,
            },
        ),
{
}

/// Without a policy, every chunk read from the client is forwarded until the direction ends, and
/// the count is that of the bytes forwarded, modulo the range of the counter.
pub proof fn lemma_all_is_forwarded_without_policy(
    bytes: u64,
    host: Seq<char>,
    port: u16,
    events: Seq<RelayEvent>,
)
    ensures
        ({
            let start = OutboundState { rules: None, bytes, ended: false };
            let end = outbound_run(start, host, port, events);
            &&& forwarded(start, host, port, events) == chunks_read(events)
            &&& end.rules is None
            &&& end.bytes == (bytes + total(chunks_read(events))) % 0x1_0000_0000_0000_0000
            &&& end.ended == !stays_open(events)
        }),
    decreases events.len(),
{
    if events.len() > 0 {
        lemma_all_is_forwarded_without_policy(bytes, host, port, events.drop_last());
        lemma_stays_open(events);
        lemma_total_of_read(events);
    }
}

proof fn lemma_total_of_read(events: Seq<RelayEvent>)
    requires
        events.len() > 0,
    ensures
        total(chunks_read(events)) == total(chunks_read(events.drop_last())) + (match events.last() {
            RelayEvent::Read(n) => if stays_open(events.drop_last()) {
                n as nat
            } else {
                0
            },
            _ => 0,
        }),
{
    match events.last() {
        RelayEvent::Read(n) => if n > 0 && stays_open(events.drop_last()) {
            assert(chunks_read(events).drop_last() =~= chunks_read(events.drop_last()));
        },
        _ => {},
    }
}

/// The state of the direction to the client after a run of events.
pub open spec fn inbound_run(state: InboundState, events: Seq<RelayEvent>) -> InboundState
    decreases events.len(),
{
    if events.len() == 0 {
        state
    } else {
        inbound_step(inbound_run(state, events.drop_last()), events.last()).0
    }
}

/// The sizes of the chunks that were forwarded to the client in a run of events.
pub open spec fn delivered(state: InboundState, events: Seq<RelayEvent>) -> Seq<usize>
    decreases events.len(),
{
    if events.len() == 0 {
        Seq::empty()
    } else {
        with_forwarded(
            delivered(state, events.drop_last()),
            inbound_step(inbound_run(state, events.drop_last()), events.last()).1,
        )
    }
}

/// Every chunk read from the server is forwarded to the client until the direction ends, and the
/// count is that of the bytes forwarded, modulo the range of the counter.
pub proof fn lemma_all_is_delivered(bytes: u64, events: Seq<RelayEvent>)
    ensures
        ({
            let start = InboundState { bytes, ended: false };
            let end = inbound_run(start, events);
            &&& delivered(start, events) == chunks_read(events)
            &&& end.bytes == (bytes + total(chunks_read(events))) % 0x1_0000_0000_0000_0000
            &&& end.ended == !stays_open(events)
        }),
    decreases events.len(),
{
    if events.len() > 0 {
        lemma_all_is_delivered(bytes, events.drop_last());
        lemma_stays_open(events);
        lemma_total_of_read(events);
    }
}

/// Under a policy, a connection is authorized only to a server with a rule, and the relay to that
/// server is never refused for want of one.
pub proof fn lemma_authorized_servers_have_a_rule(
    rules: Seq<RuleView>,
    addr: Seq<char>,
    bytes: u64,
)
    ensures
        authorization(Some(rules), addr) matches Ok((host, port)) ==> {
            &&& host_port(addr) == Some((host, port))
            &&& lookup(rules, host, port) is Some
            &&& charge(rules, host, port, bytes).1 matches Err(error) ==> error.kind
                != ErrorKind::PermissionDenied
        },
        authorization(Some(rules), addr) matches Err(error) ==> (error.kind
            == ErrorKind::PermissionDenied <==> host_port(addr) is Some),
{
}

/// The state and the action that the setup comes to, given how its actions went.
pub open spec fn setup(
    rules: Option<Seq<RuleView>>,
    addr: Seq<char>,
    conproto: bool,
    outcomes: Seq<Result<usize, ErrorView>>,
) -> (SessionView, ActionView)
    decreases outcomes.len(),
{
    if outcomes.len() == 0 {
        session_start(rules, addr, conproto)
    } else {
        let (before, _) = setup(rules, addr, conproto, outcomes.drop_last());
        let (phase, action) = session_step(before, outcomes.last());
        (SessionView { phase, ..before }, action)
    }
}

/// However the actions go, an address is resolved, connected to and relayed only where the
/// connection is authorized, and the relay is under the policy for the host and the port that
/// were authorized. Where it is not, the connection ends at once with the error.
pub proof fn lemma_only_authorized_servers_are_reached(
    rules: Option<Seq<RuleView>>,
    addr: Seq<char>,
    conproto: bool,
    outcomes: Seq<Result<usize, ErrorView>>,
)
    ensures
        ({
            let (state, action) = setup(rules, addr, conproto, outcomes);
            match authorization(rules, addr) {
                Ok((host, port)) => {
                    &&& state.host == host && state.port == port && state.conproto == conproto
                    &&& action matches ActionView::Resolve(resolved) ==> resolved == addr
                    &&& action matches ActionView::Relay(relayed, at) ==> relayed == host && at
                        == port
                },
                Err(error) => {
                    &&& state.phase == Phase::Ended
                    &&& action is End
                    &&& outcomes.len() == 0 ==> action == ActionView::End(Err(error))
                },
            }
        }),
    decreases outcomes.len(),
{
    if outcomes.len() > 0 {
        lemma_only_authorized_servers_are_reached(rules, addr, conproto, outcomes.drop_last());
    }
}

/// The resolved addresses are tried one after the other as long as none accepts, and the
/// connection is refused once none is left.
pub proof fn lemma_addresses_are_tried_in_order(
    rules: Option<Seq<RuleView>>,
    addr: Seq<char>,
    conproto: bool,
    addresses: usize,
    failures: Seq<Result<usize, ErrorView>>,
)
    requires
        authorization(rules, addr) is Ok,
        failures.len() <= addresses,
        forall|i: int| 0 <= i < failures.len() ==> #[trigger] failures[i] is Err,
    ensures
        ({
            let outcomes = seq![Ok(addresses)] + failures;
            let (state, action) = setup(rules, addr, conproto, outcomes);
            (state.phase, action) == attempt(failures.len() as int, addresses)
        }),
    decreases failures.len(),
{
    let outcomes = seq![Ok(addresses)] + failures;
    if failures.len() == 0 {
        assert(outcomes.drop_last() =~= Seq::empty());
        assert(setup(rules, addr, conproto, Seq::empty()) == session_start(rules, addr, conproto));
        assert(outcomes.last() == Ok::<usize, ErrorView>(addresses));
    } else {
        let before = failures.drop_last();
        assert(failures[failures.len() - 1] is Err);
        assert forall|i: int| 0 <= i < before.len() implies #[trigger] before[i] is Err by {
            assert(failures[i] is Err);
        }
        lemma_addresses_are_tried_in_order(rules, addr, conproto, addresses, before);
        assert(outcomes.drop_last() =~= seq![Ok(addresses)] + before);
    }
}

/// Once an address accepts, no other is tried: the timeouts are set, the client is told if it
/// waits for that, and the streams are relayed. The connection then ends well, however the relay
/// went.
pub proof fn lemma_first_address_that_accepts_is_relayed(
    rules: Option<Seq<RuleView>>,
    addr: Seq<char>,
    conproto: bool,
    addresses: usize,
    failures: Seq<Result<usize, ErrorView>>,
    done: Result<usize, ErrorView>,
    relayed: Result<usize, ErrorView>,
)
    requires
        failures.len() < addresses,
        forall|i: int| 0 <= i < failures.len() ==> #[trigger] failures[i] is Err,
        done is Ok,
    ensures
        authorization(rules, addr) matches Ok((host, port)) ==> {
            let connected = (seq![Ok(addresses)] + failures).push(done);
            let read_set = connected.push(done);
            let both_set = read_set.push(done);
            let ready = if conproto {
                both_set.push(done)
            } else {
                both_set
            };
            &&& setup(rules, addr, conproto, connected).1 == ActionView::SetReadTimeout(60)
            &&& setup(rules, addr, conproto, read_set).1 == ActionView::SetWriteTimeout(60)
            &&& conproto ==> setup(rules, addr, conproto, both_set).1 == ActionView::Respond
            &&& setup(rules, addr, conproto, ready).1 == ActionView::Relay(host, port)
            &&& setup(rules, addr, conproto, ready.push(relayed)).1 == ActionView::End(Ok(()))
        },
{
    if authorization(rules, addr) is Ok {
        let tried = seq![Ok(addresses)] + failures;
        let connected = tried.push(done);
        let read_set = connected.push(done);
        let both_set = read_set.push(done);
        let responded = both_set.push(done);
        lemma_addresses_are_tried_in_order(rules, addr, conproto, addresses, failures);
        lemma_only_authorized_servers_are_reached(rules, addr, conproto, tried);
        assert(connected.drop_last() =~= tried);
        assert(read_set.drop_last() =~= connected);
        assert(both_set.drop_last() =~= read_set);
        assert(responded.drop_last() =~= both_set);
        assert(both_set.push(relayed).drop_last() =~= both_set);
        assert(responded.push(relayed).drop_last() =~= responded);
    }
}

/// An address that writes a host and a port is authorized exactly where there is no policy or where
/// a rule has the port and the same address, whatever the rule's limit and count; otherwise it is
/// refused with an error that names the host and the port.
pub proof fn lemma_servers_with_a_rule_are_authorized(
    rules: Option<Seq<RuleView>>,
    addr: Seq<char>,
    host: Seq<char>,
    port: u16,
)
    requires
        writes_host_port(addr, host, port),
    ensures
        rules is None ==> authorization(rules, addr) == Ok::<_, ErrorView>((host, port)),
        rules matches Some(rules) ==> {
            &&& (exists|i: int|
                0 <= i < rules.len() && (#[trigger] rules[i]).port == port && same_address(
                    rules[i].address,
                    host,
                )) ==> authorization(Some(rules), addr) == Ok::<_, ErrorView>((host, port))
            &&& (forall|i: int|
                0 <= i < rules.len() ==> (#[trigger] rules[i]).port != port || !same_address(
                    rules[i].address,
                    host,
                )) ==> authorization(Some(rules), addr) == Err::<(Seq<char>, u16), _>(
                ErrorView {
                    kind: ErrorKind::PermissionDenied,
                    message: "Connection to "@ + host + ":"@ + decimal(port as nat)
                        + " is not allowed by policy"@,
                },
            )
        },
{
    lemma_host_port_notation(addr, host, port);
    match rules {
        Some(rules) => {
            lemma_lookup_is_first(rules, host, port);
            match lookup(rules, host, port) {
                Some(k) => {
                    assert(rule_applies(rules[k], host, port));
                },
                None => {
                    if exists|i: int|
                        0 <= i < rules.len() && (#[trigger] rules[i]).port == port && same_address(
                            rules[i].address,
                            host,
                        ) {
                        let i = choose|i: int|
                            0 <= i < rules.len() && (#[trigger] rules[i]).port == port
                                && same_address(rules[i].address, host);
                        assert(!rule_applies(rules[i], host, port));
                    }
                },
            }
        },
        None => {},
    }
}

/// An address that writes no host and port is refused as such, with or without a policy.
pub proof fn lemma_other_texts_are_refused(rules: Option<Seq<RuleView>>, addr: Seq<char>)
    requires
        forall|host: Seq<char>, port: u16| !#[trigger] writes_host_port(addr, host, port),
    ensures
        authorization(rules, addr) == Err::<(Seq<char>, u16), _>(
            ErrorView {
                kind: ErrorKind::InvalidInput,
                message: "Invalid address format, expected host:port"@,
            },
        ),
{
    match host_port(addr) {
        Some((host, port)) => lemma_host_port_notation(addr, host, port),
        None => {},
    }
}

/// A session begins with resolving the address, where it is authorized, and ends there where that
/// fails. Where it is not authorized, it ends at once with the error.
pub proof fn lemma_first_actions(
    rules: Option<Seq<RuleView>>,
    addr: Seq<char>,
    conproto: bool,
    error: ErrorView,
)
    ensures
        authorization(rules, addr) is Ok ==> {
            &&& setup(rules, addr, conproto, Seq::empty()).1 == ActionView::Resolve(addr)
            &&& setup(rules, addr, conproto, seq![Err(error)]).1 == ActionView::End(
                Err(
                    ErrorView {
                        kind: ErrorKind::InvalidInput,
                        message: "Failed to resolve address: "@ + error.message,
                    },
                ),
            )
        },
        authorization(rules, addr) matches Err(refusal) ==> setup(
            rules,
            addr,
            conproto,
            Seq::empty(),
        ).1 == ActionView::End(Err(refusal)),
{
    let failed = seq![Err::<usize, ErrorView>(error)];
    assert(failed.drop_last() =~= Seq::empty());
    assert(failed.last() == Err::<usize, ErrorView>(error));
    assert(setup(rules, addr, conproto, Seq::empty()) == session_start(rules, addr, conproto));
}

/// After resolving gave so many addresses and the first `failures` of them failed, the next one is
/// connected to, and once all have failed the connection is refused: each is tried once, in order.
pub proof fn lemma_every_address_is_tried_once(
    rules: Option<Seq<RuleView>>,
    addr: Seq<char>,
    conproto: bool,
    addresses: usize,
    failures: Seq<Result<usize, ErrorView>>,
)
    requires
        authorization(rules, addr) is Ok,
        failures.len() <= addresses,
        forall|i: int| 0 <= i < failures.len() ==> #[trigger] failures[i] is Err,
    ensures
        failures.len() < addresses ==> setup(
            rules,
            addr,
            conproto,
            seq![Ok(addresses)] + failures,
        ).1 == ActionView::Connect(failures.len() as usize),
        failures.len() == addresses ==> setup(
            rules,
            addr,
            conproto,
            seq![Ok(addresses)] + failures,
        ).1 == ActionView::End(
            Err(
                ErrorView {
                    kind: ErrorKind::ConnectionRefused,
                    message: "Failed to connect to any resolved address"@,
                },
            ),
        ),
{
    lemma_addresses_are_tried_in_order(rules, addr, conproto, addresses, failures);
}

/// Once an address accepts, the read timeout and then the write timeout are set to 60 seconds, the
/// client is told if it waits for that, and the streams are relayed for the authorized host and
/// port; how the relay went does not matter. Where one of the steps before fails, the session ends
/// with the kind of that error and a text that says which step failed.
pub proof fn lemma_actions_of_an_accepted_connection(
    rules: Option<Seq<RuleView>>,
    addr: Seq<char>,
    conproto: bool,
    addresses: usize,
    failures: Seq<Result<usize, ErrorView>>,
    done: Result<usize, ErrorView>,
    error: ErrorView,
    relayed: Result<usize, ErrorView>,
)
    requires
        failures.len() < addresses,
        forall|i: int| 0 <= i < failures.len() ==> #[trigger] failures[i] is Err,
        done is Ok,
    ensures
        authorization(rules, addr) matches Ok((host, port)) ==> {
            let connected = (seq![Ok(addresses)] + failures).push(done);
            let read_set = connected.push(done);
            let both_set = read_set.push(done);
            let told = both_set.push(done);
            let ready = if conproto {
                told
            } else {
                both_set
            };
            &&& setup(rules, addr, conproto, connected).1 == ActionView::SetReadTimeout(60)
            &&& setup(rules, addr, conproto, connected.push(Err(error))).1 == ActionView::End(
                Err(
                    ErrorView {
                        kind: error.kind,
                        message: "Failed to set TCP read timeout: "@ + error.message,
                    },
                ),
            )
            &&& setup(rules, addr, conproto, read_set).1 == ActionView::SetWriteTimeout(60)
            &&& setup(rules, addr, conproto, read_set.push(Err(error))).1 == ActionView::End(
                Err(
                    ErrorView {
                        kind: error.kind,
                        message: "Failed to set TCP write timeout: "@ + error.message,
                    },
                ),
            )
            &&& conproto ==> setup(rules, addr, conproto, both_set).1 == ActionView::Respond
            &&& conproto ==> setup(rules, addr, conproto, both_set.push(Err(error))).1
                == ActionView::End(Err(error))
            &&& setup(rules, addr, conproto, ready).1 == ActionView::Relay(host, port)
            &&& setup(rules, addr, conproto, ready.push(relayed)).1 == ActionView::End(Ok(()))
        },
{
    if authorization(rules, addr) is Ok {
        let tried = seq![Ok(addresses)] + failures;
        let connected = tried.push(done);
        let read_set = connected.push(done);
        let both_set = read_set.push(done);
        let told = both_set.push(done);
        lemma_addresses_are_tried_in_order(rules, addr, conproto, addresses, failures);
        lemma_only_authorized_servers_are_reached(rules, addr, conproto, tried);
        assert(connected.drop_last() =~= tried);
        assert(connected.push(Err(error)).drop_last() =~= connected);
        assert(read_set.drop_last() =~= connected);
        assert(read_set.push(Err(error)).drop_last() =~= read_set);
        assert(both_set.drop_last() =~= read_set);
        assert(both_set.push(Err(error)).drop_last() =~= both_set);
        assert(told.drop_last() =~= both_set);
        assert(both_set.push(relayed).drop_last() =~= both_set);
        assert(told.push(relayed).drop_last() =~= told);
    }
}

/// A session has ended exactly where its last action was to end, and nothing follows the end.
pub proof fn lemma_nothing_follows_the_end(
    rules: Option<Seq<RuleView>>,
    addr: Seq<char>,
    conproto: bool,
    outcomes: Seq<Result<usize, ErrorView>>,
    next: Result<usize, ErrorView>,
)
    ensures
        setup(rules, addr, conproto, outcomes).0.phase is Ended <==> setup(
            rules,
            addr,
            conproto,
            outcomes,
        ).1 is End,
        setup(rules, addr, conproto, outcomes).1 is End ==> setup(
            rules,
            addr,
            conproto,
            outcomes.push(next),
        ).1 == ActionView::End(Ok(())),
    decreases outcomes.len(),
{
    assert(outcomes.push(next).drop_last() =~= outcomes);
    if outcomes.len() > 0 {
        lemma_nothing_follows_the_end(
            rules,
            addr,
            conproto,
            outcomes.drop_last(),
            outcomes.last(),
        );
    }
}

/// An outcome and an action are seen as what they are.
pub proof fn lemma_session_contents(
    n: usize,
    seconds: u64,
    text: String,
    port: u16,
    error: ProxyError,
)
    ensures
        outcome_view(Ok(n)) == Ok::<usize, ErrorView>(n),
        outcome_view(Err(error)) == Err::<usize, _>(
            ErrorView { kind: error.kind, message: error.message@ },
        ),
        Action::Resolve(text)@ == ActionView::Resolve(text@),
        Action::Connect(n)@ == ActionView::Connect(n),
        Action::SetReadTimeout(seconds)@ == ActionView::SetReadTimeout(seconds),
        Action::SetWriteTimeout(seconds)@ == ActionView::SetWriteTimeout(seconds),
        Action::Respond@ == ActionView::Respond,
        Action::Relay(text, port)@ == ActionView::Relay(text@, port),
        Action::End(Ok(()))@ == ActionView::End(Ok(())),
        Action::End(Err(error))@ == ActionView::End(
            Err(ErrorView { kind: error.kind, message: error.message@ }),
        ),
        TCP_READ_WRITE_TIMEOUT == 60,
{
}

/// In the direction to the server, as long as it has not ended: after a chunk was forwarded the
/// next is read; where the client has closed the stream, the direction ends well and each stream
/// loses the half that it used; where an I/O operation failed, it ends with the error and both
/// streams are shut down altogether.
pub proof fn lemma_outbound_goes_on(
    state: OutboundState,
    host: Seq<char>,
    port: u16,
    error: ProxyError,
)
    requires
        !state.ended,
    ensures
        outbound_step(state, host, port, RelayEvent::Forwarded) == (state, RelayActionView::Read),
        outbound_step(state, host, port, RelayEvent::Read(0)) == (
            OutboundState { rules: state.rules, bytes: state.bytes, ended: true },
            RelayActionView::Close {
                source: ShutdownMode::Read,
                destination: ShutdownMode::Write,
                result: Ok(()),
            },
        ),
        outbound_step(state, host, port, RelayEvent::Failed(error)) == (
            OutboundState { rules: state.rules, bytes: state.bytes, ended: true },
            RelayActionView::Close {
                source: ShutdownMode::Both,
                destination: ShutdownMode::Both,
                result: Err(ErrorView { kind: error.kind, message: error.message@ }),
            },
        ),
{
}

/// In the direction to the server, as long as it has not ended: without a policy every chunk is
/// forwarded whole and counted on the connection. Under a policy a chunk is forwarded whole exactly
/// where it is counted on the server's rule; where that is refused, the direction ends with the
/// error and both streams are shut down altogether.
pub proof fn lemma_outbound_chunk(state: OutboundState, host: Seq<char>, port: u16, n: usize)
    requires
        !state.ended,
        n > 0,
    ensures
        ({
            let (after, action) = outbound_step(state, host, port, RelayEvent::Read(n));
            match state.rules {
                None => {
                    &&& action == RelayActionView::Forward(n)
                    &&& after.rules is None && !after.ended
                    &&& after.bytes == (state.bytes + n) % 0x1_0000_0000_0000_0000
                },
                Some(rules) => {
                    &&& after.rules == Some(charge(rules, host, port, n as u64).0)
                    &&& after.bytes == state.bytes
                    &&& match charge(rules, host, port, n as u64).1 {
                        Ok(_) => action == RelayActionView::Forward(n) && !after.ended,
                        Err(error) => action == (RelayActionView::Close {
                            source: ShutdownMode::Both,
                            destination: ShutdownMode::Both,
                            result: Err(error),
                        }) && after.ended,
                    }
                },
            }
        }),
{
}

/// In the direction to the client, as long as it has not ended: every chunk is forwarded whole and
/// counted, and after it was forwarded the next is read. Where the server has closed the stream or
/// an I/O operation failed, the direction ends, and each stream loses the half that it used.
pub proof fn lemma_inbound_goes_on(state: InboundState, n: usize, error: ProxyError)
    requires
        !state.ended,
        n > 0,
    ensures
        inbound_step(state, RelayEvent::Forwarded) == (state, RelayActionView::Read),
        inbound_step(state, RelayEvent::Read(n)).1 == RelayActionView::Forward(n),
        !inbound_step(state, RelayEvent::Read(n)).0.ended,
        inbound_step(state, RelayEvent::Read(n)).0.bytes == (state.bytes + n)
            % 0x1_0000_0000_0000_0000,
        inbound_step(state, RelayEvent::Read(0)) == (
            InboundState { bytes: state.bytes, ended: true },
            RelayActionView::Close {
                source: ShutdownMode::Read,
                destination: ShutdownMode::Write,
                result: Ok(()),
            },
        ),
        inbound_step(state, RelayEvent::Failed(error)) == (
            InboundState { bytes: state.bytes, ended: true },
            RelayActionView::Close {
                source: ShutdownMode::Read,
                destination: ShutdownMode::Write,
                result: Err(ErrorView { kind: error.kind, message: error.message@ }),
            },
        ),
{
}

/// There is nothing to do exactly where a direction has ended before, and then nothing changes.
pub proof fn lemma_done_means_ended(
    outbound: OutboundState,
    inbound: InboundState,
    host: Seq<char>,
    port: u16,
    event: RelayEvent,
)
    ensures
        outbound_step(outbound, host, port, event).1 is Done <==> outbound.ended,
        outbound.ended ==> outbound_step(outbound, host, port, event).0 == outbound,
        inbound_step(inbound, event).1 is Done <==> inbound.ended,
        inbound.ended ==> inbound_step(inbound, event).0 == inbound,
{
}

/// What comes of a direction to the server whose driver does what each action says, for at most so
/// many steps, where the client sends chunks of these sizes and closes the stream, and no I/O
/// operation fails: the chunks forwarded, and the last action.
pub open spec fn drive_outbound(
    state: OutboundState,
    host: Seq<char>,
    port: u16,
    action: RelayActionView,
    chunks: Seq<usize>,
    steps: nat,
) -> (Seq<usize>, RelayActionView)
    decreases steps,
{
    if steps == 0 {
        (Seq::empty(), action)
    } else {
        match action {
            RelayActionView::Read => if chunks.len() == 0 {
                let (after, next) = outbound_step(state, host, port, RelayEvent::Read(0));
                drive_outbound(after, host, port, next, chunks, (steps - 1) as nat)
            } else {
                let (after, next) = outbound_step(state, host, port, RelayEvent::Read(chunks[0]));
                drive_outbound(after, host, port, next, chunks.drop_first(), (steps - 1) as nat)
            },
            RelayActionView::Forward(n) => {
                let (after, next) = outbound_step(state, host, port, RelayEvent::Forwarded);
                let (more, last) = drive_outbound(
                    after,
                    host,
                    port,
                    next,
                    chunks,
                    (steps - 1) as nat,
                );
                (seq![n] + more, last)
            },
            _ => (Seq::empty(), action),
        }
    }
}

/// Without a policy, all that a client sends is forwarded to the server before the direction ends
/// well.
pub proof fn lemma_all_that_is_sent_reaches_the_server(
    bytes: u64,
    host: Seq<char>,
    port: u16,
    chunks: Seq<usize>,
    steps: nat,
)
    requires
        forall|i: int| 0 <= i < chunks.len() ==> #[trigger] chunks[i] > 0,
        steps > 2 * chunks.len(),
    ensures
        drive_outbound(
            OutboundState { rules: None, bytes, ended: false },
            host,
            port,
            RelayActionView::Read,
            chunks,
            steps,
        ) == (
            chunks,
            RelayActionView::Close {
                source: ShutdownMode::Read,
                destination: ShutdownMode::Write,
                result: Ok(()),
            },
        ),
    decreases chunks.len(),
{
    reveal_with_fuel(drive_outbound, 3);
    let state = OutboundState { rules: None, bytes, ended: false };
    if chunks.len() == 0 {
        assert(chunks =~= Seq::empty());
    } else {
        let rest = chunks.drop_first();
        assert(chunks[0] > 0);
        assert forall|i: int| 0 <= i < rest.len() implies #[trigger] rest[i] > 0 by {
            assert(chunks[i + 1] > 0);
        }
        let after = outbound_step(state, host, port, RelayEvent::Read(chunks[0])).0;
        lemma_all_that_is_sent_reaches_the_server(
            after.bytes,
            host,
            port,
            rest,
            (steps - 2) as nat,
        );
        assert(seq![chunks[0]] + rest =~= chunks);
    }
}

proof fn lemma_total_of_first(first: usize, rest: Seq<usize>)
    ensures
        total(seq![first] + rest) == first + total(rest),
    decreases rest.len(),
{
    let whole = seq![first] + rest;
    if rest.len() == 0 {
        assert(whole =~= seq![first]);
        assert(whole.drop_last() =~= Seq::empty());
        assert(total(Seq::<usize>::empty()) == 0);
    } else {
        assert(whole.drop_last() =~= seq![first] + rest.drop_last());
        lemma_total_of_first(first, rest.drop_last());
    }
}

/// A chunk that is forwarded takes two steps of the driver, and one that is refused is the last.
proof fn lemma_drive_chunk(
    rules: Seq<RuleView>,
    bytes: u64,
    host: Seq<char>,
    port: u16,
    chunks: Seq<usize>,
    steps: nat,
)
    requires
        chunks.len() > 0,
        chunks[0] > 0,
        steps > 2,
    ensures
        ({
            let start = OutboundState { rules: Some(rules), bytes, ended: false };
            let (after, result) = charge(rules, host, port, chunks[0] as u64);
            drive_outbound(start, host, port, RelayActionView::Read, chunks, steps) == (match result {
                Ok(_) => {
                    let (more, last) = drive_outbound(
                        OutboundState { rules: Some(after), bytes, ended: false },
                        host,
                        port,
                        RelayActionView::Read,
                        chunks.drop_first(),
                        (steps - 2) as nat,
                    );
                    (seq![chunks[0]] + more, last)
                },
                Err(error) => (
                    Seq::empty(),
                    RelayActionView::Close {
                        source: ShutdownMode::Both,
                        destination: ShutdownMode::Both,
                        result: Err(error),
                    },
                ),
            })
        }),
{
    reveal_with_fuel(drive_outbound, 3);
}

/// Under a policy, the chunks that a client sends are forwarded to the server as long as they fit
/// in what is left of the limit. The direction ends well where all do, and with the policy's error
/// at the first that does not.
pub proof fn lemma_what_fits_reaches_the_server(
    rules: Seq<RuleView>,
    bytes: u64,
    host: Seq<char>,
    port: u16,
    chunks: Seq<usize>,
    steps: nat,
    i: int,
)
    requires
        lookup(rules, host, port) == Some(i),
        rules[i].used <= rules[i].limit,
        forall|k: int| 0 <= k < chunks.len() ==> #[trigger] chunks[k] > 0,
        steps > 2 * chunks.len(),
    ensures
        ({
            let (sent, last) = drive_outbound(
                OutboundState { rules: Some(rules), bytes, ended: false },
                host,
                port,
                RelayActionView::Read,
                chunks,
                steps,
            );
            &&& sent.len() <= chunks.len()
            &&& sent == chunks.take(sent.len() as int)
            &&& rules[i].used + total(sent) <= rules[i].limit
            &&& sent.len() < chunks.len() ==> rules[i].used + total(
                chunks.take(sent.len() as int + 1),
            ) > rules[i].limit
            &&& sent.len() == chunks.len() ==> last == (RelayActionView::Close {
                source: ShutdownMode::Read,
                destination: ShutdownMode::Write,
                result: Ok(()),
            })
            &&& sent.len() < chunks.len() ==> match last {
                RelayActionView::Close { source, destination, result } => source
                    == ShutdownMode::Both && destination == ShutdownMode::Both && (
                result matches Err(error) && error.kind == ErrorKind::Other),
                _ => false,
            }
        }),
    decreases chunks.len(),
{
    lemma_lookup_is_first(rules, host, port);
    assert(chunks.take(0) =~= Seq::empty());
    assert(total(Seq::<usize>::empty()) == 0);
    if chunks.len() == 0 {
        reveal_with_fuel(drive_outbound, 3);
        assert(chunks =~= Seq::empty());
    } else {
        let first = chunks[0];
        let rest = chunks.drop_first();
        assert(chunks[0] > 0);
        assert forall|k: int| 0 <= k < rest.len() implies #[trigger] rest[k] > 0 by {
            assert(chunks[k + 1] > 0);
        }
        lemma_drive_chunk(rules, bytes, host, port, chunks, steps);
        if rules[i].used + first <= rules[i].limit {
            let counted = charge(rules, host, port, first as u64).0;
            lemma_lookup_by_addresses(counted, rules, host, port);
            lemma_what_fits_reaches_the_server(
                counted,
                bytes,
                host,
                port,
                rest,
                (steps - 2) as nat,
                i,
            );
            let more = drive_outbound(
                OutboundState { rules: Some(counted), bytes, ended: false },
                host,
                port,
                RelayActionView::Read,
                rest,
                (steps - 2) as nat,
            ).0;
            let m = more.len() as int;
            assert(chunks.take(m + 1) =~= seq![first] + rest.take(m));
            lemma_total_of_first(first, rest.take(m));
            if m < rest.len() {
                assert(chunks.take(m + 2) =~= seq![first] + rest.take(m + 1));
                lemma_total_of_first(first, rest.take(m + 1));
            }
        } else {
            assert(chunks.take(1) =~= seq![first] + Seq::<usize>::empty());
            lemma_total_of_first(first, Seq::empty());
        }
    }
}

/// What comes of a direction to the client whose driver does what each action says, for at most so
/// many steps, where the server sends chunks of these sizes and closes the stream, and no I/O
/// operation fails: the chunks forwarded, and the last action.
pub open spec fn drive_inbound(
    state: InboundState,
    action: RelayActionView,
    chunks: Seq<usize>,
    steps: nat,
) -> (Seq<usize>, RelayActionView)
    decreases steps,
{
    if steps == 0 {
        (Seq::empty(), action)
    } else {
        match action {
            RelayActionView::Read => if chunks.len() == 0 {
                let (after, next) = inbound_step(state, RelayEvent::Read(0));
                drive_inbound(after, next, chunks, (steps - 1) as nat)
            } else {
                let (after, next) = inbound_step(state, RelayEvent::Read(chunks[0]));
                drive_inbound(after, next, chunks.drop_first(), (steps - 1) as nat)
            },
            RelayActionView::Forward(n) => {
                let (after, next) = inbound_step(state, RelayEvent::Forwarded);
                let (more, last) = drive_inbound(after, next, chunks, (steps - 1) as nat);
                (seq![n] + more, last)
            },
            _ => (Seq::empty(), action),
        }
    }
}

/// All that a server sends is forwarded to the client before the direction ends well.
pub proof fn lemma_all_that_is_sent_reaches_the_client(
    bytes: u64,
    chunks: Seq<usize>,
    steps: nat,
)
    requires
        forall|i: int| 0 <= i < chunks.len() ==> #[trigger] chunks[i] > 0,
        steps > 2 * chunks.len(),
    ensures
        drive_inbound(
            InboundState { bytes, ended: false },
            RelayActionView::Read,
            chunks,
            steps,
        ) == (
            chunks,
            RelayActionView::Close {
                source: ShutdownMode::Read,
                destination: ShutdownMode::Write,
                result: Ok(()),
            },
        ),
    decreases chunks.len(),
{
    reveal_with_fuel(drive_inbound, 3);
    let state = InboundState { bytes, ended: false };
    if chunks.len() == 0 {
        assert(chunks =~= Seq::empty());
    } else {
        let rest = chunks.drop_first();
        assert(chunks[0] > 0);
        assert forall|i: int| 0 <= i < rest.len() implies #[trigger] rest[i] > 0 by {
            assert(chunks[i + 1] > 0);
        }
        let after = inbound_step(state, RelayEvent::Read(chunks[0])).0;
        lemma_all_that_is_sent_reaches_the_client(after.bytes, rest, (steps - 2) as nat);
        assert(seq![chunks[0]] + rest =~= chunks);
    }
}

/// An action of the relay is seen as what it is.
pub proof fn lemma_relay_contents(
    n: usize,
    source: ShutdownMode,
    destination: ShutdownMode,
    error: ProxyError,
)
    ensures
        RelayAction::Read@ == RelayActionView::Read,
        RelayAction::Forward(n)@ == RelayActionView::Forward(n),
        RelayAction::Done@ == RelayActionView::Done,
        (RelayAction::Close { source, destination, result: Ok(()) })@ == (RelayActionView::Close {
            source,
            destination,
            result: Ok(()),
        }),
        (RelayAction::Close { source, destination, result: Err(error) })@ == (
        RelayActionView::Close {
            source,
            destination,
            result: Err(ErrorView { kind: error.kind, message: error.message@ }),
        }),
        BUFFER_SIZE == 65536,
{
}

/// The report on the end of a direction names the direction and the error. An end without an error
/// has none, nor has one by a broken pipe, a connection that was reset or aborted, or an unexpected
/// end of file; every other has one, and so has a panic.
pub proof fn lemma_end_reports(error: ErrorView)
    ensures
        expected_close(error.kind) <==> (error.kind is BrokenPipe || error.kind is ConnectionReset
            || error.kind is ConnectionAborted || error.kind is UnexpectedEof),
        end_report(Direction::Inbound, Some(Ok(()))) == None::<Seq<char>>,
        end_report(Direction::Outbound, Some(Ok(()))) == None::<Seq<char>>,
        end_report(Direction::Inbound, Some(Err(error))) == (if error.kind is BrokenPipe
            || error.kind is ConnectionReset || error.kind is ConnectionAborted
            || error.kind is UnexpectedEof {
            None
        } else {
            Some("VSOCK <- TCP"@ + " thread error: "@ + error.message)
        }),
        end_report(Direction::Outbound, Some(Err(error))) == (if error.kind is BrokenPipe
            || error.kind is ConnectionReset || error.kind is ConnectionAborted
            || error.kind is UnexpectedEof {
            None
        } else {
            Some("VSOCK -> TCP"@ + " thread error: "@ + error.message)
        }),
        end_report(Direction::Inbound, None) == Some("VSOCK <- TCP"@ + " thread panicked"@),
        end_report(Direction::Outbound, None) == Some("VSOCK -> TCP"@ + " thread panicked"@),
{
}

/// The report on a connection that is complete gives the bytes sent and the bytes received in
/// decimal notation. Under a policy the bytes sent are those counted for the server, and are left
/// out where it has no rule; elsewhere they are those of the connection.
pub proof fn lemma_completion_reports(
    rules: Seq<RuleView>,
    host: Seq<char>,
    port: u16,
    relayed: u64,
    sent: u64,
    received: u64,
)
    ensures
        sent_bytes(None, host, port, relayed) == Some(relayed),
        sent_bytes(Some(rules), host, port, relayed) == used_of(rules, host, port),
        completion_lines(Some(sent), received) == seq![
            "Connection complete"@,
            "  "@ + "TX"@ + ": "@ + decimal(sent as nat) + " bytes"@,
            "  "@ + "RX"@ + ": "@ + decimal(received as nat) + " bytes"@,
        ],
        completion_lines(None, received) == seq![
            "Connection complete"@,
            "  "@ + "RX"@ + ": "@ + decimal(received as nat) + " bytes"@,
        ],
{
}

/// A stream that could not be cloned is named in the error, which keeps the kind of the cause.
pub proof fn lemma_clone_failures(cause: ErrorView, what: Seq<char>)
    ensures
        clone_failure(cause, what).kind == cause.kind,
        clone_failure(cause, what).message == "Failed to clone "@ + what + " stream"@,
{
}

} // verus!
