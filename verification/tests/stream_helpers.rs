use provisioning_proxy::error::{ErrorKind, ProxyError};
use provisioning_proxy::policy::{PolicyManager, RuleEntry};
use provisioning_proxy::stream_helpers::{
    clone_error, completion_report, is_expected_close_error, thread_report, Direction, Inbound, Outbound,
    RelayAction, RelayEvent, ShutdownMode,
};

fn manager(limit: u64) -> PolicyManager {
    let mut manager = PolicyManager::new();
    let entry =
        RuleEntry { address: "example.com".to_string(), port: 443, tx_bytes_limit: limit };
    manager.load_from_file("p.json", Ok(vec![entry])).unwrap();
    manager
}

fn error(kind: ErrorKind) -> ProxyError {
    ProxyError::new(kind, "e".to_string())
}

fn close_of(action: RelayAction) -> (ShutdownMode, ShutdownMode, Result<(), ErrorKind>) {
    match action {
        RelayAction::Close { source, destination, result } => {
            (source, destination, result.map_err(|error| error.kind()))
        }
        _ => panic!("no close"),
    }
}

#[test]
fn bytes_are_forwarded_once_they_are_counted() {
    let mut manager = manager(10);
    let mut outbound = Outbound::new("EXAMPLE.com".to_string(), 443);
    let action = outbound.step(RelayEvent::Read(6), Some(&mut manager));
    assert!(matches!(action, RelayAction::Forward(6)));
    assert_eq!(manager.tx_bytes_used("example.com", 443), Some(6));
    let action = outbound.step(RelayEvent::Forwarded, Some(&mut manager));
    assert!(matches!(action, RelayAction::Read));

    // Five more would be too many: nothing is forwarded and both streams are shut down.
    let action = outbound.step(RelayEvent::Read(5), Some(&mut manager));
    assert_eq!(
        close_of(action),
        (ShutdownMode::Both, ShutdownMode::Both, Err(ErrorKind::Other))
    );
    assert_eq!(manager.tx_bytes_used("example.com", 443), Some(6));
    assert_eq!(outbound.bytes(), 0);

    // Nor is a smaller chunk behind them, though it would fit.
    let action = outbound.step(RelayEvent::Read(4), Some(&mut manager));
    assert!(matches!(action, RelayAction::Done));
    assert_eq!(manager.tx_bytes_used("example.com", 443), Some(6));
}

#[test]
fn the_longest_prefix_that_fits_is_forwarded() {
    for (limit, expected) in [(0, 0), (3, 3), (6, 3), (7, 7), (12, 7), (13, 13), (99, 14)] {
        let mut manager = manager(limit);
        let mut outbound = Outbound::new("example.com".to_string(), 443);
        let mut sent = 0;
        for chunk in [3, 4, 6, 1] {
            match outbound.step(RelayEvent::Read(chunk), Some(&mut manager)) {
                RelayAction::Forward(n) => sent += n,
                _ => continue,
            }
            outbound.step(RelayEvent::Forwarded, Some(&mut manager));
        }
        assert_eq!(sent, expected);
        assert_eq!(manager.tx_bytes_used("example.com", 443), Some(expected as u64));
    }
}

#[test]
fn nothing_is_forwarded_to_a_server_without_a_rule() {
    let mut manager = manager(10);
    let mut outbound = Outbound::new("example.org".to_string(), 443);
    let action = outbound.step(RelayEvent::Read(1), Some(&mut manager));
    assert_eq!(
        close_of(action),
        (ShutdownMode::Both, ShutdownMode::Both, Err(ErrorKind::PermissionDenied))
    );
}

#[test]
fn without_a_policy_bytes_are_counted_per_connection() {
    let mut outbound = Outbound::new("example.com".to_string(), 443);
    assert!(matches!(outbound.step(RelayEvent::Read(3), None), RelayAction::Forward(3)));
    assert!(matches!(outbound.step(RelayEvent::Read(4), None), RelayAction::Forward(4)));
    assert_eq!(outbound.bytes(), 7);
    let action = outbound.step(RelayEvent::Failed(error(ErrorKind::BrokenPipe)), None);
    assert_eq!(
        close_of(action),
        (ShutdownMode::Both, ShutdownMode::Both, Err(ErrorKind::BrokenPipe))
    );
    assert!(matches!(outbound.step(RelayEvent::Read(5), None), RelayAction::Done));
    assert_eq!(outbound.bytes(), 7);

    let mut outbound = Outbound::new("example.com".to_string(), 443);
    let action = outbound.step(RelayEvent::Read(0), None);
    assert_eq!(close_of(action), (ShutdownMode::Read, ShutdownMode::Write, Ok(())));
}

#[test]
fn the_direction_to_the_client_counts_what_it_reads() {
    let mut inbound = Inbound::new();
    assert!(matches!(inbound.step(RelayEvent::Read(65536)), RelayAction::Forward(65536)));
    assert!(matches!(inbound.step(RelayEvent::Forwarded), RelayAction::Read));
    assert!(matches!(inbound.step(RelayEvent::Read(1)), RelayAction::Forward(1)));
    assert_eq!(inbound.bytes(), 65537);
    let action = inbound.step(RelayEvent::Read(0));
    assert_eq!(close_of(action), (ShutdownMode::Read, ShutdownMode::Write, Ok(())));
    assert!(matches!(inbound.step(RelayEvent::Read(1)), RelayAction::Done));
    assert_eq!(inbound.bytes(), 65537);

    let mut inbound = Inbound::new();
    let action = inbound.step(RelayEvent::Failed(error(ErrorKind::Other)));
    assert_eq!(
        close_of(action),
        (ShutdownMode::Read, ShutdownMode::Write, Err(ErrorKind::Other))
    );
}

#[test]
fn four_kinds_of_errors_are_expected_at_the_end() {
    assert!(is_expected_close_error(ErrorKind::BrokenPipe));
    assert!(is_expected_close_error(ErrorKind::ConnectionReset));
    assert!(is_expected_close_error(ErrorKind::ConnectionAborted));
    assert!(is_expected_close_error(ErrorKind::UnexpectedEof));
    assert!(!is_expected_close_error(ErrorKind::ConnectionRefused));
    assert!(!is_expected_close_error(ErrorKind::PermissionDenied));
    assert!(!is_expected_close_error(ErrorKind::Other));
}

#[test]
fn unexpected_ends_are_reported() {
    assert_eq!(thread_report(Direction::Inbound, Some(Ok(()))), None);
    assert_eq!(
        thread_report(Direction::Inbound, Some(Err(error(ErrorKind::ConnectionReset)))),
        None
    );
    assert_eq!(
        thread_report(Direction::Inbound, Some(Err(error(ErrorKind::Other)))),
        Some("VSOCK <- TCP thread error: e".to_string())
    );
    assert_eq!(
        thread_report(Direction::Outbound, Some(Err(error(ErrorKind::PermissionDenied)))),
        Some("VSOCK -> TCP thread error: e".to_string())
    );
    assert_eq!(
        thread_report(Direction::Outbound, None),
        Some("VSOCK -> TCP thread panicked".to_string())
    );
}

#[test]
fn a_complete_connection_is_reported() {
    let mut inbound = Inbound::new();
    inbound.step(RelayEvent::Read(20));
    let mut outbound = Outbound::new("example.com".to_string(), 443);
    outbound.step(RelayEvent::Read(5), None);
    assert_eq!(
        completion_report(None, &outbound, &inbound),
        vec!["Connection complete", "  TX: 5 bytes", "  RX: 20 bytes"]
    );

    let mut manager = manager(100);
    manager.check_and_add_tx_bytes("example.com", 443, 42).unwrap();
    assert_eq!(
        completion_report(Some(&manager), &outbound, &inbound),
        vec!["Connection complete", "  TX: 42 bytes", "  RX: 20 bytes"]
    );
    let other = Outbound::new("example.org".to_string(), 443);
    assert_eq!(
        completion_report(Some(&manager), &other, &inbound),
        vec!["Connection complete", "  RX: 20 bytes"]
    );
}

#[test]
fn a_stream_that_cannot_be_cloned_says_which() {
    for kind in [ErrorKind::OutOfMemory, ErrorKind::Uncategorized] {
        let raised = clone_error(&error(kind), "TCP reader");
        assert_eq!(raised.kind(), kind);
        assert_eq!(raised.message, "Failed to clone TCP reader stream");
    }
}
