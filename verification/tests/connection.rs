use provisioning_proxy::connection::{authorize, parse_server_addr, Action, Session};
use provisioning_proxy::error::{ErrorKind, ProxyError};
use provisioning_proxy::policy::{PolicyManager, RuleEntry};

fn manager(address: &str, port: u16) -> PolicyManager {
    let mut manager = PolicyManager::new();
    let entry = RuleEntry { address: address.to_string(), port, tx_bytes_limit: 10 };
    manager.load_from_file("p.json", Ok(vec![entry])).unwrap();
    manager
}

#[test]
fn addresses_are_split_at_the_last_colon() {
    assert_eq!(parse_server_addr("example.com:443").unwrap(), ("example.com", 443));
    assert_eq!(parse_server_addr("[::1]:443").unwrap(), ("::1", 443));
    assert_eq!(parse_server_addr("::1:443").unwrap(), ("::1", 443));
    assert_eq!(parse_server_addr("[[a]]:1").unwrap(), ("a", 1));
    assert_eq!(parse_server_addr("]a[:1").unwrap(), ("]a[", 1));
    assert_eq!(parse_server_addr("[]:1").unwrap(), ("", 1));
    assert_eq!(parse_server_addr(":0").unwrap(), ("", 0));
    assert_eq!(parse_server_addr("h:65535").unwrap(), ("h", 65535));
    assert_eq!(parse_server_addr("h:+80").unwrap(), ("h", 80));
    assert_eq!(parse_server_addr("h:000000080").unwrap(), ("h", 80));
    assert_eq!(parse_server_addr("h\u{e9}:80").unwrap(), ("h\u{e9}", 80));
}

#[test]
fn other_texts_are_no_addresses() {
    for bad in ["", "example.com", "h:", "h:+", "h:++1", "h:-1", "h:65536", "h:99999999999999999999",
        "h: 80", "h:80 ", "h:8a", "[::1]", "h:\u{0661}"] {
        let error = parse_server_addr(bad).unwrap_err();
        assert_eq!(error.kind(), ErrorKind::InvalidInput);
        assert_eq!(error.message, "Invalid address format, expected host:port");
    }
}

#[test]
fn the_policy_decides_on_the_host_without_brackets() {
    let manager = manager("::1", 443);
    assert_eq!(authorize(Some(&manager), "[0:0:0:0:0:0:0:1]:443").unwrap(), ("0:0:0:0:0:0:0:1", 443));
    let error = authorize(Some(&manager), "[::1]:80").unwrap_err();
    assert_eq!(error.kind(), ErrorKind::PermissionDenied);
    assert_eq!(error.message, "Connection to ::1:80 is not allowed by policy");
    assert_eq!(authorize(Some(&manager), "::1").unwrap_err().kind(), ErrorKind::PermissionDenied);
    assert_eq!(authorize(Some(&manager), "h").unwrap_err().kind(), ErrorKind::InvalidInput);
}

#[test]
fn without_a_policy_every_server_is_authorized() {
    assert_eq!(authorize(None, "example.com:443").unwrap(), ("example.com", 443));
    assert_eq!(authorize(None, "example.com").unwrap_err().kind(), ErrorKind::InvalidInput);
}

fn failure(kind: ErrorKind, text: &str) -> ProxyError {
    ProxyError::new(kind, text.to_string())
}

/// A session without a policy whose address was resolved to so many.
fn resolved(addr: &str, conproto: bool, addresses: usize) -> (Session, Action) {
    let (mut session, action) = Session::start(None, addr, conproto);
    assert!(matches!(action, Action::Resolve(resolved) if resolved == addr));
    let action = session.step(Ok(addresses));
    (session, action)
}

#[test]
fn the_first_address_that_accepts_is_relayed() {
    let (mut session, action) = resolved("[::1]:443", true, 3);
    assert!(matches!(action, Action::Connect(0)));
    let refused = failure(ErrorKind::ConnectionRefused, "refused");
    assert!(matches!(session.step(Err(refused)), Action::Connect(1)));
    assert!(matches!(session.step(Ok(3)), Action::SetReadTimeout(60)));
    assert!(matches!(session.step(Ok(0)), Action::SetWriteTimeout(60)));
    assert!(matches!(session.step(Ok(3)), Action::Respond));
    assert!(matches!(session.step(Ok(3)), Action::Relay(host, 443) if host == "::1"));
    assert!(!session.ended());
    let broken = failure(ErrorKind::BrokenPipe, "broken");
    assert!(matches!(session.step(Err(broken)), Action::End(Ok(()))));
    assert!(session.ended());
}

#[test]
fn a_client_that_waits_for_no_response_gets_none() {
    let (mut session, _) = resolved("example.com:80", false, 1);
    session.step(Ok(1));
    session.step(Ok(1));
    assert!(matches!(session.step(Ok(1)), Action::Relay(host, 80) if host == "example.com"));
    assert!(matches!(session.step(Ok(1)), Action::End(Ok(()))));
    assert!(matches!(session.step(Ok(1)), Action::End(Ok(()))));
    assert!(session.ended());
}

fn end_of(action: Action) -> (ErrorKind, String) {
    match action {
        Action::End(Err(error)) => (error.kind(), error.message),
        _ => panic!("no end with an error"),
    }
}

#[test]
fn a_session_begins_with_the_policy() {
    let manager = manager("example.com", 443);
    let (mut session, action) = Session::start(Some(&manager), "example.com:80", true);
    assert_eq!(
        end_of(action),
        (
            ErrorKind::PermissionDenied,
            "Connection to example.com:80 is not allowed by policy".to_string()
        )
    );
    assert!(session.ended());
    // Nothing is reached afterwards.
    for _ in 0..6 {
        assert!(matches!(session.step(Ok(2)), Action::End(Ok(()))));
    }

    let (_, action) = Session::start(Some(&manager), "example.com", true);
    assert_eq!(
        end_of(action),
        (ErrorKind::InvalidInput, "Invalid address format, expected host:port".to_string())
    );

    let (mut session, action) = Session::start(Some(&manager), "EXAMPLE.com:443", false);
    assert!(matches!(action, Action::Resolve(addr) if addr == "EXAMPLE.com:443"));
    assert!(matches!(session.step(Ok(1)), Action::Connect(0)));
    session.step(Ok(1));
    session.step(Ok(1));
    assert!(matches!(session.step(Ok(1)), Action::Relay(host, 443) if host == "EXAMPLE.com"));
}

#[test]
fn a_server_that_no_address_accepts_for_is_refused() {
    let refused = (
        ErrorKind::ConnectionRefused,
        "Failed to connect to any resolved address".to_string(),
    );
    let (session, action) = resolved("h:1", true, 0);
    assert!(session.ended());
    assert_eq!(end_of(action), refused);

    let (mut session, _) = resolved("h:1", true, 2);
    let late = failure(ErrorKind::TimedOut, "a");
    assert!(matches!(session.step(Err(late)), Action::Connect(1)));
    assert_eq!(end_of(session.step(Err(failure(ErrorKind::TimedOut, "b")))), refused);
    assert!(session.ended());
}

#[test]
fn a_setup_that_fails_says_where() {
    let (mut session, _) = Session::start(None, "h:1", true);
    let action = session.step(Err(failure(ErrorKind::Uncategorized, "no such host")));
    assert!(session.ended());
    assert_eq!(
        end_of(action),
        (ErrorKind::InvalidInput, "Failed to resolve address: no such host".to_string())
    );

    for (steps, message) in [
        (1, "Failed to set TCP read timeout: e"),
        (2, "Failed to set TCP write timeout: e"),
        (3, "e"),
    ] {
        for kind in [ErrorKind::NotConnected, ErrorKind::BrokenPipe, ErrorKind::Uncategorized] {
            let (mut session, _) = resolved("h:1", true, 1);
            for _ in 0..steps {
                session.step(Ok(1));
            }
            let action = session.step(Err(failure(kind, "e")));
            assert_eq!(end_of(action), (kind, message.to_string()));
            assert!(session.ended());
        }
    }
}

#[test]
fn an_authorized_server_has_a_rule_to_count_on() {
    let mut manager = manager("example.com", 443);
    let (host, port) = authorize(Some(&manager), "EXAMPLE.com:443").unwrap();
    assert!(manager.check_and_add_tx_bytes(host, port, 10).is_ok());
    let error = manager.check_and_add_tx_bytes(host, port, 1).unwrap_err();
    assert_eq!(error.kind(), ErrorKind::Other);
}
