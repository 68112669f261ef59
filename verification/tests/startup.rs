use provisioning_proxy::cid::VsockCid;
use provisioning_proxy::conproto::ProxyRequest;
use provisioning_proxy::error::{ErrorKind, ProxyError};
use provisioning_proxy::startup::{
    bind_error, default_log_filter, policy_load_error, server_address, DEFAULT_PORT,
    DEFAULT_TIMEOUT_SECS,
};

#[test]
fn contexts_have_their_numbers() {
    assert_eq!(u32::from(VsockCid::Any), 0);
    assert_eq!(u32::from(VsockCid::Local), 1);
    assert_eq!(u32::from(VsockCid::Host), 2);
    assert_eq!(VsockCid::Any.describe(), "any (CID=0)");
    assert_eq!(VsockCid::Local.describe(), "local (CID=1)");
    assert_eq!(VsockCid::Host.describe(), "host (CID=2)");
}

#[test]
fn the_environment_decides_on_the_log_unless_it_is_verbose() {
    assert_eq!(default_log_filter(false, true), None);
    assert_eq!(default_log_filter(false, false), Some("info".to_string()));
    assert_eq!(default_log_filter(true, false), Some("debug".to_string()));
    assert_eq!(default_log_filter(true, true), Some("debug".to_string()));
}

#[test]
fn a_start_that_fails_says_why() {
    let error = policy_load_error("p.json", "gone");
    assert_eq!(error.kind(), ErrorKind::InvalidData);
    assert_eq!(error.message, "Failed to load policy file 'p.json': gone");
    let error = bind_error(&ProxyError::new(ErrorKind::AddrInUse, "in use".to_string()));
    assert_eq!(error.kind(), ErrorKind::AddrInUse);
    assert_eq!(error.message, "Failed to bind vsock: in use");
}

#[test]
fn a_request_names_the_server() {
    let request =
        ProxyRequest { command: "CONNECT".to_string(), server_addr: "h:1".to_string() };
    assert_eq!(server_address(Some(request), "127.0.0.1:1337"), "h:1");
    assert_eq!(server_address(None, "127.0.0.1:1337"), "127.0.0.1:1337");
    assert_eq!(DEFAULT_PORT, 1337);
    assert_eq!(DEFAULT_TIMEOUT_SECS, 60);
}
