use provisioning_proxy::error::ErrorKind;
use provisioning_proxy::policy::{PolicyFileError, PolicyManager, RuleEntry};

fn entry(address: &str, port: u16, tx_bytes_limit: u64) -> RuleEntry {
    RuleEntry { address: address.to_string(), port, tx_bytes_limit }
}

#[test]
fn test_load_from_file() {
    let mut manager = PolicyManager::new();

    let content = vec![
        entry("example.com", 443, 1024),
        entry("192.168.1.1", 8080, 2048),
    ];

    assert!(manager.load_from_file("/tmp/test_policy.json", Ok(content)).is_ok());
}

#[test]
fn test_is_allowed() {
    let mut manager = PolicyManager::new();
    manager
        .load_from_file("/tmp/test_policy2.json", Ok(vec![entry("example.com", 443, 1024)]))
        .unwrap();

    assert!(manager.is_allowed("example.com", 443));
    assert!(!manager.is_allowed("example.com", 80));
    assert!(!manager.is_allowed("other.com", 443));
}

#[test]
fn test_tx_bytes_limit() {
    let mut manager = PolicyManager::new();
    manager
        .load_from_file("/tmp/test_policy3.json", Ok(vec![entry("example.com", 443, 1024)]))
        .unwrap();

    assert_eq!(manager.tx_bytes_limit("example.com", 443), Some(1024));
    assert_eq!(manager.tx_bytes_limit("example.com", 80), None);
}

#[test]
fn test_duplicate_detection() {
    let mut manager = PolicyManager::new();
    let test_file = "/tmp/test_policy_dup.json";

    // Test duplicate address and port
    let content = vec![entry("example.com", 443, 1024), entry("example.com", 443, 2048)];

    // Should fail due to duplicate
    assert!(manager.load_from_file(test_file, Ok(content)).is_err());

    // Test case-insensitive duplicate detection
    let content = vec![entry("Example.com", 443, 1024), entry("EXAMPLE.COM", 443, 2048)];

    // Should fail due to case-insensitive duplicate
    assert!(manager.load_from_file(test_file, Ok(content)).is_err());
}

#[test]
fn test_tx_bytes_used_initial() {
    let mut manager = PolicyManager::new();
    manager
        .load_from_file("/tmp/test_policy_bytes.json", Ok(vec![entry("example.com", 443, 1024)]))
        .unwrap();

    // Initially, tx_bytes_used should be 0
    assert_eq!(manager.tx_bytes_used("example.com", 443), Some(0));
}

#[test]
fn test_check_and_add_tx_bytes() {
    let mut manager = PolicyManager::new();
    manager
        .load_from_file("/tmp/test_policy_check_add.json", Ok(vec![entry("example.com", 443, 1000)]))
        .unwrap();

    // First addition should succeed
    assert!(manager.check_and_add_tx_bytes("example.com", 443, 100).is_ok());
    assert_eq!(manager.tx_bytes_used("example.com", 443), Some(100));

    // Second addition should succeed
    assert!(manager.check_and_add_tx_bytes("example.com", 443, 200).is_ok());
    assert_eq!(manager.tx_bytes_used("example.com", 443), Some(300));

    // Third addition that would exceed limit should fail
    assert!(manager.check_and_add_tx_bytes("example.com", 443, 800).is_err());
    // Counter should remain unchanged after failed addition
    assert_eq!(manager.tx_bytes_used("example.com", 443), Some(300));

    // Addition that brings exactly to limit should succeed
    assert!(manager.check_and_add_tx_bytes("example.com", 443, 700).is_ok());
    assert_eq!(manager.tx_bytes_used("example.com", 443), Some(1000));

    // Any further addition should fail
    assert!(manager.check_and_add_tx_bytes("example.com", 443, 1).is_err());
}

#[test]
fn test_check_and_add_tx_bytes_unknown_server() {
    let mut manager = PolicyManager::new();
    manager
        .load_from_file("/tmp/test_policy_unknown.json", Ok(vec![entry("example.com", 443, 1000)]))
        .unwrap();

    // Adding bytes to unknown server should fail
    let result = manager.check_and_add_tx_bytes("unknown.com", 443, 100);
    assert!(result.is_err());
    assert_eq!(result.unwrap_err().kind(), ErrorKind::PermissionDenied);

    // Adding bytes to known server but unknown port should fail
    let result = manager.check_and_add_tx_bytes("example.com", 80, 100);
    assert!(result.is_err());
    assert_eq!(result.unwrap_err().kind(), ErrorKind::PermissionDenied);
}

#[test]
fn test_tx_bytes_used_cumulative() {
    let mut manager = PolicyManager::new();
    manager
        .load_from_file("/tmp/test_policy_cumulative.json", Ok(vec![entry("example.com", 443, 10000)]))
        .unwrap();

    // Simulate multiple sessions adding bytes
    for i in 1..=10 {
        assert!(manager.check_and_add_tx_bytes("example.com", 443, 100).is_ok());
        assert_eq!(manager.tx_bytes_used("example.com", 443), Some(i * 100));
    }
}

#[test]
fn test_tx_bytes_used_multiple_servers() {
    let mut manager = PolicyManager::new();
    let content = vec![entry("server1.com", 443, 1000), entry("server2.com", 443, 2000)];
    manager.load_from_file("/tmp/test_policy_multi.json", Ok(content)).unwrap();

    // Add bytes to server1
    assert!(manager.check_and_add_tx_bytes("server1.com", 443, 500).is_ok());
    assert_eq!(manager.tx_bytes_used("server1.com", 443), Some(500));
    assert_eq!(manager.tx_bytes_used("server2.com", 443), Some(0));

    // Add bytes to server2
    assert!(manager.check_and_add_tx_bytes("server2.com", 443, 1500).is_ok());
    assert_eq!(manager.tx_bytes_used("server1.com", 443), Some(500));
    assert_eq!(manager.tx_bytes_used("server2.com", 443), Some(1500));

    // server1 should still have room for 500 more
    assert!(manager.check_and_add_tx_bytes("server1.com", 443, 500).is_ok());
    assert_eq!(manager.tx_bytes_used("server1.com", 443), Some(1000));

    // server1 is now at limit
    assert!(manager.check_and_add_tx_bytes("server1.com", 443, 1).is_err());

    // server2 should still have room for 500 more
    assert!(manager.check_and_add_tx_bytes("server2.com", 443, 500).is_ok());
    assert_eq!(manager.tx_bytes_used("server2.com", 443), Some(2000));
}

#[test]
fn a_file_that_gives_no_rules_leaves_the_policy() {
    let mut manager = PolicyManager::new();
    manager.load_from_file("p.json", Ok(vec![entry("example.com", 443, 5)])).unwrap();
    manager.check_and_add_tx_bytes("example.com", 443, 2).unwrap();

    assert_eq!(
        manager.load_from_file("q.json", Err(PolicyFileError::Read("gone".to_string()))),
        Err("Failed to read file 'q.json': gone".to_string())
    );
    assert_eq!(
        manager.load_from_file("q.json", Err(PolicyFileError::Parse("EOF".to_string()))),
        Err("Failed to parse JSON from 'q.json': EOF".to_string())
    );
    let twice = vec![entry("a", 1, 1), entry("b", 1, 1), entry("B", 1, 7), entry("A", 1, 7)];
    assert_eq!(
        manager.load_from_file("q.json", Ok(twice)),
        Err("Duplicate rule detected in 'q.json': address='B', port=1".to_string())
    );
    assert_eq!(manager.tx_bytes_used("example.com", 443), Some(2));

    manager.load_from_file("q.json", Ok(vec![entry("b", 1, 1), entry("B", 2, 7)])).unwrap();
    assert!(!manager.is_allowed("example.com", 443));
    assert_eq!(manager.tx_bytes_limit("b", 2), Some(7));
}

#[test]
fn errors_of_counting_say_what_happened() {
    let mut manager = PolicyManager::new();
    manager.load_from_file("p.json", Ok(vec![entry("Example.com", 443, 1000)])).unwrap();
    manager.check_and_add_tx_bytes("example.COM", 443, 300).unwrap();

    let error = manager.check_and_add_tx_bytes("example.com", 443, 800).unwrap_err();
    assert_eq!(error.kind(), ErrorKind::Other);
    assert_eq!(error.message, "TX bytes limit exceeded for Example.com:443: 300 + 800 > 1000");

    let error = manager.check_and_add_tx_bytes("example.org", 8080, 0).unwrap_err();
    assert_eq!(error.kind(), ErrorKind::PermissionDenied);
    assert_eq!(error.message, "Server example.org:8080 not found in whitelist");
}

#[test]
fn the_largest_limit_is_kept_too() {
    let mut manager = PolicyManager::new();
    manager.load_from_file("p.json", Ok(vec![entry("a", 1, u64::MAX)])).unwrap();
    manager.check_and_add_tx_bytes("a", 1, u64::MAX - 1).unwrap();
    let error = manager.check_and_add_tx_bytes("a", 1, 5).unwrap_err();
    assert_eq!(error.kind(), ErrorKind::Other);
    assert_eq!(
        error.message,
        "TX bytes limit exceeded for a:1: 18446744073709551614 + 5 > 18446744073709551615"
    );
    assert_eq!(manager.tx_bytes_used("a", 1), Some(u64::MAX - 1));

    manager.load_from_file("p.json", Ok(vec![entry("example.com", 443, u64::MAX)])).unwrap();
    assert!(manager.check_and_add_tx_bytes("example.com", 443, u64::MAX).is_ok());
    assert!(manager.check_and_add_tx_bytes("example.com", 443, 1).is_err());
    assert_eq!(manager.tx_bytes_used("example.com", 443), Some(u64::MAX));
    assert!(manager.check_and_add_tx_bytes("example.com", 443, 0).is_ok());
}

#[test]
fn a_counter_sums_what_was_accepted_for_its_address() {
    let mut manager = PolicyManager::new();
    let content = vec![
        entry("::1", 443, 100),
        entry("::1", 80, 100),
        entry("example.com", 443, 100),
        entry("bücher.example", 443, 100),
    ];
    manager.load_from_file("p.json", Ok(content)).unwrap();
    let charges = [
        ("::1", 443, 10),
        ("0:0:0:0:0:0:0:1", 443, 20),
        ("EXAMPLE.com", 443, 5),
        ("::1", 443, 80),
        ("BÜCHER.example", 443, 7),
        ("::0:1", 443, 70),
        ("::1", 443, 1),
    ];
    let mut used = 0;
    for (address, port, bytes) in charges {
        let accepted = manager.check_and_add_tx_bytes(address, port, bytes).is_ok();
        if accepted && manager.addresses_match(address, "0::1") {
            used += bytes;
        }
        assert_eq!(manager.tx_bytes_used("0::1", 443), Some(used));
        assert_eq!(manager.tx_bytes_used("0::1", 80), Some(0));
        assert_eq!(manager.tx_bytes_limit("0::1", 443), Some(100));
    }
    assert_eq!(used, 100);
    assert_eq!(manager.tx_bytes_used("example.com", 443), Some(5));
    assert_eq!(manager.tx_bytes_used("bücher.example", 443), Some(7));
}

#[test]
fn the_same_address_is_decided_on_by_the_same_rule() {
    let mut manager = PolicyManager::new();
    let content = vec![entry("2001:db8::a", 443, 10), entry("Ä.example", 443, 20)];
    manager.load_from_file("p.json", Ok(content)).unwrap();
    manager.check_and_add_tx_bytes("2001:db8::a", 443, 3).unwrap();
    for (a, b) in [("2001:DB8::A", "2001:db8:0:0:0:0:0:a"), ("ä.EXAMPLE", "Ä.example")] {
        assert!(manager.addresses_match(a, b));
        for port in [80, 443] {
            assert_eq!(manager.is_allowed(a, port), manager.is_allowed(b, port));
            assert_eq!(manager.tx_bytes_limit(a, port), manager.tx_bytes_limit(b, port));
            assert_eq!(manager.tx_bytes_used(a, port), manager.tx_bytes_used(b, port));
        }
        assert!(manager.is_allowed(a, 443));
    }
}

#[test]
fn a_sum_beyond_a_counter_exceeds_every_limit_below() {
    let mut manager = PolicyManager::new();
    manager.load_from_file("p.json", Ok(vec![entry("a", 1, u64::MAX - 1)])).unwrap();
    manager.check_and_add_tx_bytes("a", 1, 10).unwrap();
    assert!(manager.check_and_add_tx_bytes("a", 1, u64::MAX).is_err());
    assert_eq!(manager.tx_bytes_used("a", 1), Some(10));
}

#[test]
fn the_first_rule_about_a_server_decides() {
    let mut manager = PolicyManager::new();
    let content = vec![entry("::1", 443, 10), entry("0:0:0:0:0:0:0:1", 443, 20)];
    manager.load_from_file("p.json", Ok(content)).unwrap();
    assert_eq!(manager.tx_bytes_limit("::1", 443), Some(10));
    assert_eq!(manager.tx_bytes_limit("0:0:0:0:0:0:0:1", 443), Some(10));
    assert_eq!(manager.tx_bytes_limit("0:0::0:1", 443), Some(10));
}

#[test]
fn addresses_match_in_every_notation() {
    let manager = PolicyManager::new();
    assert!(manager.addresses_match("Example.com", "eXAMPLE.COM"));
    assert!(!manager.addresses_match("example.com", "example.com."));
    assert!(manager.addresses_match("ÄB", "äb"));
    assert!(!manager.addresses_match("äb", "ab"));
    assert!(manager.addresses_match("192.168.1.1", "192.168.1.1"));
    assert!(!manager.addresses_match("192.168.1.1", "192.168.1.2"));
    // Octets have no leading zeros, so the second is no address.
    assert!(!manager.addresses_match("192.168.1.1", "192.168.01.1"));
    assert!(!manager.addresses_match("1.2.3.4", "::ffff:1.2.3.4"));
    assert!(manager.addresses_match("::ffff:1.2.3.4", "::FFFF:102:304"));
    assert!(manager.addresses_match("2001:db8::1", "2001:0DB8:0:0::0:1"));
    assert!(manager.addresses_match("::", "0:0:0:0:0:0:0.0.0.0"));
    assert!(manager.addresses_match("1::", "1:0:0:0:0:0:0:0"));
    assert!(manager.addresses_match("1:2:3:4:5:6:7::", "1:2:3:4:5:6:7:0"));
    assert!(manager.addresses_match("::2:3:4:5:6:7:8", "0:2:3:4:5:6:7:8"));
    for bad in [
        ":", ":::", "1:2:3:4:5:6:7", "1:2:3:4:5:6:7:8:9", "1:2:3:4::5:6:7:8", "1::2::3",
        "12345::", "g::", "1.2.3.4::", "1:2:3:4:5:6:7:1.2.3.4", "::1.2.3", "::1.2.3.256",
        "::1.2.3.04", ":1", "1:", " ::1", "::1%eth0",
    ] {
        for good in ["::", "::1", "1::", "1:2:3:4:5:6:7:8", "::1.2.3.4"] {
            assert!(!manager.addresses_match(good, bad), "{} {}", good, bad);
        }
    }
}

#[test]
fn the_policy_is_reported_rule_by_rule() {
    let mut manager = PolicyManager::new();
    assert_eq!(manager.log_policy(), vec!["Loaded policy with 0 rules:".to_string()]);
    let content = vec![entry("example.com", 443, 1024), entry("192.168.1.1", 65535, u64::MAX)];
    manager.load_from_file("p.json", Ok(content)).unwrap();
    manager.check_and_add_tx_bytes("example.com", 443, 100).unwrap();
    assert_eq!(
        manager.log_policy(),
        vec![
            "Loaded policy with 2 rules:".to_string(),
            "  - address: example.com, port: 443, tx_bytes_limit: 1024, tx_bytes_used: 100"
                .to_string(),
            "  - address: 192.168.1.1, port: 65535, tx_bytes_limit: 18446744073709551615, \
             tx_bytes_used: 0"
                .to_string(),
        ]
    );
}

#[test]
fn every_loaded_server_is_allowed() {
    let mut manager = PolicyManager::new();
    let servers = [("example.com", 443), ("Example.com", 80), ("10.0.0.1", 443), ("::A", 443)];
    let content = servers.iter().map(|(address, port)| entry(address, *port, 7)).collect();
    manager.load_from_file("p.json", Ok(content)).unwrap();
    for (address, port) in servers {
        assert!(manager.is_allowed(address, port));
        assert_eq!(manager.tx_bytes_limit(address, port), Some(7));
        assert_eq!(manager.tx_bytes_used(address, port), Some(0));
    }
    assert!(!manager.is_allowed("10.0.0.1", 80));
}

#[test]
fn sameness_of_addresses_is_an_equivalence() {
    let manager = PolicyManager::new();
    let classes = [
        vec!["example.com", "EXAMPLE.COM", "Example.Com"],
        vec!["2001:db8::a", "2001:DB8::A", "2001:db8:0:0:0:0:0:a", "2001:0db8::0.0.0.10"],
        vec!["10.0.0.1"],
        vec!["::ffff:10.0.0.1", "::FFFF:a00:1"],
    ];
    for (i, one) in classes.iter().enumerate() {
        for (j, other) in classes.iter().enumerate() {
            for a in one {
                for b in other {
                    assert_eq!(manager.addresses_match(a, b), i == j, "{} {}", a, b);
                }
            }
        }
    }
}
