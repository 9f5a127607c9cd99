use geph5_client_core::bypass::{china_candidate, whitelist_host};
use geph5_client_core::ipv6::parse_ipv6;

#[test]
fn private_ipv4_hosts_are_bypassed() {
    assert!(whitelist_host("192.168.1.5", false));
    assert!(whitelist_host("10.0.0.1", false));
    assert!(whitelist_host("172.16.0.1", false));
    assert!(whitelist_host("172.31.255.255", false));
    assert!(whitelist_host("127.0.0.1", false));
    assert!(whitelist_host("169.254.10.20", false));
}

#[test]
fn public_ipv4_hosts_are_tunnelled() {
    assert!(!whitelist_host("8.8.8.8", false));
    assert!(!whitelist_host("172.32.0.1", false));
    assert!(!whitelist_host("100.64.0.1", false));
    assert!(!whitelist_host("0.0.0.0", true));
}

#[test]
fn empty_and_bracketed_hosts_are_tunnelled() {
    assert!(!whitelist_host("", true));
    assert!(!whitelist_host("[::1]", true));
    assert!(!whitelist_host("a[b", false));
}

#[test]
fn ipv6_bypassed_only_when_loopback() {
    assert!(whitelist_host("::1", false));
    assert!(whitelist_host("0:0:0:0:0:0:0:1", false));
    assert!(whitelist_host("::0.0.0.1", false));
    assert!(!whitelist_host("2001:db8::1", true));
    assert!(!whitelist_host("fe80::1", false));
    assert!(!whitelist_host("::", false));
    assert!(!whitelist_host("::ffff:127.0.0.1", false));
}

#[test]
fn names_follow_the_public_suffix_list() {
    assert!(!whitelist_host("example.com", false));
    assert!(!whitelist_host("www.example.co.uk", false));
    assert!(whitelist_host("printer.local", false));
    assert!(whitelist_host("localhost", false));
}

#[test]
fn chinese_names_are_bypassed_when_asked() {
    assert!(whitelist_host("example.com", true));
    assert!(!whitelist_host("8.8.8.8", true));
}

#[test]
fn malformed_addresses_are_names() {
    assert!(whitelist_host("01.2.3.4", false));
    assert!(whitelist_host("256.1.1.1", false));
}

#[test]
fn decision_is_deterministic() {
    for h in ["192.168.1.5", "example.com", "printer.local", "", "8.8.8.8"] {
        assert_eq!(whitelist_host(h, false), whitelist_host(h, false));
    }
}

#[test]
fn china_candidate_is_the_registrable_domain() {
    assert_eq!(china_candidate("www.example.com", true), Some("example.com".to_string()));
    assert_eq!(china_candidate("www.example.com", false), None);
    assert_eq!(china_candidate("a.b.example.co.uk", true), Some("example.co.uk".to_string()));
}

#[test]
fn ipv6_parsing() {
    assert_eq!(parse_ipv6("::1"), Some(vec![0, 0, 0, 0, 0, 0, 0, 1]));
    assert_eq!(parse_ipv6("::"), Some(vec![0; 8]));
    assert_eq!(parse_ipv6("1::"), Some(vec![1, 0, 0, 0, 0, 0, 0, 0]));
    assert_eq!(parse_ipv6("2001:DB8::ff00:42"), Some(vec![0x2001, 0xdb8, 0, 0, 0, 0, 0xff00, 0x42]));
    assert_eq!(parse_ipv6("1:2:3:4:5:6:7:8"), Some(vec![1, 2, 3, 4, 5, 6, 7, 8]));
    assert_eq!(parse_ipv6("::ffff:1.2.3.4"), Some(vec![0, 0, 0, 0, 0, 0xffff, 0x0102, 0x0304]));
    assert_eq!(parse_ipv6("1:2:3:4:5:6:1.2.3.4"), Some(vec![1, 2, 3, 4, 5, 6, 0x0102, 0x0304]));
    assert_eq!(parse_ipv6("1:2:3:4:5:6:7::"), Some(vec![1, 2, 3, 4, 5, 6, 7, 0]));
    assert_eq!(parse_ipv6("1:2:3:4:5:6:7:8::"), None);
    assert_eq!(parse_ipv6("1::2::3"), None);
    assert_eq!(parse_ipv6(":::1"), None);
    assert_eq!(parse_ipv6(":1::2"), None);
    assert_eq!(parse_ipv6("1:2:3:4:5:6:7"), None);
    assert_eq!(parse_ipv6("12345::"), None);
    assert_eq!(parse_ipv6("1.2.3.4::"), None);
    assert_eq!(parse_ipv6("::1.2.3.4:5"), None);
    assert_eq!(parse_ipv6("g::"), None);
    assert_eq!(parse_ipv6(""), None);
    assert_eq!(parse_ipv6("example.com"), None);
}
