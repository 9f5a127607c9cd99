use geph5_client_core::frontend::{apply_backtranslation, choose_route, host_of, request_label, Route};
use geph5_client_core::ipv4::{parse_ipv4, parse_socket_v4, V4Addr};

#[test]
fn lan_destination_goes_direct() {
    let dest = apply_backtranslation("192.168.1.5:22", None);
    assert_eq!(dest, "192.168.1.5:22");
    let host = host_of(&dest).unwrap();
    assert_eq!(host, "192.168.1.5");
    let bypass = geph5_client_core::bypass::whitelist_host(host, false);
    assert!(matches!(choose_route("tcp", &dest, bypass), Route::Direct));
}

#[test]
fn synthetic_address_is_mapped_back_and_tunnelled() {
    let dest = apply_backtranslation("10.0.0.7:443", Some("example.com"));
    assert_eq!(dest, "example.com:443");
    let host = host_of(&dest).unwrap();
    let bypass = geph5_client_core::bypass::whitelist_host(host, false);
    match choose_route("tcp", &dest, bypass) {
        Route::Tunnel(label) => assert_eq!(label, "tcp$example.com:443"),
        Route::Direct => panic!("expected the tunnel"),
    }
}

#[test]
fn mapped_back_port_is_normalised() {
    assert_eq!(apply_backtranslation("10.0.0.7:0080", Some("a.example")), "a.example:80");
    assert_eq!(apply_backtranslation("10.0.0.7:0", Some("a.example")), "a.example:0");
    assert_eq!(apply_backtranslation("10.0.0.7:65535", Some("a.example")), "a.example:65535");
}

#[test]
fn non_ipv4_destinations_are_kept() {
    assert_eq!(apply_backtranslation("[::1]:443", Some("x.example")), "[::1]:443");
    assert_eq!(apply_backtranslation("example.com:443", Some("x.example")), "example.com:443");
    assert_eq!(apply_backtranslation("10.0.0.7:65536", Some("x.example")), "10.0.0.7:65536");
}

#[test]
fn host_is_cut_at_last_colon() {
    assert_eq!(host_of("example.com:443"), Some("example.com"));
    assert_eq!(host_of("::1:80"), Some("::1"));
    assert_eq!(host_of(":80"), Some(""));
    assert_eq!(host_of("noport"), None);
}

#[test]
fn label_joins_protocol_and_destination() {
    assert_eq!(request_label("udp", "1.1.1.1:53"), "udp$1.1.1.1:53");
}

#[test]
fn destination_without_port_is_tunnelled() {
    assert!(matches!(choose_route("tcp", "noport", true), Route::Tunnel(_)));
}

#[test]
fn ipv4_parsing() {
    assert_eq!(parse_ipv4("1.2.3.4"), Some(V4Addr { a: 1, b: 2, c: 3, d: 4 }));
    assert_eq!(parse_ipv4("255.255.255.255"), Some(V4Addr { a: 255, b: 255, c: 255, d: 255 }));
    assert_eq!(parse_ipv4("256.0.0.1"), None);
    assert_eq!(parse_ipv4("1.2.3"), None);
    assert_eq!(parse_ipv4("1.2.3.4.5"), None);
    assert_eq!(parse_ipv4("1..3.4"), None);
    assert_eq!(parse_ipv4("01.2.3.4"), None);
    assert_eq!(parse_ipv4("1.2.3.4 "), None);
}

#[test]
fn socket_address_parsing() {
    assert_eq!(parse_socket_v4("10.0.0.7:443"), Some((V4Addr { a: 10, b: 0, c: 0, d: 7 }, 443)));
    assert_eq!(parse_socket_v4("10.0.0.7"), None);
    assert_eq!(parse_socket_v4("10.0.0.7:"), None);
    assert_eq!(parse_socket_v4("10.0.0.7:1:2"), None);
    assert_eq!(parse_socket_v4("10.0.0.7:+1"), None);
}
