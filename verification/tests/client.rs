use wireskip::client::{accept_datagram, masque_uri, Circuit};
use wireskip::error::Error;
use wireskip::socks::Addr;

#[test]
fn masque_uri_replaces_colon() {
    assert_eq!(
        masque_uri(b"127.0.0.1:8080", b"127.0.0.1:9999"),
        b"https://127.0.0.1:8080/.well-known/masque/udp/127.0.0.1/9999/"
    );
    assert_eq!(
        masque_uri(b"relay.example:1234", b"example.com:443"),
        b"https://relay.example:1234/.well-known/masque/udp/example.com/443/"
    );
}

#[test]
fn masque_uri_parses_back() {
    // the joiner's URI and the relay's path parser agree
    let uri = masque_uri(b"relay:1", b"example.com:443");
    let path = &uri[b"https://relay:1".len()..];
    assert_eq!(
        wireskip::server::udp_addr_from_path(path).unwrap(),
        b"example.com:443"
    );
}

#[test]
fn oversize_datagram_dropped() {
    // 70000 bytes exceeds the RFC 9298 maximum of 65527: dropped outright
    let big = vec![0u8; 70000];
    assert_eq!(accept_datagram(&big), Err(Error::OversizeDatagram));
}

#[test]
fn datagram_at_limit_parses() {
    let mut b = vec![0x00, 0x00, 0x00, 0x01, 0x7f, 0x00, 0x00, 0x01, 0x00, 0x35];
    b.resize(65527, 0x41);
    let (addr, payload) = accept_datagram(&b).unwrap();
    assert_eq!(addr, Addr::V4([127, 0, 0, 1], 53));
    assert_eq!(payload.len(), 65527 - 10);
    let mut too_big = b.clone();
    too_big.push(0x41);
    assert_eq!(accept_datagram(&too_big), Err(Error::OversizeDatagram));
}

#[test]
fn circuit_needs_a_hop() {
    assert!(Circuit::new(Vec::new()).is_err());
    let c = Circuit::new(vec![Addr::V4([127, 0, 0, 1], 8080)]).unwrap();
    assert_eq!(c.len(), 1);
    assert_eq!(c.last().authority(), b"127.0.0.1:8080");
}

#[test]
fn circuit_keeps_hop_order() {
    let hops = vec![
        Addr::V4([10, 0, 0, 1], 1000),
        Addr::V4([10, 0, 0, 2], 2000),
        Addr::Name(b"far.example".to_vec(), 3000),
    ];
    let c = Circuit::new(hops).unwrap();
    assert_eq!(c.len(), 3);
    assert_eq!(c.hop(0).authority(), b"10.0.0.1:1000");
    assert_eq!(c.hop(1).authority(), b"10.0.0.2:2000");
    assert_eq!(c.last().authority(), b"far.example:3000");
}
