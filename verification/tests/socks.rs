use wireskip::error::Error;
use wireskip::socks::{
    is_valid_utf8, method_reply, parse_greeting, parse_request, parse_udp, request_tail_len,
    write_ok, Addr, Command,
};

#[test]
fn request_connect_ipv4() {
    let b = [0x05, 0x01, 0x00, 0x01, 0x7f, 0x00, 0x00, 0x01, 0x00, 0x50];
    let (cmd, addr) = parse_request(&b).unwrap();
    assert_eq!(cmd, Command::Connect);
    assert_eq!(addr, Addr::V4([127, 0, 0, 1], 80));
}

#[test]
fn request_connect_domain() {
    let mut b = vec![0x05, 0x01, 0x00, 0x03, 0x0b];
    b.extend_from_slice(b"example.com");
    b.extend_from_slice(&[0x01, 0xbb]);
    let (cmd, addr) = parse_request(&b).unwrap();
    assert_eq!(cmd, Command::Connect);
    assert_eq!(addr, Addr::Name(b"example.com".to_vec(), 443));
}

#[test]
fn request_udp_associate() {
    let b = [0x05, 0x03, 0x00, 0x01, 0x00, 0x00, 0x00, 0x00, 0x04, 0x39];
    let (cmd, addr) = parse_request(&b).unwrap();
    assert_eq!(cmd, Command::UdpAssoc);
    assert_eq!(addr, Addr::V4([0, 0, 0, 0], 1081));
}

#[test]
fn request_ipv6() {
    let mut b = vec![0x05, 0x01, 0x00, 0x04];
    b.extend_from_slice(&[0, 0, 0, 0, 0, 0, 0, 0, 0, 0, 0, 0, 0, 0, 0, 1]);
    b.extend_from_slice(&[0x01, 0xbb]);
    let (cmd, addr) = parse_request(&b).unwrap();
    assert_eq!(cmd, Command::Connect);
    assert_eq!(
        addr,
        Addr::V6([0, 0, 0, 0, 0, 0, 0, 0, 0, 0, 0, 0, 0, 0, 0, 1], 443)
    );
}

#[test]
fn request_bad_version() {
    // a client that speaks SOCKSv4 is refused outright
    let b = [0x04, 0x01, 0x00, 0x01, 0x7f, 0x00, 0x00, 0x01, 0x00, 0x50];
    assert_eq!(parse_request(&b), Err(Error::UnsupportedVersion));
}

#[test]
fn request_unknown_command() {
    let b = [0x05, 0x02, 0x00, 0x01, 0x7f, 0x00, 0x00, 0x01, 0x00, 0x50];
    assert_eq!(parse_request(&b), Err(Error::UnknownCommand));
}

#[test]
fn request_unknown_addr_type() {
    let b = [0x05, 0x01, 0x00, 0x05, 0x7f, 0x00, 0x00, 0x01, 0x00, 0x50];
    assert_eq!(parse_request(&b), Err(Error::UnknownAddrType));
}

#[test]
fn request_truncated() {
    assert_eq!(parse_request(&[]), Err(Error::Truncated));
    assert_eq!(parse_request(&[0x05]), Err(Error::Truncated));
    assert_eq!(
        parse_request(&[0x05, 0x01, 0x00, 0x01, 0x7f]),
        Err(Error::Truncated)
    );
}

#[test]
fn greeting_and_reply() {
    assert_eq!(parse_greeting(&[0x05, 0x01, 0x00]), Ok(3));
    assert_eq!(parse_greeting(&[0x05, 0x02, 0x00, 0x01]), Ok(4));
    assert_eq!(parse_greeting(&[0x05, 0x02, 0x00]), Err(Error::Truncated));
    assert_eq!(
        parse_greeting(&[0x04, 0x01, 0x00]),
        Err(Error::UnsupportedVersion)
    );
    assert_eq!(method_reply(), vec![0x05, 0x00]);
}

#[test]
fn write_ok_is_byte_exact() {
    let mut b = Vec::new();
    write_ok(&mut b);
    assert_eq!(b, vec![0x05, 0x00, 0x00, 0x01, 0x7f, 0x00, 0x00, 0x01, 0x04, 0x38]);
}

#[test]
fn udp_envelope_golden() {
    let b = [
        0x00, 0x00, 0x00, 0x01, 0x7f, 0x00, 0x00, 0x01, 0x00, 0x35, 0xde, 0xad, 0xbe, 0xef,
    ];
    let (addr, payload) = parse_udp(&b).unwrap();
    assert_eq!(addr, Addr::V4([127, 0, 0, 1], 53));
    assert_eq!(payload, vec![0xde, 0xad, 0xbe, 0xef]);
}

#[test]
fn udp_envelope_fragment_rejected() {
    let b = [
        0x00, 0x00, 0x01, 0x01, 0x7f, 0x00, 0x00, 0x01, 0x00, 0x35, 0xde, 0xad,
    ];
    assert_eq!(parse_udp(&b), Err(Error::UdpFragmentationUnsupported));
}

#[test]
fn udp_envelope_domain_target() {
    let mut b = vec![0x00, 0x00, 0x00, 0x03, 0x03];
    b.extend_from_slice(b"dns");
    b.extend_from_slice(&[0x00, 0x35, 0xab]);
    let (addr, payload) = parse_udp(&b).unwrap();
    assert_eq!(addr, Addr::Name(b"dns".to_vec(), 53));
    assert_eq!(payload, vec![0xab]);
}

#[test]
fn authority_forms() {
    assert_eq!(Addr::V4([127, 0, 0, 1], 80).authority(), b"127.0.0.1:80");
    assert_eq!(
        Addr::Name(b"example.com".to_vec(), 443).authority(),
        b"example.com:443"
    );
    assert_eq!(
        Addr::V6([0, 0, 0, 0, 0, 0, 0, 0, 0, 0, 0, 0, 0, 0, 0, 1], 443).authority(),
        b"[0:0:0:0:0:0:0:1]:443"
    );
    assert_eq!(
        Addr::V6(
            [0x20, 0x01, 0x0d, 0xb8, 0, 0, 0, 0, 0, 0, 0, 0, 0xab, 0xcd, 0x00, 0x01],
            8080
        )
        .authority(),
        b"[2001:db8:0:0:0:0:abcd:1]:8080"
    );
}

#[test]
fn request_tail_lengths() {
    assert_eq!(request_tail_len(1, 0), Ok(6));
    assert_eq!(request_tail_len(4, 0), Ok(18));
    assert_eq!(request_tail_len(3, 11), Ok(13));
    assert_eq!(request_tail_len(2, 0), Err(Error::UnknownAddrType));
}

#[test]
fn request_non_utf8_domain_rejected() {
    // a one-byte name 0xff is never valid UTF-8
    let b = [0x05, 0x01, 0x00, 0x03, 0x01, 0xff, 0x00, 0x35];
    assert_eq!(parse_request(&b), Err(Error::InvalidDomainName));
}

#[test]
fn udp_envelope_non_utf8_name_rejected() {
    let b = [0x00, 0x00, 0x00, 0x03, 0x01, 0xff, 0x00, 0x35];
    assert_eq!(parse_udp(&b), Err(Error::InvalidDomainName));
}

#[test]
fn request_multibyte_domain_accepted() {
    let name = "b\u{fc}cher.example".as_bytes();
    let mut b = vec![0x05, 0x01, 0x00, 0x03, name.len() as u8];
    b.extend_from_slice(name);
    b.extend_from_slice(&[0x01, 0xbb]);
    let (cmd, addr) = parse_request(&b).unwrap();
    assert_eq!(cmd, Command::Connect);
    assert_eq!(addr, Addr::Name(name.to_vec(), 443));
}

#[test]
fn utf8_validator_accepts_well_formed() {
    for ok in [
        &b""[..],
        b"example.com",
        "h\u{e9}llo".as_bytes(),
        "\u{7ff}\u{800}\u{ffff}".as_bytes(),
        "\u{10000}\u{10348}\u{10ffff}".as_bytes(),
    ] {
        assert!(is_valid_utf8(ok));
    }
}

#[test]
fn utf8_validator_rejects_malformed() {
    for bad in [
        &[0xff][..],
        &[0x80][..],             // stray continuation byte
        &[0xc3][..],             // truncated two-byte scalar
        &[0xc0, 0x80][..],       // overlong two-byte form of NUL
        &[0xe0, 0x80, 0x80][..], // overlong three-byte form
        &[0xed, 0xa0, 0x80][..], // surrogate D800
        &[0xf0, 0x80, 0x80, 0x80][..], // overlong four-byte form
        &[0xf4, 0x90, 0x80, 0x80][..], // beyond U+10FFFF
        &[0xf8, 0x88, 0x80, 0x80, 0x80][..], // five-byte lead
        &[0xc3, 0x28][..],       // continuation byte missing
        &[0xf0, 0x90, 0x80][..], // truncated four-byte scalar
    ] {
        assert!(!is_valid_utf8(bad));
    }
}
