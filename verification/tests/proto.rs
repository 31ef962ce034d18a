use wireskip::error::Error;
use wireskip::proto::{decode_capsule, decode_varint, encode_capsule, encode_varint, UDP_MAX};

#[test]
fn test_decode_varint() {
    for (k, v) in [
        (
            &[0xc2u8, 0x19, 0x7c, 0x5e, 0xff, 0x14, 0xe8, 0x8c][..],
            151288809941952652u64,
        ),
        (&[0x9d, 0x7f, 0x3e, 0x7d][..], 494878333),
        (&[0x7b, 0xbd][..], 15293),
        (&[0x40, 0x25][..], 37),
        (&[0x25][..], 37),
    ] {
        let (got, end) = decode_varint(k, 0).unwrap();
        assert_eq!(got, v);
        assert_eq!(end, k.len());
    }
}

#[test]
fn test_encode_varint() {
    for (k, v) in [
        (
            &[0xc2u8, 0x19, 0x7c, 0x5e, 0xff, 0x14, 0xe8, 0x8c][..],
            151288809941952652u64,
        ),
        (&[0x9d, 0x7f, 0x3e, 0x7d][..], 494878333),
        (&[0x7b, 0xbd][..], 15293),
        (&[0x25][..], 37),
    ] {
        let mut buf = Vec::new();
        encode_varint(&mut buf, v).unwrap();
        assert_eq!(k, buf);
    }
}

#[test]
fn varint_encode_out_of_range() {
    let mut buf = Vec::new();
    assert_eq!(encode_varint(&mut buf, 1u64 << 62), Err(Error::OutOfRange));
    assert!(buf.is_empty());
    assert!(encode_varint(&mut buf, (1u64 << 62) - 1).is_ok());
}

#[test]
fn varint_runtime_round_trip() {
    for v in [
        0u64,
        1,
        37,
        63,
        64,
        15293,
        16383,
        16384,
        494878333,
        (1 << 30) - 1,
        1 << 30,
        151288809941952652,
        (1 << 62) - 1,
    ] {
        let mut buf = Vec::new();
        encode_varint(&mut buf, v).unwrap();
        let (got, end) = decode_varint(&buf, 0).unwrap();
        assert_eq!(got, v);
        assert_eq!(end, buf.len());
    }
}

#[test]
fn varint_decode_truncated() {
    assert_eq!(decode_varint(&[], 0), Err(Error::Truncated));
    assert_eq!(decode_varint(&[0x7b], 0), Err(Error::Truncated));
    assert_eq!(decode_varint(&[0xc2, 0x19, 0x7c], 0), Err(Error::Truncated));
}

#[test]
fn capsule_runtime_round_trip() {
    for payload in [&[][..], &[0xde, 0xad, 0xbe, 0xef][..], &[0u8; 300][..]] {
        let mut buf = Vec::new();
        encode_capsule(&mut buf, payload).unwrap();
        let got = decode_capsule(&buf).unwrap();
        assert_eq!(got, payload);
    }
}

#[test]
fn capsule_exact_bytes() {
    let mut buf = Vec::new();
    encode_capsule(&mut buf, &[0xde, 0xad, 0xbe, 0xef]).unwrap();
    assert_eq!(buf, vec![0x00, 0x04, 0xde, 0xad, 0xbe, 0xef]);
}

#[test]
fn capsule_rejects_nonzero_type() {
    // type varint 1 instead of 0, then a well-formed length and payload
    assert_eq!(
        decode_capsule(&[0x01, 0x02, 0xaa, 0xbb]),
        Err(Error::UnrecognizedCapsuleType)
    );
}

#[test]
fn capsule_truncated_payload() {
    assert_eq!(decode_capsule(&[0x00, 0x04, 0xde]), Err(Error::Truncated));
    assert_eq!(decode_capsule(&[0x00]), Err(Error::Truncated));
    assert_eq!(decode_capsule(&[]), Err(Error::Truncated));
}

#[test]
fn udp_max_is_rfc_value() {
    assert_eq!(UDP_MAX, 65527);
}
