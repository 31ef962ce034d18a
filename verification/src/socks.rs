//! SOCKSv5 codec: greeting and request parsing, the UDP datagram envelope,
//! and the fixed success reply. Everything here works on plain bytes; the
//! listener that feeds it lives outside the verified core.

use vstd::prelude::*;

use crate::error::Error;
use vstd::slice::{slice_subrange, slice_to_vec};
use vstd::utf8::{
    decode_first_codepoint, is_continuation_byte, is_leading_byte_width_1,
    is_leading_byte_width_2, is_leading_byte_width_3, is_leading_byte_width_4,
    length_of_first_codepoint, length_of_first_scalar, not_overlong_encoding, not_surrogate,
    pop_first_scalar, valid_first_scalar, valid_leading_and_continuation_bytes_first_codepoint,
    valid_utf8,
};

verus! {

/// A decoded SOCKSv5 command byte.
#[derive(Clone, Copy, Debug, PartialEq, Eq, Structural)]
pub enum Command {
    Connect,
    UdpAssoc,
}

/// A destination address as SOCKSv5 carries it: a literal IPv4 or IPv6
/// address, or a domain name, each with a port. The parsers accept a name
/// only when its bytes are valid UTF-8; it is kept as those bytes and never
/// resolved locally: resolution must happen at the terminal relay.
#[derive(Clone, Debug, PartialEq, Eq)]
pub enum Addr {
    V4([u8; 4], u16),
    V6([u8; 16], u16),
    Name(Vec<u8>, u16),
}

/// The mathematical shape of an [`Addr`]: the same three variants over `Seq`.
pub enum AddrView {
    V4(Seq<u8>, u16),
    V6(Seq<u8>, u16),
    Name(Seq<u8>, u16),
}

impl View for Addr {
    type V = AddrView;

    open spec fn view(&self) -> AddrView {
        match self {
            Addr::V4(o, p) => AddrView::V4(o@, *p),
            Addr::V6(o, p) => AddrView::V6(o@, *p),
            Addr::Name(h, p) => AddrView::Name(h@, *p),
        }
    }
}

/// The network-order port stored at `s[i]`, `s[i+1]`.
pub open spec fn port_val(s: Seq<u8>, i: int) -> u16
    recommends
        0 <= i && i + 2 <= s.len(),
{
    ((s[i] as nat) * 256 + (s[i + 1] as nat)) as u16
}

/// Reading one SOCKSv5 address block (ATYP, address, port) at offset `at`:
/// the address and the offset just past it.
pub open spec fn addr_parse(s: Seq<u8>, at: int) -> Result<(AddrView, int), Error>
    recommends
        0 <= at,
{
    if s.len() < at + 1 {
        Err(Error::Truncated)
    } else if s[at] == 1 {
        if s.len() < at + 7 {
            Err(Error::Truncated)
        } else {
            Ok((AddrView::V4(s.subrange(at + 1, at + 5), port_val(s, at + 5)), at + 7))
        }
    } else if s[at] == 4 {
        if s.len() < at + 19 {
            Err(Error::Truncated)
        } else {
            Ok((AddrView::V6(s.subrange(at + 1, at + 17), port_val(s, at + 17)), at + 19))
        }
    } else if s[at] == 3 {
        if s.len() < at + 2 {
            Err(Error::Truncated)
        } else if s.len() < at + 4 + s[at + 1] {
            Err(Error::Truncated)
        } else if !valid_utf8(s.subrange(at + 2, at + 2 + s[at + 1])) {
            Err(Error::InvalidDomainName)
        } else {
            Ok(
                (
                    AddrView::Name(
                        s.subrange(at + 2, at + 2 + s[at + 1]),
                        port_val(s, at + 2 + s[at + 1]),
                    ),
                    at + 4 + s[at + 1],
                ),
            )
        }
    } else {
        Err(Error::UnknownAddrType)
    }
}

/// Reading a whole SOCKSv5 UDP envelope: reserved bytes, a fragment byte that
/// must be zero, an address block, then the payload, which runs to the end.
pub open spec fn udp_parse(s: Seq<u8>) -> Result<(AddrView, Seq<u8>), Error> {
    if s.len() < 3 {
        Err(Error::Truncated)
    } else if s[2] != 0 {
        Err(Error::UdpFragmentationUnsupported)
    } else {
        match addr_parse(s, 3) {
            Err(e) => Err(e),
            Ok((a, end)) => Ok((a, s.skip(end))),
        }
    }
}

/// Reading a SOCKSv5 request: version, command, reserved byte, address block.
/// Trailing bytes are ignored.
pub open spec fn request_parse(s: Seq<u8>) -> Result<(Command, AddrView), Error> {
    if s.len() < 1 {
        Err(Error::Truncated)
    } else if s[0] != 5 {
        Err(Error::UnsupportedVersion)
    } else if s.len() < 2 {
        Err(Error::Truncated)
    } else if s[1] != 1 && s[1] != 3 {
        Err(Error::UnknownCommand)
    } else {
        match addr_parse(s, 3) {
            Err(e) => Err(e),
            Ok((a, end)) => Ok(
                (if s[1] == 1 {
                    Command::Connect
                } else {
                    Command::UdpAssoc
                }, a),
            ),
        }
    }
}

/// Reading a SOCKSv5 greeting: version, method count, that many method
/// bytes (whose values are ignored). The result is how many bytes the
/// greeting occupies.
pub open spec fn greeting_parse(s: Seq<u8>) -> Result<int, Error> {
    if s.len() < 1 {
        Err(Error::Truncated)
    } else if s[0] != 5 {
        Err(Error::UnsupportedVersion)
    } else if s.len() < 2 + s[1] {
        Err(Error::Truncated)
    } else {
        Ok(2 + s[1] as int)
    }
}

/// The fixed success reply: version 5, success, reserved, then the loopback
/// placeholder 127.0.0.1:1080 that this implementation always reports.
pub open spec fn ok_reply() -> Seq<u8> {
    seq![5u8, 0u8, 0u8, 1u8, 127u8, 0u8, 0u8, 1u8, 4u8, 56u8]
}

/// Decide whether `b` is well-formed UTF-8: each scalar's leading and
/// continuation bytes shaped as required, no overlong encodings, no
/// surrogates.
#[verifier::loop_isolation(false)]
pub fn is_valid_utf8(b: &[u8]) -> (r: bool)
    ensures
        r == valid_utf8(b@),
{
    let n = b.len();
    let mut pos: usize = 0;
    proof {
        assert(b@.skip(0) =~= b@);
    }
    while pos < n
        invariant
            pos <= n,
            valid_utf8(b@) == valid_utf8(b@.skip(pos as int)),
        decreases n - pos,
    {
        let ghost s = b@.skip(pos as int);
        proof {
            assert(forall|j: int| 0 <= j < s.len() ==> #[trigger] s[j] == b@[pos + j]);
        }
        let c0 = b[pos];
        let len: usize;
        if c0 < 0x80 {
            proof {
                assert(c0 & 0x7f == c0) by (bit_vector)
                    requires
                        c0 < 0x80,
                ;
                assert(valid_first_scalar(s));
                assert(length_of_first_scalar(s) == 1);
            }
            len = 1;
        } else if c0 < 0xc0 {
            // a continuation byte cannot lead a scalar
            proof {
                assert(!valid_leading_and_continuation_bytes_first_codepoint(s));
            }
            return false;
        } else if c0 < 0xe0 {
            if n - pos < 2 || !(0x80 <= b[pos + 1] && b[pos + 1] <= 0xbf) {
                proof {
                    assert(!valid_leading_and_continuation_bytes_first_codepoint(s));
                }
                return false;
            }
            let c1 = b[pos + 1];
            let cp: u32 = (((c0 & 0x1F) as u32) << 6) | ((c1 & 0x3f) as u32);
            proof {
                assert(cp == decode_first_codepoint(s));
                assert(length_of_first_codepoint(s) == 2);
            }
            if cp < 0x80 {
                // overlong: one byte would have sufficed
                return false;
            }
            proof {
                assert(cp <= 0x7ff) by (bit_vector)
                    requires
                        cp == (((c0 & 0x1F) as u32) << 6) | ((c1 & 0x3f) as u32),
                ;
                assert(valid_first_scalar(s));
                assert(length_of_first_scalar(s) == 2);
            }
            len = 2;
        } else if c0 < 0xf0 {
            if n - pos < 3 || !(0x80 <= b[pos + 1] && b[pos + 1] <= 0xbf) || !(0x80 <= b[pos + 2]
                && b[pos + 2] <= 0xbf) {
                proof {
                    assert(!valid_leading_and_continuation_bytes_first_codepoint(s));
                }
                return false;
            }
            let c1 = b[pos + 1];
            let c2 = b[pos + 2];
            let cp: u32 = (((c0 & 0x0F) as u32) << 12) | (((c1 & 0x3f) as u32) << 6) | ((c2
                & 0x3f) as u32);
            proof {
                assert(cp == decode_first_codepoint(s));
                assert(length_of_first_codepoint(s) == 3);
            }
            if cp < 0x800 {
                // overlong: two bytes would have sufficed
                return false;
            }
            if 0xd800 <= cp && cp <= 0xdfff {
                // the surrogate range encodes no scalar
                return false;
            }
            proof {
                assert(valid_first_scalar(s));
                assert(length_of_first_scalar(s) == 3);
            }
            len = 3;
        } else if c0 < 0xf8 {
            if n - pos < 4 || !(0x80 <= b[pos + 1] && b[pos + 1] <= 0xbf) || !(0x80 <= b[pos + 2]
                && b[pos + 2] <= 0xbf) || !(0x80 <= b[pos + 3] && b[pos + 3] <= 0xbf) {
                proof {
                    assert(!valid_leading_and_continuation_bytes_first_codepoint(s));
                }
                return false;
            }
            let c1 = b[pos + 1];
            let c2 = b[pos + 2];
            let c3 = b[pos + 3];
            let cp: u32 = (((c0 & 0x07) as u32) << 18) | (((c1 & 0x3f) as u32) << 12) | (((c2
                & 0x3f) as u32) << 6) | ((c3 & 0x3f) as u32);
            proof {
                assert(cp == decode_first_codepoint(s));
                assert(length_of_first_codepoint(s) == 4);
            }
            if cp < 0x10000 || cp > 0x10ffff {
                // overlong, or beyond the last Unicode scalar
                return false;
            }
            proof {
                assert(valid_first_scalar(s));
                assert(length_of_first_scalar(s) == 4);
            }
            len = 4;
        } else {
            // 0xf8 and above lead nothing in UTF-8
            proof {
                assert(!valid_leading_and_continuation_bytes_first_codepoint(s));
            }
            return false;
        }
        proof {
            assert(pop_first_scalar(s) =~= b@.skip(pos + len));
            assert(valid_utf8(s) == valid_utf8(b@.skip(pos + len)));
        }
        pos = pos + len;
    }
    proof {
        assert(b@.skip(pos as int) =~= Seq::<u8>::empty());
        assert(valid_utf8(Seq::<u8>::empty()));
    }
    true
}

/// Parse one SOCKSv5 address block starting at `b[at]`.
fn parse_addr(b: &[u8], at: usize) -> (r: Result<(Addr, usize), Error>)
    ensures
        match r {
            Ok(p) => {
                &&& addr_parse(b@, at as int) == Ok::<(AddrView, int), Error>((p.0@, p.1 as int))
                &&& at < p.1 <= b@.len()
            },
            Err(e) => addr_parse(b@, at as int) == Err::<(AddrView, int), Error>(e),
        },
{
    if at >= b.len() {
        return Err(Error::Truncated);
    }
    let atyp = b[at];
    if atyp == 1 {
        if b.len() - at < 7 {
            return Err(Error::Truncated);
        }
        let oct = [b[at + 1], b[at + 2], b[at + 3], b[at + 4]];
        let port = (b[at + 5] as u16) * 256 + (b[at + 6] as u16);
        proof {
            assert(oct@ =~= b@.subrange(at + 1, at + 5));
        }
        Ok((Addr::V4(oct, port), at + 7))
    } else if atyp == 4 {
        if b.len() - at < 19 {
            return Err(Error::Truncated);
        }
        let oct = [
            b[at + 1],
            b[at + 2],
            b[at + 3],
            b[at + 4],
            b[at + 5],
            b[at + 6],
            b[at + 7],
            b[at + 8],
            b[at + 9],
            b[at + 10],
            b[at + 11],
            b[at + 12],
            b[at + 13],
            b[at + 14],
            b[at + 15],
            b[at + 16],
        ];
        let port = (b[at + 17] as u16) * 256 + (b[at + 18] as u16);
        proof {
            assert(oct@ =~= b@.subrange(at + 1, at + 17));
        }
        Ok((Addr::V6(oct, port), at + 19))
    } else if atyp == 3 {
        if b.len() - at < 2 {
            return Err(Error::Truncated);
        }
        let n = b[at + 1] as usize;
        if b.len() - at < 4 + n {
            return Err(Error::Truncated);
        }
        let name = slice_to_vec(slice_subrange(b, at + 2, at + 2 + n));
        if !is_valid_utf8(name.as_slice()) {
            return Err(Error::InvalidDomainName);
        }
        let port = (b[at + 2 + n] as u16) * 256 + (b[at + 3 + n] as u16);
        Ok((Addr::Name(name, port), at + 4 + n))
    } else {
        Err(Error::UnknownAddrType)
    }
}

/// Parse a SOCKSv5 UDP envelope into the destination address and the raw
/// payload. A non-zero fragment byte is rejected: fragmented SOCKS UDP is
/// not supported.
pub fn parse_udp(b: &[u8]) -> (r: Result<(Addr, Vec<u8>), Error>)
    ensures
        match r {
            Ok(p) => udp_parse(b@) == Ok::<(AddrView, Seq<u8>), Error>((p.0@, p.1@)),
            Err(e) => udp_parse(b@) == Err::<(AddrView, Seq<u8>), Error>(e),
        },
{
    if b.len() < 3 {
        return Err(Error::Truncated);
    }
    if b[2] != 0 {
        return Err(Error::UdpFragmentationUnsupported);
    }
    match parse_addr(b, 3) {
        Err(e) => Err(e),
        Ok((a, end)) => {
            let data = slice_to_vec(slice_subrange(b, end, b.len()));
            proof {
                assert(b@.skip(end as int) =~= b@.subrange(end as int, b@.len() as int));
            }
            Ok((a, data))
        },
    }
}

/// Parse a SOCKSv5 request: `5`, a command, a reserved byte, an address.
pub fn parse_request(b: &[u8]) -> (r: Result<(Command, Addr), Error>)
    ensures
        match r {
            Ok(p) => request_parse(b@) == Ok::<(Command, AddrView), Error>((p.0, p.1@)),
            Err(e) => request_parse(b@) == Err::<(Command, AddrView), Error>(e),
        },
{
    if b.len() < 1 {
        return Err(Error::Truncated);
    }
    if b[0] != 5 {
        return Err(Error::UnsupportedVersion);
    }
    if b.len() < 2 {
        return Err(Error::Truncated);
    }
    let cmd = if b[1] == 1 {
        Command::Connect
    } else if b[1] == 3 {
        Command::UdpAssoc
    } else {
        return Err(Error::UnknownCommand);
    };
    match parse_addr(b, 3) {
        Err(e) => Err(e),
        Ok((a, _end)) => Ok((cmd, a)),
    }
}

/// Parse a SOCKSv5 greeting and return how many bytes it occupies. The
/// offered method bytes are discarded: only no-auth is ever selected.
pub fn parse_greeting(b: &[u8]) -> (r: Result<usize, Error>)
    ensures
        match r {
            Ok(n) => greeting_parse(b@) == Ok::<int, Error>(n as int) && n <= b@.len(),
            Err(e) => greeting_parse(b@) == Err::<int, Error>(e),
        },
{
    if b.len() < 1 {
        return Err(Error::Truncated);
    }
    if b[0] != 5 {
        return Err(Error::UnsupportedVersion);
    }
    if b.len() < 2 {
        return Err(Error::Truncated);
    }
    let n = b[1] as usize;
    if b.len() - 2 < n {
        return Err(Error::Truncated);
    }
    Ok(2 + n)
}

/// How many bytes of a request remain to be read after its four-byte
/// header: the address and the two port bytes. For a domain, the length
/// byte that follows the header must be passed in `domain_len`; the fixed
/// address types ignore it.
pub fn request_tail_len(atyp: u8, domain_len: u8) -> (r: Result<usize, Error>)
    ensures
        match r {
            Ok(n) => (atyp == 1 && n == 6) || (atyp == 4 && n == 18) || (atyp == 3 && n
                == domain_len + 2),
            Err(e) => e == Error::UnknownAddrType && atyp != 1 && atyp != 3 && atyp != 4,
        },
{
    if atyp == 1 {
        Ok(6)
    } else if atyp == 4 {
        Ok(18)
    } else if atyp == 3 {
        Ok(domain_len as usize + 2)
    } else {
        Err(Error::UnknownAddrType)
    }
}

/// The two-byte method-selection reply: version 5, no authentication.
pub fn method_reply() -> (r: Vec<u8>)
    ensures
        r@ == seq![5u8, 0u8],
{
    let mut out: Vec<u8> = Vec::new();
    out.push(5);
    out.push(0);
    proof {
        assert(out@ =~= seq![5u8, 0u8]);
    }
    out
}

/// Append the fixed SOCKSv5 success reply to `b`.
pub fn write_ok(b: &mut Vec<u8>)
    ensures
        final(b)@ == old(b)@ + ok_reply(),
{
    b.push(5);
    b.push(0);
    b.push(0);
    b.push(1);
    b.push(127);
    b.push(0);
    b.push(0);
    b.push(1);
    b.push(4);
    b.push(56);
    proof {
        assert(b@ =~= old(b)@ + ok_reply());
    }
}

/// The decimal digits of `n`, most significant first, no leading zeros.
pub open spec fn dec_digits(n: nat) -> Seq<u8>
    decreases n,
{
    if n < 10 {
        seq![(48 + n) as u8]
    } else {
        dec_digits(n / 10).push((48 + n % 10) as u8)
    }
}

/// One lowercase hexadecimal digit.
pub open spec fn hex_digit(d: nat) -> u8
    recommends
        d < 16,
{
    if d < 10 {
        (48 + d) as u8
    } else {
        (87 + d) as u8
    }
}

/// The lowercase hexadecimal digits of `n`, most significant first, no
/// leading zeros.
pub open spec fn hex_digits(n: nat) -> Seq<u8>
    decreases n,
{
    if n < 16 {
        seq![hex_digit(n)]
    } else {
        hex_digits(n / 16).push(hex_digit(n % 16))
    }
}

/// The `i`-th 16-bit group of an IPv6 address given as 16 bytes.
pub open spec fn v6_group(o: Seq<u8>, i: int) -> nat
    recommends
        0 <= i < 8,
        o.len() == 16,
{
    (o[2 * i] as nat) * 256 + (o[2 * i + 1] as nat)
}

/// The `host:port` authority form of an address: dotted decimal for IPv4,
/// bracketed full-length hexadecimal groups for IPv6, the name itself for a
/// domain.
pub open spec fn addr_authority(a: AddrView) -> Seq<u8> {
    match a {
        AddrView::V4(o, p) => dec_digits(o[0] as nat) + seq![46u8] + dec_digits(o[1] as nat)
            + seq![46u8] + dec_digits(o[2] as nat) + seq![46u8] + dec_digits(o[3] as nat)
            + seq![58u8] + dec_digits(p as nat),
        AddrView::V6(o, p) => seq![91u8] + hex_digits(v6_group(o, 0)) + seq![58u8] + hex_digits(
            v6_group(o, 1),
        ) + seq![58u8] + hex_digits(v6_group(o, 2)) + seq![58u8] + hex_digits(v6_group(o, 3))
            + seq![58u8] + hex_digits(v6_group(o, 4)) + seq![58u8] + hex_digits(v6_group(o, 5))
            + seq![58u8] + hex_digits(v6_group(o, 6)) + seq![58u8] + hex_digits(v6_group(o, 7))
            + seq![93u8, 58u8] + dec_digits(p as nat),
        AddrView::Name(h, p) => h + seq![58u8] + dec_digits(p as nat),
    }
}

/// Append the decimal digits of `n`.
fn push_dec(b: &mut Vec<u8>, n: u16)
    ensures
        final(b)@ == old(b)@ + dec_digits(n as nat),
    decreases n,
{
    if n >= 10 {
        push_dec(b, n / 10);
    }
    b.push(48 + (n % 10) as u8);
    proof {
        assert(b@ =~= old(b)@ + dec_digits(n as nat));
    }
}

/// Append the lowercase hexadecimal digits of `n`.
fn push_hex(b: &mut Vec<u8>, n: u16)
    ensures
        final(b)@ == old(b)@ + hex_digits(n as nat),
    decreases n,
{
    if n >= 16 {
        push_hex(b, n / 16);
    }
    let d = (n % 16) as u8;
    let c = if d < 10 {
        48 + d
    } else {
        87 + d
    };
    b.push(c);
    proof {
        assert(c == hex_digit((n as nat) % 16));
        assert(b@ =~= old(b)@ + hex_digits(n as nat));
    }
}

impl Addr {
    /// The `host:port` form of this address, as the CONNECT authority wants
    /// it: dotted decimal for IPv4, bracketed hexadecimal for IPv6, the raw
    /// name for a domain.
    #[verifier::rlimit(60)]
    pub fn authority(&self) -> (r: Vec<u8>)
        ensures
            r@ == addr_authority(self@),
    {
        let mut out: Vec<u8> = Vec::new();
        match self {
            Addr::V4(o, p) => {
                push_dec(&mut out, o[0] as u16);
                out.push(46);
                push_dec(&mut out, o[1] as u16);
                out.push(46);
                push_dec(&mut out, o[2] as u16);
                out.push(46);
                push_dec(&mut out, o[3] as u16);
                out.push(58);
                push_dec(&mut out, *p);
                proof {
                    assert(out@ =~= addr_authority(self@));
                }
            },
            Addr::V6(o, p) => {
                out.push(91);
                push_hex(&mut out, (o[0] as u16) * 256 + (o[1] as u16));
                out.push(58);
                push_hex(&mut out, (o[2] as u16) * 256 + (o[3] as u16));
                out.push(58);
                push_hex(&mut out, (o[4] as u16) * 256 + (o[5] as u16));
                out.push(58);
                push_hex(&mut out, (o[6] as u16) * 256 + (o[7] as u16));
                out.push(58);
                push_hex(&mut out, (o[8] as u16) * 256 + (o[9] as u16));
                out.push(58);
                push_hex(&mut out, (o[10] as u16) * 256 + (o[11] as u16));
                out.push(58);
                push_hex(&mut out, (o[12] as u16) * 256 + (o[13] as u16));
                out.push(58);
                push_hex(&mut out, (o[14] as u16) * 256 + (o[15] as u16));
                out.push(93);
                out.push(58);
                push_dec(&mut out, *p);
                proof {
                    assert(out@ =~= addr_authority(self@));
                }
            },
            Addr::Name(h, p) => {
                out.extend_from_slice(h.as_slice());
                out.push(58);
                push_dec(&mut out, *p);
                proof {
                    assert(out@ =~= addr_authority(self@));
                }
            },
        }
        out
    }
}

} // verus!
