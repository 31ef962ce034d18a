//! The joiner's computational core: the hop list it keeps a circuit over,
//! the screening of local SOCKS UDP datagrams, and the MASQUE URI written
//! for each extended CONNECT. Opening the nested HTTP/2 sessions and moving
//! the bytes is I/O and lives outside the verified core.

use vstd::prelude::*;

use crate::error::Error;
use crate::proto::UDP_MAX;
use crate::server::{lemma_find_byte, find_byte, masque_parse, masque_prefix};
use crate::socks::{addr_authority, dec_digits, parse_udp, udp_parse, Addr, AddrView};

verus! {

/// The hop list of a circuit, nearest relay first. A circuit always has at
/// least one hop.
pub struct Circuit {
    hops: Vec<Addr>,
}

impl View for Circuit {
    type V = Seq<AddrView>;

    closed spec fn view(&self) -> Seq<AddrView> {
        self.hops@.map_values(|a: Addr| a@)
    }
}

impl Circuit {
    #[verifier::type_invariant]
    spec fn at_least_one_hop(self) -> bool {
        self.hops@.len() >= 1
    }

    /// Make a circuit over `hops`; an empty hop list is a configuration
    /// error.
    pub fn new(hops: Vec<Addr>) -> (r: Result<Circuit, Error>)
        ensures
            match r {
                Ok(c) => hops@.len() >= 1 && c@ == hops@.map_values(|a: Addr| a@),
                Err(e) => e == Error::NoHops && hops@.len() == 0,
            },
    {
        if hops.len() == 0 {
            Err(Error::NoHops)
        } else {
            Ok(Circuit { hops })
        }
    }

    /// How many hops the circuit has: always at least one.
    pub fn len(&self) -> (n: usize)
        ensures
            n == self@.len(),
            n >= 1,
    {
        proof {
            use_type_invariant(self);
        }
        self.hops.len()
    }

    /// The `i`-th hop, nearest first.
    pub fn hop(&self, i: usize) -> (a: &Addr)
        requires
            i < self@.len(),
        ensures
            a@ == self@[i as int],
    {
        &self.hops[i]
    }

    /// The terminal hop: the relay whose name the MASQUE URIs carry.
    pub fn last(&self) -> (a: &Addr)
        ensures
            a@ == self@[self@.len() - 1],
    {
        proof {
            use_type_invariant(self);
        }
        &self.hops[self.hops.len() - 1]
    }
}

/// `s` with every colon replaced by a slash: how a `host:port` target is
/// written into a MASQUE path.
pub open spec fn slashed(s: Seq<u8>) -> Seq<u8> {
    s.map_values(|b: u8| if b == 58 { 47u8 } else { b })
}

/// The URI of an extended CONNECT for UDP: scheme and terminal relay, the
/// MASQUE prefix, then the target with its colon turned into a slash, and a
/// trailing slash.
pub open spec fn masque_uri_spec(relay: Seq<u8>, target: Seq<u8>) -> Seq<u8> {
    seq![104u8, 116u8, 116u8, 112u8, 115u8, 58u8, 47u8, 47u8] + relay + masque_prefix() + slashed(
        target,
    ) + seq![47u8]
}

/// Write the MASQUE URI for tunneling UDP to `target` through `relay`.
/// `relay` is the terminal relay in `host:port` form; `target` likewise.
#[verifier::loop_isolation(false)]
pub fn masque_uri(relay: &[u8], target: &[u8]) -> (r: Vec<u8>)
    ensures
        r@ == masque_uri_spec(relay@, target@),
{
    let mut out: Vec<u8> = Vec::new();
    out.push(104);
    out.push(116);
    out.push(116);
    out.push(112);
    out.push(115);
    out.push(58);
    out.push(47);
    out.push(47);
    out.extend_from_slice(relay);
    let prefix: [u8; 24] = [
        47, 46, 119, 101, 108, 108, 45, 107, 110, 111, 119, 110, 47, 109, 97, 115, 113, 117, 101,
        47, 117, 100, 112, 47,
    ];
    proof {
        assert(prefix@ =~= masque_prefix());
    }
    out.extend_from_slice(prefix.as_slice());
    let ghost base = out@;
    let mut i: usize = 0;
    while i < target.len()
        invariant
            i <= target@.len(),
            out@ == base + slashed(target@).take(i as int),
        decreases target@.len() - i,
    {
        let b = target[i];
        out.push(if b == 58 {
            47
        } else {
            b
        });
        proof {
            assert(out@ =~= base + slashed(target@).take(i + 1));
        }
        i += 1;
    }
    out.push(47);
    proof {
        assert(slashed(target@).take(target@.len() as int) =~= slashed(target@));
        assert(out@ =~= masque_uri_spec(relay@, target@));
    }
    out
}

/// One datagram received on the local SOCKS UDP socket: payloads over the
/// RFC 9298 maximum are refused outright, everything else is read as a SOCKS
/// UDP envelope.
pub open spec fn datagram_spec(s: Seq<u8>) -> Result<(AddrView, Seq<u8>), Error> {
    if s.len() > UDP_MAX {
        Err(Error::OversizeDatagram)
    } else {
        udp_parse(s)
    }
}

/// Screen one local UDP datagram: drop it when oversize, otherwise parse its
/// SOCKS envelope into the target address and the raw payload.
pub fn accept_datagram(b: &[u8]) -> (r: Result<(Addr, Vec<u8>), Error>)
    ensures
        match r {
            Ok(p) => datagram_spec(b@) == Ok::<(AddrView, Seq<u8>), Error>((p.0@, p.1@)),
            Err(e) => datagram_spec(b@) == Err::<(AddrView, Seq<u8>), Error>(e),
        },
{
    if b.len() > UDP_MAX {
        return Err(Error::OversizeDatagram);
    }
    parse_udp(b)
}


/// The joiner and the relay agree: for any target of the form
/// `host:port` whose two parts are free of colons and slashes, the path the
/// joiner writes into its MASQUE URI parses back, at the relay, to exactly
/// that target. (An IPv6 literal is no such target: the colons inside its
/// brackets are rewritten to slashes as well.)
pub proof fn lemma_masque_uri_round_trip(relay: Seq<u8>, host: Seq<u8>, port: Seq<u8>)
    requires
        host.len() > 0,
        port.len() > 0,
        forall|i: int| 0 <= i < host.len() ==> host[i] != 58 && host[i] != 47,
        forall|i: int| 0 <= i < port.len() ==> port[i] != 58 && port[i] != 47,
    ensures
        ({
            let target = host + seq![58u8] + port;
            let path = masque_uri_spec(relay, target).skip(8 + relay.len() as int);
            masque_parse(path) == Ok::<Seq<u8>, Error>(target)
        }),
{
    let target = host + seq![58u8] + port;
    let path = masque_uri_spec(relay, target).skip(8 + relay.len() as int);
    assert(slashed(target) =~= host + seq![47u8] + port);
    assert(path =~= masque_prefix() + (host + seq![47u8] + port) + seq![47u8]);
    assert(path.last() == 47);
    let t = path.drop_last();
    assert(t =~= masque_prefix() + (host + seq![47u8] + port));
    assert(t.len() == 24 + host.len() + 1 + port.len());
    assert(t.take(24) =~= masque_prefix());
    let rest = t.skip(24);
    assert(rest =~= host + seq![47u8] + port);
    assert(rest[host.len() as int] == 47);
    lemma_find_byte(rest, 47);
    match find_byte(rest, 47) {
        None => {
            assert(false);
        },
        Some(i) => {
            assert(i == host.len()) by {
                if i < host.len() {
                    assert(rest[i] == host[i]);
                }
                if i > host.len() {
                    assert(rest[host.len() as int] != 47);
                }
            }
            assert(rest.take(i) =~= host);
            assert(rest.skip(i + 1) =~= port);
            lemma_find_byte(port, 47);
            match find_byte(port, 47) {
                Some(k) => {
                    assert(false);
                },
                None => {},
            }
            assert(masque_parse(path) == Ok::<Seq<u8>, Error>(host + seq![58u8] + port));
        },
    }
}

proof fn lemma_dec_digits_bounds(n: nat)
    ensures
        forall|i: int|
            0 <= i < dec_digits(n).len() ==> 48 <= #[trigger] dec_digits(n)[i] <= 57,
    decreases n,
{
    if n >= 10 {
        lemma_dec_digits_bounds(n / 10);
        assert(forall|i: int|
            0 <= i < dec_digits(n / 10).len() ==> #[trigger] dec_digits(n)[i] == dec_digits(
                n / 10,
            )[i]);
    }
}

/// The joiner and the relay agree on every UDP target the joiner can name:
/// for an IPv4 address, and for a domain name free of colons and slashes,
/// the MASQUE path written for the address's `host:port` form parses back to
/// exactly that form at the relay.
pub proof fn lemma_authority_masque_round_trip(relay: Seq<u8>, a: AddrView)
    requires
        match a {
            AddrView::V4(o, _) => o.len() == 4,
            AddrView::V6(_, _) => false,
            AddrView::Name(h, _) => h.len() > 0 && (forall|i: int|
                0 <= i < h.len() ==> h[i] != 58 && h[i] != 47),
        },
    ensures
        ({
            let target = addr_authority(a);
            let path = masque_uri_spec(relay, target).skip(8 + relay.len() as int);
            masque_parse(path) == Ok::<Seq<u8>, Error>(target)
        }),
{
    match a {
        AddrView::V4(o, p) => {
            let host = dec_digits(o[0] as nat) + seq![46u8] + dec_digits(o[1] as nat)
                + seq![46u8] + dec_digits(o[2] as nat) + seq![46u8] + dec_digits(o[3] as nat);
            let port = dec_digits(p as nat);
            lemma_dec_digits_bounds(o[0] as nat);
            lemma_dec_digits_bounds(o[1] as nat);
            lemma_dec_digits_bounds(o[2] as nat);
            lemma_dec_digits_bounds(o[3] as nat);
            lemma_dec_digits_bounds(p as nat);
            assert(forall|i: int| 0 <= i < host.len() ==> #[trigger] host[i] != 58 && host[i] != 47);
            assert(addr_authority(a) =~= host + seq![58u8] + port);
            lemma_masque_uri_round_trip(relay, host, port);
        },
        AddrView::V6(_, _) => {},
        AddrView::Name(h, p) => {
            let port = dec_digits(p as nat);
            lemma_dec_digits_bounds(p as nat);
            assert(addr_authority(a) =~= h + seq![58u8] + port);
            lemma_masque_uri_round_trip(relay, h, port);
        },
    }
}

} // verus!
