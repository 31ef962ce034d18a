//! Error kinds shared by the codec and routing layers.

use vstd::prelude::*;

verus! {

/// Everything that can go wrong inside the verified core. Network failures
/// are handled by the I/O layer and never reach these functions.
#[derive(Clone, Copy, Debug, PartialEq, Eq, Structural)]
pub enum Error {
    /// The SOCKS version byte was not 0x05.
    UnsupportedVersion,
    /// The SOCKS command byte was neither CONNECT nor UDP-ASSOCIATE.
    UnknownCommand,
    /// The SOCKS address-type byte was none of IPv4, IPv6 or domain.
    UnknownAddrType,
    /// A SOCKS domain name whose bytes are not valid UTF-8.
    InvalidDomainName,
    /// A SOCKS UDP envelope carried a non-zero fragment byte.
    UdpFragmentationUnsupported,
    /// A relay request used a method other than CONNECT.
    MethodNotAllowed,
    /// A plain CONNECT carried no authority to dial.
    MissingAuthority,
    /// A connect-udp URI path was not `/.well-known/masque/udp/{host}/{port}/`.
    MalformedMasqueUri,
    /// A capsule's type varint was not zero.
    UnrecognizedCapsuleType,
    /// A varint encoder input was 2^62 or larger.
    OutOfRange,
    /// A UDP payload longer than the RFC 9298 maximum of 65527 bytes.
    OversizeDatagram,
    /// The input ended before the frame it announced was complete.
    Truncated,
    /// A circuit was configured with no hops at all.
    NoHops,
}

impl Error {
    /// A short human-readable description, for the unverified I/O layer to log.
    pub fn describe(&self) -> &'static str {
        match self {
            Error::UnsupportedVersion => "unsupported SOCKS version",
            Error::UnknownCommand => "unknown SOCKS command",
            Error::UnknownAddrType => "unknown SOCKS address type",
            Error::InvalidDomainName => "domain name is not valid UTF-8",
            Error::UdpFragmentationUnsupported => "fragmented UDP messages are not supported",
            Error::MethodNotAllowed => "wrong method",
            Error::MissingAuthority => "missing :authority:",
            Error::MalformedMasqueUri => "malformed URI path fragments",
            Error::UnrecognizedCapsuleType => "unrecognized capsule type",
            Error::OutOfRange => "out of range",
            Error::OversizeDatagram => "oversize UDP datagram",
            Error::Truncated => "truncated input",
            Error::NoHops => "at least one hop is required",
        }
    }
}

} // verus!
