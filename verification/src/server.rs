//! The relay's request handling: deciding what an incoming CONNECT asks for.
//!
//! A relay accepts only CONNECT. A request carrying the extended-CONNECT
//! protocol `connect-udp` names its target in the URI path
//! `/.well-known/masque/udp/{host}/{port}/`; a plain CONNECT names it in the
//! authority. The listener, dialing and splicing around this decision are
//! I/O and live outside the verified core.

use vstd::prelude::*;

use crate::error::Error;
use vstd::slice::{slice_subrange, slice_to_vec};

verus! {

/// The byte string `/.well-known/masque/udp/`.
pub open spec fn masque_prefix() -> Seq<u8> {
    seq![
        47u8, 46u8, 119u8, 101u8, 108u8, 108u8, 45u8, 107u8, 110u8, 111u8, 119u8, 110u8, 47u8,
        109u8, 97u8, 115u8, 113u8, 117u8, 101u8, 47u8, 117u8, 100u8, 112u8, 47u8,
    ]
}

/// The first position of `c` in `s`, if any.
pub open spec fn find_byte(s: Seq<u8>, c: u8) -> Option<int>
    decreases s.len(),
{
    if s.len() == 0 {
        None
    } else if s[0] == c {
        Some(0)
    } else {
        match find_byte(s.skip(1), c) {
            None => None,
            Some(i) => Some(i + 1),
        }
    }
}

pub(crate) proof fn lemma_find_byte(s: Seq<u8>, c: u8)
    ensures
        match find_byte(s, c) {
            Some(i) => 0 <= i < s.len() && s[i] == c && (forall|j: int| 0 <= j < i ==> s[j] != c),
            None => forall|j: int| 0 <= j < s.len() ==> s[j] != c,
        },
    decreases s.len(),
{
    if s.len() > 0 && s[0] != c {
        lemma_find_byte(s.skip(1), c);
        assert(forall|j: int| 1 <= j < s.len() ==> #[trigger] s[j] == s.skip(1)[j - 1]);
    }
}

/// Reading a MASQUE UDP path: after the fixed prefix, exactly one non-empty
/// host segment and one non-empty port segment, with at most one trailing
/// slash. The result is the target in `host:port` form.
pub open spec fn masque_parse(s: Seq<u8>) -> Result<Seq<u8>, Error> {
    let t = if s.len() > 0 && s.last() == 47 {
        s.drop_last()
    } else {
        s
    };
    if t.len() <= 24 || t.take(24) != masque_prefix() {
        Err(Error::MalformedMasqueUri)
    } else {
        let rest = t.skip(24);
        match find_byte(rest, 47) {
            None => Err(Error::MalformedMasqueUri),
            Some(i) => {
                let host = rest.take(i);
                let port = rest.skip(i + 1);
                if host.len() == 0 || port.len() == 0 || find_byte(port, 47) is Some {
                    Err(Error::MalformedMasqueUri)
                } else {
                    Ok(host + seq![58u8] + port)
                }
            },
        }
    }
}

/// The first position of `/` in `b`, if any.
fn find_slash(b: &[u8]) -> (r: Option<usize>)
    ensures
        match r {
            Some(i) => find_byte(b@, 47) == Some(i as int),
            None => find_byte(b@, 47) is None,
        },
{
    let mut k: usize = 0;
    while k < b.len()
        invariant
            k <= b@.len(),
            forall|j: int| 0 <= j < k ==> b@[j] != 47,
        decreases b@.len() - k,
    {
        if b[k] == 47 {
            proof {
                lemma_find_byte(b@, 47);
            }
            return Some(k);
        }
        k += 1;
    }
    proof {
        lemma_find_byte(b@, 47);
    }
    None
}

/// Extract the `host:port` target from a MASQUE UDP path, splitting from the
/// right: the last two segments after the fixed prefix are host and port. A
/// missing trailing slash is accepted; empty or extra segments are not.
#[verifier::loop_isolation(false)]
pub fn udp_addr_from_path(path: &[u8]) -> (r: Result<Vec<u8>, Error>)
    ensures
        match r {
            Ok(v) => masque_parse(path@) == Ok::<Seq<u8>, Error>(v@),
            Err(e) => masque_parse(path@) == Err::<Seq<u8>, Error>(e),
        },
{
    let t_len = if path.len() > 0 && path[path.len() - 1] == 47 {
        path.len() - 1
    } else {
        path.len()
    };
    let t = slice_subrange(path, 0, t_len);
    proof {
        if path@.len() > 0 && path@.last() == 47 {
            assert(t@ =~= path@.drop_last());
        } else {
            assert(t@ =~= path@);
        }
    }
    if t.len() <= 24 {
        return Err(Error::MalformedMasqueUri);
    }
    let prefix: [u8; 24] = [
        47, 46, 119, 101, 108, 108, 45, 107, 110, 111, 119, 110, 47, 109, 97, 115, 113, 117, 101,
        47, 117, 100, 112, 47,
    ];
    proof {
        assert(prefix@ =~= masque_prefix());
    }
    let mut i: usize = 0;
    while i < 24
        invariant
            i <= 24,
            t@.len() > 24,
            prefix@ =~= masque_prefix(),
            forall|j: int| 0 <= j < i ==> t@[j] == masque_prefix()[j],
        decreases 24 - i,
    {
        if t[i] != prefix[i] {
            proof {
                assert(t@.take(24)[i as int] != masque_prefix()[i as int]);
            }
            return Err(Error::MalformedMasqueUri);
        }
        i += 1;
    }
    proof {
        assert(t@.take(24) =~= masque_prefix());
    }
    let rest = slice_subrange(t, 24, t.len());
    proof {
        assert(rest@ =~= t@.skip(24));
    }
    let slash = match find_slash(rest) {
        None => {
            return Err(Error::MalformedMasqueUri);
        },
        Some(s) => s,
    };
    proof {
        lemma_find_byte(rest@, 47);
    }
    if slash == 0 {
        return Err(Error::MalformedMasqueUri);
    }
    if slash + 1 == rest.len() {
        return Err(Error::MalformedMasqueUri);
    }
    let port = slice_subrange(rest, slash + 1, rest.len());
    proof {
        assert(port@ =~= rest@.skip(slash + 1));
    }
    match find_slash(port) {
        Some(_) => Err(Error::MalformedMasqueUri),
        None => {
            let mut out = slice_to_vec(slice_subrange(rest, 0, slash));
            out.push(58);
            out.extend_from_slice(port);
            proof {
                assert(out@ =~= rest@.take(slash as int) + seq![58u8] + rest@.skip(slash + 1));
            }
            Ok(out)
        },
    }
}

/// Where one relay request should go.
#[derive(Clone, Debug, PartialEq, Eq)]
pub enum Route {
    /// Dial this `host:port` by TCP and splice.
    Tcp(Vec<u8>),
    /// Bind a UDP socket connected to this `host:port` and relay capsules.
    Udp(Vec<u8>),
}

/// The mathematical shape of a [`Route`].
pub enum RouteView {
    Tcp(Seq<u8>),
    Udp(Seq<u8>),
}

impl View for Route {
    type V = RouteView;

    open spec fn view(&self) -> RouteView {
        match self {
            Route::Tcp(a) => RouteView::Tcp(a@),
            Route::Udp(a) => RouteView::Udp(a@),
        }
    }
}

/// An optional byte string, as the contract sees it.
pub open spec fn opt_bytes(a: Option<&[u8]>) -> Option<Seq<u8>> {
    match a {
        Some(x) => Some(x@),
        None => None,
    }
}

/// What a relay does with one request: only CONNECT is served; extended
/// CONNECT with `connect-udp` goes by its MASQUE path, plain CONNECT by its
/// authority.
pub open spec fn route_spec(
    is_connect: bool,
    is_connect_udp: bool,
    path: Seq<u8>,
    authority: Option<Seq<u8>>,
) -> Result<RouteView, Error> {
    if !is_connect {
        Err(Error::MethodNotAllowed)
    } else if is_connect_udp {
        match masque_parse(path) {
            Err(e) => Err(e),
            Ok(t) => Ok(RouteView::Udp(t)),
        }
    } else {
        match authority {
            None => Err(Error::MissingAuthority),
            Some(a) => Ok(RouteView::Tcp(a)),
        }
    }
}

/// Decide what one relay request asks for. `is_connect` says whether the
/// method was CONNECT, `is_connect_udp` whether the request carried the
/// extended-CONNECT protocol `connect-udp`; `path` is the URI path and
/// `authority` the URI authority, when present.
pub fn route_request(
    is_connect: bool,
    is_connect_udp: bool,
    path: &[u8],
    authority: Option<&[u8]>,
) -> (r: Result<Route, Error>)
    ensures
        match r {
            Ok(rt) => route_spec(is_connect, is_connect_udp, path@, opt_bytes(authority))
                == Ok::<RouteView, Error>(rt@),
            Err(e) => route_spec(is_connect, is_connect_udp, path@, opt_bytes(authority))
                == Err::<RouteView, Error>(e),
        },
{
    if !is_connect {
        return Err(Error::MethodNotAllowed);
    }
    if is_connect_udp {
        match udp_addr_from_path(path) {
            Err(e) => Err(e),
            Ok(t) => Ok(Route::Udp(t)),
        }
    } else {
        match authority {
            None => Err(Error::MissingAuthority),
            Some(a) => Ok(Route::Tcp(slice_to_vec(a))),
        }
    }
}

} // verus!
