//! Shared protocol labels: the transport names and the header names that
//! carry a tunnel's target and a refusal's reason.

use vstd::prelude::*;

verus! {

pub const TCP: &'static str = "tcp";

pub const UDP: &'static str = "udp";

pub const PREFIX: &'static str = "wireskip";

pub const TARGET: &'static str = "wireskip-target";

pub const REASON: &'static str = "wireskip-reason";

} // verus!
