use vstd::prelude::*;

verus! {

/// A peer's socket address, held as plain values: an IPv4 address and a port.
#[derive(Clone, Copy, PartialEq, Eq, PartialOrd, Ord, Structural, Debug)]
pub struct PeerAddress {
    pub ip: u32,
    pub port: u16,
}

impl PeerAddress {
    pub fn new(ip: u32, port: u16) -> (r: PeerAddress)
        ensures
            r.ip == ip,
            r.port == port,
    {
        PeerAddress { ip, port }
    }
}

} // verus!
