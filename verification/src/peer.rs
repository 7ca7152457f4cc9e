use vstd::prelude::*;

verus! {

/// A peer as a tracker reports it: an IPv4 address and a TCP port,
/// packed big-endian into six bytes on the wire.
#[derive(Debug, PartialEq, Eq, Structural, Clone, Copy)]
pub struct Peer {
    pub ip: u32,
    pub port: u16,
}

impl Peer {
    /// How many bytes one packed peer entry occupies.
    pub fn size() -> (n: usize)
        ensures
            n == 6,
    {
        6
    }
}

} // verus!
