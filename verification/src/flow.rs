//! Flow identification: the directional 5-tuple under which byte counts
//! are accumulated.
use vstd::prelude::*;

verus! {

/// The transport protocol of a flow. Only TCP and UDP flows are counted;
/// frames carrying anything else are dropped by the decoder.
#[derive(Clone, Copy, Debug, PartialEq, Eq, Structural, Hash)]
pub enum Proto {
    Tcp,
    Udp,
}

/// A directional flow key: protocol, source and destination IPv4 address
/// (as big-endian 32-bit values) and source and destination port.
/// A→B and B→A are distinct keys; no bidirectional merging occurs.
#[derive(Clone, Copy, Debug, PartialEq, Eq, Structural, Hash)]
pub struct FlowKey {
    pub proto: Proto,
    pub src_addr: u32,
    pub dst_addr: u32,
    pub src_port: u16,
    pub dst_port: u16,
}

impl FlowKey {
    pub fn new(proto: Proto, src_addr: u32, dst_addr: u32, src_port: u16, dst_port: u16) -> (k:
        FlowKey)
        ensures
            k == (FlowKey { proto, src_addr, dst_addr, src_port, dst_port }),
    {
        FlowKey { proto, src_addr, dst_addr, src_port, dst_port }
    }
}

} // verus!
