use crate::routing_number::RoutingNumber;
use vstd::prelude::*;

verus! {

/// Version tag that this library writes into every fragment.
pub const CURRENT_VERSION: u8 = 1;

/// One fragment of a routing message, sent as one datagram.
#[derive(Debug, Clone, PartialEq, Eq)]
pub struct UdpTransportMessage {
    pub version: u8,
    pub routing_number: RoutingNumber,
    /// Zero-based index of this fragment.
    pub offset: u16,
    /// Number of fragments of the whole routing message.
    pub total: u16,
    pub payload: Vec<u8>,
}

impl UdpTransportMessage {
    pub fn new(
        version: u8,
        routing_number: RoutingNumber,
        offset: u16,
        total: u16,
        payload: Vec<u8>,
    ) -> (r: Self)
        ensures
            r.version == version,
            r.routing_number == routing_number,
            r.offset == offset,
            r.total == total,
            r.payload@ == payload@,
    {
        UdpTransportMessage { version, routing_number, offset, total, payload }
    }
}

} // verus!
