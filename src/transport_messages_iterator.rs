use crate::routing_number::RoutingNumber;
use crate::transport_message::{UdpTransportMessage, CURRENT_VERSION};
use crate::{MAX_MESSAGE_SIZE, MAX_PAYLOAD_SIZE};
use vstd::prelude::*;

verus! {

/// Number of fragments for a message of `len` bytes with payloads of at most
/// `payload_size` bytes. A length that is a multiple of the payload size gets an
/// empty last fragment.
pub open spec fn fragment_count(len: nat, payload_size: nat) -> nat {
    len / payload_size + 1
}

/// Payload of fragment `offset` of `data`: a full slice of `payload_size` bytes,
/// or what remains for the last fragment.
pub open spec fn fragment_payload(data: Seq<u8>, payload_size: nat, offset: nat) -> Seq<u8> {
    if offset + 1 == fragment_count(data.len(), payload_size) {
        data.subrange((offset * payload_size) as int, data.len() as int)
    } else {
        data.subrange((offset * payload_size) as int, (offset * payload_size + payload_size) as int)
    }
}

/// Whether a message of `len` bytes can be cut into fragments of `payload_size`.
pub open spec fn can_fragment(len: nat, payload_size: nat) -> bool {
    &&& len <= MAX_MESSAGE_SIZE
    &&& fragment_count(len, payload_size) <= u16::MAX
}

/// Fragment `offset` of the message `data` numbered `routing_number`.
pub open spec fn is_fragment_of(
    m: UdpTransportMessage,
    routing_number: RoutingNumber,
    data: Seq<u8>,
    payload_size: nat,
    offset: nat,
) -> bool {
    &&& m.version == CURRENT_VERSION
    &&& m.routing_number == routing_number
    &&& m.offset == offset
    &&& m.total == fragment_count(data.len(), payload_size)
    &&& m.payload@ == fragment_payload(data, payload_size, offset)
}

/// Why a routing message cannot be fragmented.
#[derive(Debug, Clone, Copy, PartialEq, Eq)]
pub enum TransportError {
    /// Over `MAX_MESSAGE_SIZE` bytes, or more fragments than a `u16` can count.
    MessageLengthExceeded,
}

/// Cuts one encoded routing message into fragments, one at a time.
pub struct TransportMessagesIterator {
    current_routing_number: RoutingNumber,
    offset: u16,
    total: u16,
    payload_size: usize,
    data: Vec<u8>,
}

pub proof fn lemma_fragment_bounds(len: nat, p: nat, offset: nat)
    requires
        p > 0,
        offset < fragment_count(len, p),
    ensures
        offset * p <= len,
        offset + 1 < fragment_count(len, p) ==> offset * p + p <= len,
{
    assert(offset <= len / p);
    assert(offset * p <= (len / p) * p) by (nonlinear_arith)
        requires
            offset <= len / p,
    ;
    assert((len / p) * p <= len) by (nonlinear_arith)
        requires
            p > 0,
    ;
    if offset + 1 < fragment_count(len, p) {
        assert(offset * p + p <= (len / p) * p) by (nonlinear_arith)
            requires
                offset + 1 <= len / p,
        ;
    }
}

impl TransportMessagesIterator {
    pub closed spec fn routing_number(&self) -> RoutingNumber {
        self.current_routing_number
    }

    /// Offset of the next fragment to come out.
    pub closed spec fn next_offset(&self) -> nat {
        self.offset as nat
    }

    pub closed spec fn total_spec(&self) -> nat {
        self.total as nat
    }

    pub closed spec fn payload_size_spec(&self) -> nat {
        self.payload_size as nat
    }

    pub closed spec fn data(&self) -> Seq<u8> {
        self.data@
    }

    /// The fragment count matches the data, and the cursor has not passed it.
    pub closed spec fn wf(&self) -> bool {
        &&& self.payload_size > 0
        &&& can_fragment(self.data@.len(), self.payload_size as nat)
        &&& self.total as nat == fragment_count(self.data@.len(), self.payload_size as nat)
        &&& self.offset <= self.total
    }

    /// Fragments `data` with payloads of at most `MAX_PAYLOAD_SIZE` bytes.
    pub fn new(current_routing_number: RoutingNumber, data: Vec<u8>) -> (r: Result<
        Self,
        TransportError,
    >)
        ensures
            can_fragment(data@.len(), MAX_PAYLOAD_SIZE as nat) <==> r is Ok,
            r matches Ok(it) ==> {
                &&& it.wf()
                &&& it.routing_number() == current_routing_number
                &&& it.data() == data@
                &&& it.payload_size_spec() == MAX_PAYLOAD_SIZE
                &&& it.next_offset() == 0
                &&& it.total_spec() == fragment_count(data@.len(), MAX_PAYLOAD_SIZE as nat)
            },
            r matches Err(e) ==> e == TransportError::MessageLengthExceeded,
    {
        Self::with_payload_size(current_routing_number, data, MAX_PAYLOAD_SIZE)
    }

    /// Fragments `data` with payloads of at most `payload_size` bytes.
    pub fn with_payload_size(
        current_routing_number: RoutingNumber,
        data: Vec<u8>,
        payload_size: usize,
    ) -> (r: Result<Self, TransportError>)
        requires
            payload_size > 0,
        ensures
            can_fragment(data@.len(), payload_size as nat) <==> r is Ok,
            r matches Ok(it) ==> {
                &&& it.wf()
                &&& it.routing_number() == current_routing_number
                &&& it.data() == data@
                &&& it.payload_size_spec() == payload_size
                &&& it.next_offset() == 0
                &&& it.total_spec() == fragment_count(data@.len(), payload_size as nat)
            },
            r matches Err(e) ==> e == TransportError::MessageLengthExceeded,
    {
        if data.len() > MAX_MESSAGE_SIZE {
            return Err(TransportError::MessageLengthExceeded);
        }
        let total = data.len() / payload_size + 1;
        if total > u16::MAX as usize {
            return Err(TransportError::MessageLengthExceeded);
        }
        Ok(TransportMessagesIterator {
            current_routing_number,
            offset: 0,
            total: total as u16,
            payload_size,
            data,
        })
    }

    /// Number of fragments of the message.
    pub fn total(&self) -> (r: u16)
        ensures
            r == self.total_spec(),
    {
        self.total
    }

    /// The next fragment, or `None` once all of them have come out.
    pub fn next(&mut self) -> (r: Option<UdpTransportMessage>)
        requires
            old(self).wf(),
        ensures
            final(self).wf(),
            final(self).routing_number() == old(self).routing_number(),
            final(self).data() == old(self).data(),
            final(self).payload_size_spec() == old(self).payload_size_spec(),
            final(self).total_spec() == old(self).total_spec(),
            old(self).next_offset() == old(self).total_spec() ==> r is None && *final(self)
                == *old(self),
            old(self).next_offset() < old(self).total_spec() ==> {
                &&& final(self).next_offset() == old(self).next_offset() + 1
                &&& r matches Some(m) && is_fragment_of(
                    m,
                    old(self).routing_number(),
                    old(self).data(),
                    old(self).payload_size_spec(),
                    old(self).next_offset(),
                )
            },
    {
        if self.offset == self.total {
            return None;
        }
        proof {
            lemma_fragment_bounds(
                self.data@.len(),
                self.payload_size as nat,
                self.offset as nat,
            );
        }
        let data_offset_begin = (self.offset as usize) * self.payload_size;
        let data_offset_end = if self.offset + 1 == self.total {
            self.data.len()
        } else {
            data_offset_begin + self.payload_size
        };
        let mut payload: Vec<u8> = Vec::new();
        let mut i: usize = data_offset_begin;
        while i < data_offset_end
            invariant
                data_offset_begin <= i <= data_offset_end <= self.data@.len(),
                payload@ == self.data@.subrange(data_offset_begin as int, i as int),
            decreases data_offset_end - i,
        {
            payload.push(self.data[i]);
            i += 1;
        }
        let part = UdpTransportMessage::new(
            CURRENT_VERSION,
            self.current_routing_number,
            self.offset,
            self.total,
            payload,
        );
        self.offset += 1;
        Some(part)
    }

    /// All the fragments that are still to come, in order.
    pub fn collect_remaining(&mut self) -> (r: Vec<UdpTransportMessage>)
        requires
            old(self).wf(),
        ensures
            final(self).wf(),
            final(self).next_offset() == final(self).total_spec(),
            final(self).total_spec() == old(self).total_spec(),
            r@.len() == old(self).total_spec() - old(self).next_offset(),
            forall|i: int|
                0 <= i < r@.len() ==> is_fragment_of(
                    #[trigger] r@[i],
                    old(self).routing_number(),
                    old(self).data(),
                    old(self).payload_size_spec(),
                    (old(self).next_offset() + i) as nat,
                ),
    {
        let mut r: Vec<UdpTransportMessage> = Vec::new();
        while self.offset < self.total
            invariant
                self.wf(),
                self.routing_number() == old(self).routing_number(),
                self.data() == old(self).data(),
                self.payload_size_spec() == old(self).payload_size_spec(),
                self.total_spec() == old(self).total_spec(),
                old(self).next_offset() <= self.next_offset(),
                r@.len() == self.next_offset() - old(self).next_offset(),
                forall|i: int|
                    0 <= i < r@.len() ==> is_fragment_of(
                        #[trigger] r@[i],
                        old(self).routing_number(),
                        old(self).data(),
                        old(self).payload_size_spec(),
                        (old(self).next_offset() + i) as nat,
                    ),
            decreases self.total - self.offset,
        {
            let m = self.next();
            match m {
                Some(m) => r.push(m),
                None => {},
            }
        }
        r
    }
}

} // verus!
