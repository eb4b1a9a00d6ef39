use crate::routing_number::RoutingNumber;
use crate::transport_message::UdpTransportMessage;
use vstd::prelude::*;

verus! {

/// Number of `false` entries: offsets that have not arrived yet.
pub open spec fn count_missing(received: Seq<bool>) -> nat
    decreases received.len(),
{
    if received.len() == 0 {
        0
    } else {
        count_missing(received.drop_last()) + if received.last() {
            0nat
        } else {
            1nat
        }
    }
}

/// The bytes of an optional buffer.
pub open spec fn bytes_of(o: Option<Vec<u8>>) -> Option<Seq<u8>> {
    match o {
        Some(v) => Some(v@),
        None => None,
    }
}

/// Every offset has arrived.
pub open spec fn all_received(received: Seq<bool>) -> bool {
    forall|i: int| 0 <= i < received.len() ==> #[trigger] received[i]
}

/// `binary` with `payload` copied in at `begin`, first grown with zeros to reach
/// the end of the payload where it is shorter.
pub open spec fn place(binary: Seq<u8>, begin: nat, payload: Seq<u8>) -> Seq<u8> {
    let end = begin + payload.len();
    let len = if binary.len() < end {
        end
    } else {
        binary.len()
    };
    Seq::new(
        len,
        |i: int|
            if begin <= i < end {
                payload[i - begin]
            } else if i < binary.len() {
                binary[i]
            } else {
                0u8
            },
    )
}

/// What a reassembler holds: the fragment count, which offsets have arrived,
/// the bytes placed so far, and the last fragment, kept apart until the rest
/// is in place.
pub struct ReassemblyState {
    pub routing_number: RoutingNumber,
    pub total: u16,
    pub received: Seq<bool>,
    pub binary: Seq<u8>,
    pub last_part: Option<Seq<u8>>,
}

/// Once every offset has arrived, the last part goes after the other bytes and
/// the whole message comes out.
pub open spec fn finish(s: ReassemblyState) -> (ReassemblyState, Option<Seq<u8>>) {
    if all_received(s.received) {
        let binary = match s.last_part {
            Some(last) => s.binary + last,
            None => s.binary,
        };
        (ReassemblyState { binary, last_part: None, ..s }, Some(binary))
    } else {
        (s, None)
    }
}

/// The effect of one fragment on a reassembler, and what comes out. A fragment
/// with another total, an offset out of range or an offset already received
/// changes nothing. A fragment other than the last is copied in at its offset
/// times its own length.
pub open spec fn absorb_spec(s: ReassemblyState, m: UdpTransportMessage) -> (
    ReassemblyState,
    Option<Seq<u8>>,
) {
    if m.total != s.total || m.offset >= s.total || s.received[m.offset as int] {
        (s, None)
    } else {
        let received = s.received.update(m.offset as int, true);
        if m.offset + 1 != s.total {
            let binary = place(s.binary, (m.offset * m.payload@.len()) as nat, m.payload@);
            finish(ReassemblyState { received, binary, ..s })
        } else if s.last_part is Some {
            (ReassemblyState { received, ..s }, None)
        } else {
            finish(ReassemblyState { received, last_part: Some(m.payload@), ..s })
        }
    }
}

pub proof fn lemma_count_missing_none(received: Seq<bool>)
    requires
        forall|i: int| 0 <= i < received.len() ==> !#[trigger] received[i],
    ensures
        count_missing(received) == received.len(),
    decreases received.len(),
{
    if received.len() > 0 {
        lemma_count_missing_none(received.drop_last());
    }
}

pub proof fn lemma_count_missing_zero(received: Seq<bool>)
    ensures
        count_missing(received) == 0 <==> all_received(received),
    decreases received.len(),
{
    if received.len() > 0 {
        lemma_count_missing_zero(received.drop_last());
        if !received.last() {
            assert(!received[received.len() - 1]);
        }
        if all_received(received) {
            assert(all_received(received.drop_last()));
        }
        if count_missing(received) == 0 {
            assert forall|i: int| 0 <= i < received.len() implies #[trigger] received[i] by {
                if i < received.len() - 1 {
                    assert(received.drop_last()[i] == received[i]);
                }
            }
        }
    }
}

pub proof fn lemma_count_missing_update(received: Seq<bool>, k: int)
    requires
        0 <= k < received.len(),
        !received[k],
    ensures
        count_missing(received.update(k, true)) + 1 == count_missing(received),
    decreases received.len(),
{
    let u = received.update(k, true);
    if k < received.len() - 1 {
        assert(u.drop_last() =~= received.drop_last().update(k, true));
        lemma_count_missing_update(received.drop_last(), k);
    } else {
        assert(u.drop_last() =~= received.drop_last());
    }
}

/// Reassembles one routing message from its fragments.
pub struct PendingMessage {
    routing_number: RoutingNumber,
    total: u16,
    received: Vec<bool>,
    missing: u16,
    binary: Vec<u8>,
    last_part: Option<Vec<u8>>,
}

impl View for PendingMessage {
    type V = ReassemblyState;

    closed spec fn view(&self) -> ReassemblyState {
        ReassemblyState {
            routing_number: self.routing_number,
            total: self.total,
            received: self.received@,
            binary: self.binary@,
            last_part: match self.last_part {
                Some(v) => Some(v@),
                None => None,
            },
        }
    }
}

impl PendingMessage {
    /// One flag per fragment, and the count of missing ones kept in step.
    pub closed spec fn wf(&self) -> bool {
        &&& self.received@.len() == self.total
        &&& self.missing == count_missing(self.received@)
    }

    /// A reassembler for `total` fragments of message `routing_number`, that
    /// places them in `binary`.
    pub fn new(routing_number: RoutingNumber, total: u16, binary: Vec<u8>) -> (r: Self)
        ensures
            r.wf(),
            r@.routing_number == routing_number,
            r@.total == total,
            r@.received == Seq::new(total as nat, |i: int| false),
            r@.binary == binary@,
            r@.last_part is None,
    {
        let mut received: Vec<bool> = Vec::new();
        let mut i: u16 = 0;
        while i < total
            invariant
                i <= total,
                received@ == Seq::new(i as nat, |j: int| false),
            decreases total - i,
        {
            received.push(false);
            i += 1;
        }
        proof {
            lemma_count_missing_none(received@);
        }
        PendingMessage { routing_number, total, received, missing: total, binary, last_part: None }
    }

    /// Number of fragments that have not arrived yet.
    pub fn missing_count(&self) -> (r: u16)
        requires
            self.wf(),
        ensures
            r == count_missing(self@.received),
    {
        self.missing
    }

    /// Copies `payload` into the buffer at `begin`.
    fn fill(&mut self, begin: usize, payload: &Vec<u8>)
        requires
            begin + payload@.len() <= usize::MAX,
        ensures
            final(self).binary@ == place(old(self).binary@, begin as nat, payload@),
            final(self).routing_number == old(self).routing_number,
            final(self).total == old(self).total,
            final(self).received == old(self).received,
            final(self).missing == old(self).missing,
            final(self).last_part == old(self).last_part,
    {
        let end = begin + payload.len();
        let ghost old_binary = self.binary@;
        while self.binary.len() < end
            invariant
                self.binary@.len() <= end || self.binary@ == old_binary,
                old_binary.len() <= self.binary@.len(),
                forall|i: int|
                    0 <= i < self.binary@.len() ==> #[trigger] self.binary@[i] == if i
                        < old_binary.len() {
                        old_binary[i]
                    } else {
                        0u8
                    },
                self.routing_number == old(self).routing_number,
                self.total == old(self).total,
                self.received == old(self).received,
                self.missing == old(self).missing,
                self.last_part == old(self).last_part,
            decreases end - self.binary@.len(),
        {
            self.binary.push(0);
        }
        let ghost grown = self.binary@;
        let mut j: usize = 0;
        while j < payload.len()
            invariant
                j <= payload@.len(),
                end == begin + payload@.len(),
                self.binary@.len() == grown.len(),
                end <= grown.len(),
                forall|i: int|
                    0 <= i < grown.len() ==> #[trigger] self.binary@[i] == if begin <= i < begin
                        + j {
                        payload@[i - begin]
                    } else {
                        grown[i]
                    },
                self.routing_number == old(self).routing_number,
                self.total == old(self).total,
                self.received == old(self).received,
                self.missing == old(self).missing,
                self.last_part == old(self).last_part,
            decreases payload@.len() - j,
        {
            self.binary.set(begin + j, payload[j]);
            j += 1;
        }
        assert(self.binary@ =~= place(old_binary, begin as nat, payload@));
    }

    /// Appends the last part, if one is held, to the buffer.
    fn merge_last_part_if_needed(&mut self)
        ensures
            final(self).binary@ == match old(self)@.last_part {
                Some(last) => old(self).binary@ + last,
                None => old(self).binary@,
            },
            final(self).last_part is None,
            final(self).routing_number == old(self).routing_number,
            final(self).total == old(self).total,
            final(self).received == old(self).received,
            final(self).missing == old(self).missing,
    {
        let last_part = match self.last_part.take() {
            Some(last_part) => last_part,
            None => {
                return ;
            },
        };
        let ghost old_binary = self.binary@;
        let mut j: usize = 0;
        while j < last_part.len()
            invariant
                j <= last_part@.len(),
                self.binary@ == old_binary + last_part@.subrange(0, j as int),
                self.last_part is None,
                self.routing_number == old(self).routing_number,
                self.total == old(self).total,
                self.received == old(self).received,
                self.missing == old(self).missing,
            decreases last_part@.len() - j,
        {
            self.binary.push(last_part[j]);
            j += 1;
            assert(last_part@.subrange(0, j as int) =~= last_part@.subrange(0, j - 1).push(
                last_part@[j - 1],
            ));
        }
        assert(last_part@.subrange(0, j as int) =~= last_part@);
    }

    /// Takes in one fragment; returns the whole message once its last missing
    /// fragment has arrived.
    pub fn add_transport_message_and_try_assemble(
        &mut self,
        transport_message: UdpTransportMessage,
    ) -> (r: Option<Vec<u8>>)
        requires
            old(self).wf(),
            transport_message.payload@.len() <= u16::MAX,
        ensures
            final(self).wf(),
            (final(self)@, bytes_of(r)) == absorb_spec(old(self)@, transport_message),
    {
        if self.total != transport_message.total {
            return None;
        }
        if self.total <= transport_message.offset {
            return None;
        }
        let offset = transport_message.offset;
        if self.received[offset as usize] {
            return None;
        }
        proof {
            lemma_count_missing_update(self.received@, offset as int);
        }
        self.received.set(offset as usize, true);
        self.missing = self.missing - 1;
        if offset + 1 != self.total {
            let len = transport_message.payload.len();
            assert((offset as nat) * (len as nat) + len <= 65535 * 65535) by (nonlinear_arith)
                requires
                    offset < 65535,
                    len <= 65535,
            ;
            let data_offset_begin = offset as usize * len;
            self.fill(data_offset_begin, &transport_message.payload);
        } else {
            if self.last_part.is_some() {
                return None;
            }
            self.last_part = Some(transport_message.payload);
        }
        proof {
            lemma_count_missing_zero(self.received@);
        }
        if self.missing == 0 {
            self.merge_last_part_if_needed();
            let complete = self.binary.clone();
            assert(complete@ =~= self.binary@);
            Some(complete)
        } else {
            None
        }
    }

    /// Empties the buffer and hands it back for another message.
    pub fn drop_message(self) -> (r: Vec<u8>)
        ensures
            r@.len() == 0,
    {
        let mut binary = self.binary;
        binary.clear();
        binary
    }
}

/// What a slot of the window holds.
pub enum PendingMessageState {
    NotReceived,
    InProgress(PendingMessage),
    FullyHandled,
}

impl PendingMessageState {
    /// Takes the content out and leaves `NotReceived` behind.
    pub fn take(&mut self) -> (r: Self)
        ensures
            r == *old(self),
            *final(self) is NotReceived,
    {
        let mut r = PendingMessageState::NotReceived;
        core::mem::swap(self, &mut r);
        r
    }
}

} // verus!
