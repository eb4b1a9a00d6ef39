use crate::pending_message::{
    absorb_spec, bytes_of, PendingMessage, PendingMessageState, ReassemblyState,
};
use crate::routing_number::{compare_spec, distance_ahead, wrap_add, RoutingNumber, HALF_RANGE};
use crate::transport_message::UdpTransportMessage;
use core::cmp::Ordering;
use std::collections::VecDeque;
use vstd::prelude::*;

verus! {

/// Number of routing messages of one peer that can be reassembled at once.
pub const MAX_PENDING_MESSAGES_U16: u16 = 5;

/// The same depth, as an index bound.
pub const MAX_PENDING_MESSAGES_USIZE: usize = 5;

/// What a slot of the window holds, as a value.
pub enum SlotState {
    NotReceived,
    InProgress(ReassemblyState),
    FullyHandled,
}

/// What the window of one peer holds: the oldest routing number it accepts,
/// the slots for that number and the following ones, and the emptied buffers
/// kept for reuse.
pub struct WindowState {
    pub oldest: RoutingNumber,
    pub slots: Seq<SlotState>,
    pub pool: Seq<Seq<u8>>,
}

/// The value that a slot holds.
pub open spec fn slot_view(s: PendingMessageState) -> SlotState {
    match s {
        PendingMessageState::NotReceived => SlotState::NotReceived,
        PendingMessageState::InProgress(m) => SlotState::InProgress(m@),
        PendingMessageState::FullyHandled => SlotState::FullyHandled,
    }
}

/// The buffers that evicting `slots` hands back: an emptied one for each slot
/// that was in progress.
pub open spec fn recycled(slots: Seq<SlotState>) -> Seq<Seq<u8>>
    decreases slots.len(),
{
    if slots.len() == 0 {
        Seq::empty()
    } else if slots.last() is InProgress {
        recycled(slots.drop_last()).push(Seq::empty())
    } else {
        recycled(slots.drop_last())
    }
}

/// Moves the window `shift` numbers forward: the slots that fall out are
/// evicted, the others move to the front, and empty slots fill the back.
pub open spec fn advance(w: WindowState, shift: nat) -> WindowState {
    let n = MAX_PENDING_MESSAGES_USIZE as nat;
    let dropped = if shift < n {
        shift
    } else {
        n
    };
    WindowState {
        oldest: RoutingNumber(wrap_add(w.oldest.0, shift as int)),
        slots: if shift < n {
            w.slots.subrange(shift as int, n as int) + Seq::new(shift, |i: int| SlotState::NotReceived)
        } else {
            Seq::new(n, |i: int| SlotState::NotReceived)
        },
        pool: w.pool + recycled(w.slots.subrange(0, dropped as int)),
    }
}

/// Stores the outcome of a reassembler step in slot `index`: a message that came
/// out leaves a tombstone behind.
pub open spec fn settle(w: WindowState, index: int, step: (ReassemblyState, Option<Seq<u8>>)) -> (
    WindowState,
    Option<Seq<u8>>,
) {
    let slot = if step.1 is Some {
        SlotState::FullyHandled
    } else {
        SlotState::InProgress(step.0)
    };
    (WindowState { slots: w.slots.update(index, slot), ..w }, step.1)
}

/// A reassembler for the message of `m`, on a buffer taken from the pool.
pub open spec fn fresh_reassembly(w: WindowState, m: UdpTransportMessage) -> ReassemblyState {
    ReassemblyState {
        routing_number: m.routing_number,
        total: m.total,
        received: Seq::new(m.total as nat, |i: int| false),
        binary: if w.pool.len() > 0 {
            w.pool[0]
        } else {
            Seq::empty()
        },
        last_part: None,
    }
}

/// The pool once a buffer has been taken from it.
pub open spec fn pool_after_take(pool: Seq<Seq<u8>>) -> Seq<Seq<u8>> {
    if pool.len() > 0 {
        pool.drop_first()
    } else {
        pool
    }
}

/// How far ahead of the window's oldest number the fragment's message lies.
pub open spec fn window_diff(w: WindowState, m: UdpTransportMessage) -> int {
    distance_ahead(w.oldest.0, m.routing_number.0)
}

/// The window once it has moved, where needed, so that the fragment's message
/// has a slot.
pub open spec fn window_for(w: WindowState, m: UdpTransportMessage) -> WindowState {
    let n = MAX_PENDING_MESSAGES_USIZE as int;
    let diff = window_diff(w, m);
    if diff >= n {
        advance(w, (diff - n + 1) as nat)
    } else {
        w
    }
}

/// The slot of the fragment's message once the window has moved.
pub open spec fn window_index(w: WindowState, m: UdpTransportMessage) -> int {
    let n = MAX_PENDING_MESSAGES_USIZE as int;
    let diff = window_diff(w, m);
    if diff >= n {
        n - 1
    } else {
        diff
    }
}

/// The effect of one fragment on the window of its peer, and the message that
/// comes out. A fragment older than the window, or of a message already
/// delivered, changes nothing.
pub open spec fn window_step(w: WindowState, m: UdpTransportMessage) -> (
    WindowState,
    Option<Seq<u8>>,
) {
    if compare_spec(m.routing_number.0, w.oldest.0) == Ordering::Less {
        (w, None)
    } else {
        let w1 = window_for(w, m);
        let index = window_index(w, m);
        match w1.slots[index] {
            SlotState::FullyHandled => (w1, None),
            SlotState::NotReceived => settle(
                WindowState { pool: pool_after_take(w1.pool), ..w1 },
                index,
                absorb_spec(fresh_reassembly(w1, m), m),
            ),
            SlotState::InProgress(r) => settle(w1, index, absorb_spec(r, m)),
        }
    }
}

/// Slot `i` holds the message numbered `oldest + i`.
pub open spec fn slots_numbered(w: WindowState) -> bool {
    &&& w.slots.len() == MAX_PENDING_MESSAGES_USIZE
    &&& forall|i: int|
        0 <= i < MAX_PENDING_MESSAGES_USIZE && (#[trigger] w.slots[i]) is InProgress
            ==> w.slots[i]->InProgress_0.routing_number.0 == wrap_add(w.oldest.0, i)
}

proof fn lemma_wrap_add_twice(x: u16, a: int, b: int)
    requires
        0 <= a,
        0 <= b,
    ensures
        wrap_add(wrap_add(x, a), b) == wrap_add(x, a + b),
{
    assert(((x as int + a) % 65536 + b) % 65536 == (x as int + a + b) % 65536) by {
        vstd::arithmetic::div_mod::lemma_add_mod_noop(x as int + a, b, 65536);
        vstd::arithmetic::div_mod::lemma_mod_twice(b, 65536);
        vstd::arithmetic::div_mod::lemma_small_mod(b as nat % 65536, 65536);
        vstd::arithmetic::div_mod::lemma_add_mod_noop((x as int + a) % 65536, b, 65536);
    }
}

/// Whatever fragment comes in, slot `i` of the window keeps holding the message
/// numbered `oldest + i`, and the oldest accepted number moves forward only, by
/// less than half the circle.
pub proof fn lemma_window_step_keeps_numbering(w: WindowState, m: UdpTransportMessage)
    requires
        slots_numbered(w),
    ensures
        slots_numbered(window_step(w, m).0),
        distance_ahead(w.oldest.0, window_step(w, m).0.oldest.0) < HALF_RANGE,
{
    let n = MAX_PENDING_MESSAGES_USIZE as int;
    if compare_spec(m.routing_number.0, w.oldest.0) != Ordering::Less {
        let diff = window_diff(w, m);
        let w1 = window_for(w, m);
        let index = window_index(w, m);
        assert(0 <= diff < HALF_RANGE);
        assert(m.routing_number.0 == wrap_add(w.oldest.0, diff));
        if diff >= n {
            let shift = diff - n + 1;
            assert forall|i: int| 0 <= i < n && (#[trigger] w1.slots[i]) is InProgress implies w1.slots[
                i]->InProgress_0.routing_number.0 == wrap_add(w1.oldest.0, i) by {
                assert(shift < n);
                assert(w1.slots[i] == w.slots[i + shift]);
                lemma_wrap_add_twice(w.oldest.0, shift, i);
            }
            lemma_wrap_add_twice(w.oldest.0, shift, index);
            assert(distance_ahead(w.oldest.0, w1.oldest.0) == shift);
        } else {
            assert(distance_ahead(w.oldest.0, w1.oldest.0) == 0);
        }
        assert(m.routing_number.0 == wrap_add(w1.oldest.0, index));
        let w2 = window_step(w, m).0;
        assert forall|i: int| 0 <= i < n && (#[trigger] w2.slots[i]) is InProgress implies w2.slots[
            i]->InProgress_0.routing_number.0 == wrap_add(w2.oldest.0, i) by {
            if i != index {
                assert(w2.slots[i] == w1.slots[i]);
            }
        }
    } else {
        assert(distance_ahead(w.oldest.0, w.oldest.0) == 0);
    }
}

/// A slot in progress holds a well-formed reassembler.
pub open spec fn slot_wf(s: PendingMessageState) -> bool {
    match s {
        PendingMessageState::InProgress(m) => m.wf(),
        _ => true,
    }
}

/// Takes slot `i` out and leaves `NotReceived` in its place.
fn take_slot(slots: &mut Vec<PendingMessageState>, i: usize) -> (r: PendingMessageState)
    requires
        i < old(slots)@.len(),
    ensures
        r == old(slots)@[i as int],
        final(slots)@ == old(slots)@.update(i as int, PendingMessageState::NotReceived),
{
    slots.push(PendingMessageState::NotReceived);
    let r = slots.swap_remove(i);
    assert(slots@ =~= old(slots)@.update(i as int, PendingMessageState::NotReceived));
    r
}

/// The routing messages of one peer that are being reassembled.
pub struct PeerPendingRoutingMessageStorage {
    buffer_queue: VecDeque<Vec<u8>>,
    oldest_routing_number: RoutingNumber,
    pending_messages: Vec<PendingMessageState>,
}

impl View for PeerPendingRoutingMessageStorage {
    type V = WindowState;

    closed spec fn view(&self) -> WindowState {
        WindowState {
            oldest: self.oldest_routing_number,
            slots: self.pending_messages@.map_values(|s: PendingMessageState| slot_view(s)),
            pool: self.buffer_queue@.map_values(|b: Vec<u8>| b@),
        }
    }
}

impl PeerPendingRoutingMessageStorage {
    /// One slot per message of the window, each in progress one well-formed.
    pub closed spec fn wf(&self) -> bool {
        &&& self.pending_messages@.len() == MAX_PENDING_MESSAGES_USIZE
        &&& forall|j: int|
            0 <= j < MAX_PENDING_MESSAGES_USIZE ==> slot_wf(#[trigger] self.pending_messages@[j])
    }

    /// An empty window whose oldest accepted number is `routing_number`.
    pub fn new(routing_number: RoutingNumber) -> (r: Self)
        ensures
            r.wf(),
            r@.oldest == routing_number,
            r@.slots == Seq::new(MAX_PENDING_MESSAGES_USIZE as nat, |i: int| SlotState::NotReceived),
            r@.pool == Seq::<Seq<u8>>::empty(),
    {
        let mut pending_messages: Vec<PendingMessageState> = Vec::new();
        let mut i: usize = 0;
        while i < MAX_PENDING_MESSAGES_USIZE
            invariant
                i <= MAX_PENDING_MESSAGES_USIZE,
                pending_messages@ == Seq::new(i as nat, |j: int| PendingMessageState::NotReceived),
            decreases MAX_PENDING_MESSAGES_USIZE - i,
        {
            pending_messages.push(PendingMessageState::NotReceived);
            i += 1;
        }
        let r = PeerPendingRoutingMessageStorage {
            buffer_queue: VecDeque::new(),
            oldest_routing_number: routing_number,
            pending_messages,
        };
        assert(r@.slots =~= Seq::new(
            MAX_PENDING_MESSAGES_USIZE as nat,
            |i: int| SlotState::NotReceived,
        ));
        assert(r@.pool =~= Seq::<Seq<u8>>::empty());
        r
    }

    /// The oldest routing number that is still accepted.
    pub fn oldest_routing_number(&self) -> (r: RoutingNumber)
        ensures
            r == self@.oldest,
    {
        self.oldest_routing_number
    }

    /// The slot for routing number `oldest + index`.
    pub fn slot(&self, index: usize) -> (r: &PendingMessageState)
        requires
            self.wf(),
            index < MAX_PENDING_MESSAGES_USIZE,
        ensures
            slot_view(*r) == self@.slots[index as int],
    {
        &self.pending_messages[index]
    }

    /// Number of emptied buffers kept for reuse.
    pub fn pooled_buffers(&self) -> (r: usize)
        ensures
            r == self@.pool.len(),
    {
        self.buffer_queue.len()
    }

    /// Evicts the first `count` slots: each message in progress there is dropped
    /// and its buffer, emptied, goes to the pool.
    fn evict(&mut self, count: usize)
        requires
            old(self).wf(),
            count <= MAX_PENDING_MESSAGES_USIZE,
        ensures
            final(self).wf(),
            final(self).oldest_routing_number == old(self).oldest_routing_number,
            final(self).pending_messages@ == old(self).pending_messages@.subrange(0, count as int).map_values(
                |s: PendingMessageState| PendingMessageState::NotReceived,
            ) + old(self).pending_messages@.subrange(count as int, MAX_PENDING_MESSAGES_USIZE as int),
            final(self)@.pool == old(self)@.pool + recycled(old(self)@.slots.subrange(0, count as int)),
    {
        let ghost start = self.pending_messages@;
        let mut i: usize = 0;
        while i < count
            invariant
                self.wf(),
                i <= count <= MAX_PENDING_MESSAGES_USIZE,
                self.oldest_routing_number == old(self).oldest_routing_number,
                old(self).wf(),
                start == old(self).pending_messages@,
                forall|j: int|
                    0 <= j < MAX_PENDING_MESSAGES_USIZE ==> #[trigger] self.pending_messages@[j] == if j
                        < i {
                        PendingMessageState::NotReceived
                    } else {
                        start[j]
                    },
                self@.pool == old(self)@.pool + recycled(old(self)@.slots.subrange(0, i as int)),
            decreases count - i,
        {
            let ghost before_pool = self@.pool;
            let slot = take_slot(&mut self.pending_messages, i);
            let ghost olds = old(self)@.slots;
            assert(olds.subrange(0, i + 1).drop_last() =~= olds.subrange(0, i as int));
            assert(olds[i as int] == slot_view(slot));
            match slot {
                PendingMessageState::InProgress(pending_message) => {
                    let buffer = pending_message.drop_message();
                    self.buffer_queue.push_back(buffer);
                    assert(buffer@ =~= Seq::<u8>::empty());
                    assert(self@.pool =~= before_pool.push(Seq::<u8>::empty()));
                },
                _ => {
                    assert(self@.pool =~= before_pool);
                },
            }
            i += 1;
        }
        assert(self.pending_messages@ =~= old(self).pending_messages@.subrange(0, count as int).map_values(
            |s: PendingMessageState| PendingMessageState::NotReceived,
        ) + old(self).pending_messages@.subrange(count as int, MAX_PENDING_MESSAGES_USIZE as int));
    }

    /// Moves every slot `shift` places to the front; the slots left at the back
    /// are `NotReceived`.
    fn shift_left(&mut self, shift: usize)
        requires
            old(self).wf(),
            0 < shift < MAX_PENDING_MESSAGES_USIZE,
            forall|j: int| 0 <= j < shift ==> #[trigger] old(self).pending_messages@[j] is NotReceived,
        ensures
            final(self).wf(),
            final(self).oldest_routing_number == old(self).oldest_routing_number,
            final(self).buffer_queue == old(self).buffer_queue,
            final(self).pending_messages@ == old(self).pending_messages@.subrange(
                shift as int,
                MAX_PENDING_MESSAGES_USIZE as int,
            ) + Seq::new(shift as nat, |i: int| PendingMessageState::NotReceived),
    {
        let ghost start = self.pending_messages@;
        let count = MAX_PENDING_MESSAGES_USIZE - shift;
        let mut i: usize = 0;
        while i < count
            invariant
                self.wf(),
                i <= count == MAX_PENDING_MESSAGES_USIZE - shift,
                self.oldest_routing_number == old(self).oldest_routing_number,
                self.buffer_queue == old(self).buffer_queue,
                old(self).wf(),
                start == old(self).pending_messages@,
                forall|j: int| 0 <= j < shift ==> #[trigger] start[j] is NotReceived,
                forall|j: int|
                    0 <= j < MAX_PENDING_MESSAGES_USIZE ==> #[trigger] self.pending_messages@[j] == if j
                        < i {
                        start[j + shift]
                    } else if j < i + shift {
                        PendingMessageState::NotReceived
                    } else {
                        start[j]
                    },
            decreases count - i,
        {
            let moved = take_slot(&mut self.pending_messages, i + shift);
            self.pending_messages.set(i, moved);
            i += 1;
        }
        assert(self.pending_messages@ =~= old(self).pending_messages@.subrange(
            shift as int,
            MAX_PENDING_MESSAGES_USIZE as int,
        ) + Seq::new(shift as nat, |i: int| PendingMessageState::NotReceived));
    }

    /// Takes in one fragment from the peer; returns the bytes of its routing
    /// message once the last missing fragment of it has arrived.
    pub fn add_transport_message_and_try_assemble(
        &mut self,
        transport_message: UdpTransportMessage,
    ) -> (r: Option<Vec<u8>>)
        requires
            old(self).wf(),
            transport_message.payload@.len() <= u16::MAX,
        ensures
            final(self).wf(),
            (final(self)@, bytes_of(r)) == window_step(old(self)@, transport_message),
    {
        let routing_number = transport_message.routing_number;
        let total = transport_message.total;
        match routing_number.compare(&self.oldest_routing_number) {
            Ordering::Less => {
                return None;
            },
            _ => {},
        }
        let ghost w0 = self@;
        let diff = routing_number.sub(self.oldest_routing_number);
        let diff: usize = if diff >= MAX_PENDING_MESSAGES_U16 {
            let shift = diff - MAX_PENDING_MESSAGES_U16 + 1;
            let dropped = if shift < MAX_PENDING_MESSAGES_U16 {
                shift
            } else {
                MAX_PENDING_MESSAGES_U16
            };
            self.evict(dropped as usize);
            if shift < MAX_PENDING_MESSAGES_U16 {
                self.shift_left(shift as usize);
            }
            self.oldest_routing_number.add_assign(shift);
            assert(self@ == advance(w0, shift as nat)) by {
                assert(self@.slots =~= advance(w0, shift as nat).slots);
            }
            (diff - shift) as usize
        } else {
            diff as usize
        };
        let ghost w1 = self@;
        assert(w1 == window_for(w0, transport_message));
        assert(diff == window_index(w0, transport_message));
        let state = take_slot(&mut self.pending_messages, diff);
        assert(w1.slots[diff as int] == slot_view(state));
        let mut pending_message = match state {
            PendingMessageState::NotReceived => {
                let buffer = match self.buffer_queue.pop_front() {
                    Some(buffer) => buffer,
                    None => Vec::new(),
                };
                assert(self@.pool =~= pool_after_take(w1.pool));
                let m = PendingMessage::new(routing_number, total, buffer);
                assert(m@ == fresh_reassembly(w1, transport_message));
                m
            },
            PendingMessageState::InProgress(m) => m,
            PendingMessageState::FullyHandled => {
                self.pending_messages.set(diff, PendingMessageState::FullyHandled);
                assert(self@.slots =~= w1.slots);
                return None;
            },
        };
        match pending_message.add_transport_message_and_try_assemble(transport_message) {
            Some(routing_message_binary) => {
                self.pending_messages.set(diff, PendingMessageState::FullyHandled);
                assert(self@.slots =~= w1.slots.update(diff as int, SlotState::FullyHandled));
                Some(routing_message_binary)
            },
            None => {
                self.pending_messages.set(diff, PendingMessageState::InProgress(pending_message));
                assert(self@.slots =~= w1.slots.update(
                    diff as int,
                    SlotState::InProgress(pending_message@),
                ));
                None
            },
        }
    }
}

} // verus!
