use crate::pending_message::{
    absorb_spec, all_received, count_missing, lemma_count_missing_none, lemma_count_missing_update,
    lemma_count_missing_zero, place, ReassemblyState,
};
use crate::routing_number::RoutingNumber;
use crate::transport_message::UdpTransportMessage;
use crate::transport_messages_iterator::{
    can_fragment, fragment_count, fragment_payload, is_fragment_of, lemma_fragment_bounds,
};
use vstd::arithmetic::div_mod::{lemma_fundamental_div_mod, lemma_fundamental_div_mod_converse, lemma_mod_bound};
use vstd::prelude::*;

verus! {

/// A reassembler that has seen no fragment yet, on an empty buffer.
pub open spec fn fresh_state(routing_number: RoutingNumber, total: u16) -> ReassemblyState {
    ReassemblyState {
        routing_number,
        total,
        received: Seq::new(total as nat, |i: int| false),
        binary: Seq::empty(),
        last_part: None,
    }
}

/// Feeds the fragments `fs` in order; the state at the end and what the last
/// of them brought out.
pub open spec fn feed(s: ReassemblyState, fs: Seq<UdpTransportMessage>) -> (
    ReassemblyState,
    Option<Seq<u8>>,
)
    decreases fs.len(),
{
    if fs.len() == 0 {
        (s, None)
    } else {
        absorb_spec(feed(s, fs.drop_last()).0, fs.last())
    }
}

/// A fragment that has already been taken in is ignored the second time: the
/// state stays as it is and nothing comes out.
pub proof fn lemma_duplicate_fragment_ignored(s: ReassemblyState, m: UdpTransportMessage)
    requires
        s.received.len() == s.total,
    ensures
        absorb_spec(absorb_spec(s, m).0, m) == (absorb_spec(s, m).0, None::<Seq<u8>>),
{
}

proof fn lemma_div_bounds(i: int, p: int)
    requires
        i >= 0,
        p > 0,
    ensures
        i / p >= 0,
        (i / p) * p <= i < (i / p) * p + p,
{
    lemma_fundamental_div_mod(i, p);
    lemma_mod_bound(i, p);
    assert(i / p >= 0) by (nonlinear_arith)
        requires
            i == p * (i / p) + (i % p),
            0 <= i % p < p,
            i >= 0,
    ;
    assert((i / p) * p == p * (i / p)) by (nonlinear_arith);
}

proof fn lemma_div_unique(i: int, p: int, o: int)
    requires
        p > 0,
        o * p <= i < o * p + p,
    ensures
        i / p == o,
{
    lemma_fundamental_div_mod_converse(i, p, o, i - o * p);
}

proof fn lemma_below_multiple(i: int, p: int, n: int)
    requires
        i >= 0,
        p > 0,
        i < n * p,
    ensures
        i / p < n,
{
    lemma_div_bounds(i, p);
    assert(i / p < n) by (nonlinear_arith)
        requires
            (i / p) * p <= i,
            i < n * p,
            p > 0,
    ;
}

/// What holds after the first `k` of the fragments `fs` of `data` went in,
/// while some are still missing.
spec fn partial_inv(
    s: ReassemblyState,
    routing_number: RoutingNumber,
    data: Seq<u8>,
    p: int,
    fs: Seq<UdpTransportMessage>,
    k: int,
) -> bool {
    let total = fs.len() as int;
    &&& s.routing_number == routing_number
    &&& s.total == total
    &&& s.received.len() == total
    &&& count_missing(s.received) == total - k
    &&& forall|o: int|
        0 <= o < total && #[trigger] s.received[o] ==> exists|i: int|
            0 <= i < k && fs[i].offset == o
    &&& s.binary.len() <= (total - 1) * p
    &&& forall|o: int| 0 <= o < total - 1 && #[trigger] s.received[o] ==> (o + 1) * p <= s.binary.len()
    &&& forall|i: int|
        0 <= i < s.binary.len() && i / p < total - 1 && s.received[i / p] ==> #[trigger] s.binary[i]
            == data[i]
    &&& s.last_part == if s.received[total - 1] {
        Some(data.subrange((total - 1) * p, data.len() as int))
    } else {
        None
    }
}

spec fn fragments_of(
    routing_number: RoutingNumber,
    data: Seq<u8>,
    p: nat,
    fs: Seq<UdpTransportMessage>,
) -> bool {
    &&& p > 0
    &&& can_fragment(data.len(), p)
    &&& fs.len() == fragment_count(data.len(), p)
    &&& forall|i: int|
        0 <= i < fs.len() ==> #[trigger] fs[i].offset < fs.len() && is_fragment_of(
            fs[i],
            routing_number,
            data,
            p,
            fs[i].offset as nat,
        )
    &&& forall|i: int, j: int| 0 <= i < j < fs.len() ==> fs[i].offset != fs[j].offset
}

proof fn lemma_step(
    s: ReassemblyState,
    routing_number: RoutingNumber,
    data: Seq<u8>,
    p: nat,
    fs: Seq<UdpTransportMessage>,
    k: int,
)
    requires
        fragments_of(routing_number, data, p, fs),
        0 <= k < fs.len(),
        partial_inv(s, routing_number, data, p as int, fs, k),
    ensures
        k + 1 < fs.len() ==> partial_inv(
            absorb_spec(s, fs[k]).0,
            routing_number,
            data,
            p as int,
            fs,
            k + 1,
        ) && absorb_spec(s, fs[k]).1 is None,
        k + 1 == fs.len() ==> absorb_spec(s, fs[k]).1 == Some(data),
{
    let total = fs.len() as int;
    let pi = p as int;
    let m = fs[k];
    let o = m.offset as int;
    assert(m.offset < fs.len() && is_fragment_of(m, routing_number, data, p, m.offset as nat));
    if s.received[o] {
        let i = choose|i: int| 0 <= i < k && fs[i].offset == o;
        assert(fs[i].offset != fs[k].offset);
    }
    lemma_fragment_bounds(data.len(), p, o as nat);
    lemma_fragment_bounds(data.len(), p, (total - 1) as nat);
    lemma_count_missing_update(s.received, o);
    let received = s.received.update(o, true);
    lemma_count_missing_zero(received);
    let (s1, out) = absorb_spec(s, m);
    if o + 1 != total {
        let payload = data.subrange(o * pi, o * pi + pi);
        assert(m.payload@ == payload);
        assert(m.offset * m.payload@.len() == o * pi);
        let binary = place(s.binary, (o * pi) as nat, payload);
        assert((o + 1) * pi <= (total - 1) * pi) by (nonlinear_arith)
            requires
                o + 1 <= total - 1,
                pi > 0,
        ;
        assert(o * pi + pi == (o + 1) * pi) by (nonlinear_arith);
        assert forall|i: int|
            0 <= i < binary.len() && i / pi < total - 1 && received[i / pi] implies #[trigger] binary[i]
            == data[i] by {
            lemma_div_bounds(i, pi);
            if o * pi <= i < o * pi + pi {
            } else {
                if i / pi == o {
                    assert((i / pi) * pi == o * pi);
                }
                assert(s.received[i / pi]);
                assert((i / pi + 1) * pi <= s.binary.len());
                assert((i / pi + 1) * pi == (i / pi) * pi + pi) by (nonlinear_arith);
            }
        }
        assert forall|q: int| 0 <= q < total - 1 && #[trigger] received[q] implies (q + 1) * pi
            <= binary.len() by {
            if q != o {
                assert(s.received[q]);
            }
        }
        let s2 = ReassemblyState { received, binary, ..s };
        assert(s.received[total - 1] == received[total - 1]);
        if k + 1 < total {
            assert(!all_received(received));
            assert forall|q: int| 0 <= q < total && #[trigger] received[q] implies exists|i: int|
                0 <= i < k + 1 && fs[i].offset == q by {
                if q == o {
                    assert(fs[k].offset == q);
                } else {
                    assert(s.received[q]);
                }
            }
            assert(partial_inv(s2, routing_number, data, pi, fs, k + 1));
        } else {
            assert(all_received(received));
            lemma_final_bytes(s2, routing_number, data, p, fs);
        }
    } else {
        let last = data.subrange(o * pi, data.len() as int);
        assert(m.payload@ == last);
        assert(s.last_part is None);
        let s2 = ReassemblyState { received, last_part: Some(last), ..s };
        assert forall|i: int|
            0 <= i < s.binary.len() && i / pi < total - 1 && received[i / pi] implies #[trigger] s.binary[i]
            == data[i] by {
            assert(s.received[i / pi]);
        }
        assert forall|q: int| 0 <= q < total - 1 && #[trigger] received[q] implies (q + 1) * pi
            <= s.binary.len() by {
            assert(s.received[q]);
        }
        if k + 1 < total {
            assert(!all_received(received));
            assert forall|q: int| 0 <= q < total && #[trigger] received[q] implies exists|i: int|
                0 <= i < k + 1 && fs[i].offset == q by {
                if q == o {
                    assert(fs[k].offset == q);
                } else {
                    assert(s.received[q]);
                }
            }
            assert(partial_inv(s2, routing_number, data, pi, fs, k + 1));
        } else {
            assert(all_received(received));
            lemma_final_bytes(s2, routing_number, data, p, fs);
        }
    }
}

/// Once every offset is in, the bytes placed and the last part make up `data`.
proof fn lemma_final_bytes(
    s: ReassemblyState,
    routing_number: RoutingNumber,
    data: Seq<u8>,
    p: nat,
    fs: Seq<UdpTransportMessage>,
)
    requires
        fragments_of(routing_number, data, p, fs),
        s.received.len() == fs.len(),
        all_received(s.received),
        s.binary.len() <= (fs.len() - 1) * p,
        forall|o: int| 0 <= o < fs.len() - 1 && #[trigger] s.received[o] ==> (o + 1) * p <= s.binary.len(),
        forall|i: int|
            0 <= i < s.binary.len() && i / (p as int) < fs.len() - 1 && s.received[i / (p as int)]
                ==> #[trigger] s.binary[i] == data[i],
        s.last_part == Some(data.subrange((fs.len() - 1) * p, data.len() as int)),
    ensures
        s.binary + data.subrange((fs.len() - 1) * p, data.len() as int) == data,
{
    let total = fs.len() as int;
    let pi = p as int;
    lemma_fragment_bounds(data.len(), p, (total - 1) as nat);
    if total >= 2 {
        assert(s.received[total - 2]);
        assert((total - 2 + 1) * pi <= s.binary.len());
    } else {
        assert((total - 1) * pi == 0) by (nonlinear_arith)
            requires
                total == 1,
        ;
    }
    assert(s.binary.len() == (total - 1) * pi);
    assert forall|i: int| 0 <= i < s.binary.len() implies #[trigger] s.binary[i] == data[i] by {
        lemma_below_multiple(i, pi, total - 1);
        lemma_div_bounds(i, pi);
        assert(s.received[i / pi]);
    }
    assert(s.binary + data.subrange((total - 1) * pi, data.len() as int) =~= data);
}

proof fn lemma_feed_prefix(
    routing_number: RoutingNumber,
    data: Seq<u8>,
    p: nat,
    fs: Seq<UdpTransportMessage>,
    k: int,
)
    requires
        fragments_of(routing_number, data, p, fs),
        0 <= k <= fs.len(),
    ensures
        k < fs.len() ==> partial_inv(
            feed(fresh_state(routing_number, fs.len() as u16), fs.take(k)).0,
            routing_number,
            data,
            p as int,
            fs,
            k,
        ) && feed(fresh_state(routing_number, fs.len() as u16), fs.take(k)).1 is None,
        k == fs.len() ==> feed(fresh_state(routing_number, fs.len() as u16), fs.take(k)).1 == Some(
            data,
        ),
    decreases k,
{
    let fresh = fresh_state(routing_number, fs.len() as u16);
    if k == 0 {
        assert(fs.take(0) =~= Seq::<UdpTransportMessage>::empty());
        lemma_count_missing_none(fresh.received);
        assert(partial_inv(fresh, routing_number, data, p as int, fs, 0));
    } else {
        lemma_feed_prefix(routing_number, data, p, fs, k - 1);
        assert(fs.take(k).drop_last() =~= fs.take(k - 1));
        assert(fs.take(k).last() == fs[k - 1]);
        lemma_step(feed(fresh, fs.take(k - 1)).0, routing_number, data, p, fs, k - 1);
    }
}

/// Cutting `data` into fragments of at most `payload_size` bytes and handing all
/// of them, once each and in any order, to a fresh reassembler gives back
/// exactly `data`: on the last fragment, and on none before it.
pub proof fn lemma_reassembly_round_trip(
    routing_number: RoutingNumber,
    data: Seq<u8>,
    payload_size: nat,
    fs: Seq<UdpTransportMessage>,
)
    requires
        payload_size > 0,
        can_fragment(data.len(), payload_size),
        fs.len() == fragment_count(data.len(), payload_size),
        forall|i: int|
            0 <= i < fs.len() ==> #[trigger] fs[i].offset < fs.len() && is_fragment_of(
                fs[i],
                routing_number,
                data,
                payload_size,
                fs[i].offset as nat,
            ),
        forall|i: int, j: int| 0 <= i < j < fs.len() ==> fs[i].offset != fs[j].offset,
    ensures
        feed(fresh_state(routing_number, fs.len() as u16), fs).1 == Some(data),
        forall|k: int|
            0 <= k < fs.len() ==> (#[trigger] feed(
                fresh_state(routing_number, fs.len() as u16),
                fs.take(k),
            )).1 is None,
{
    lemma_feed_prefix(routing_number, data, payload_size, fs, fs.len() as int);
    assert(fs.take(fs.len() as int) =~= fs);
    assert forall|k: int| 0 <= k < fs.len() implies (#[trigger] feed(
        fresh_state(routing_number, fs.len() as u16),
        fs.take(k),
    )).1 is None by {
        lemma_feed_prefix(routing_number, data, payload_size, fs, k);
    }
}

} // verus!
