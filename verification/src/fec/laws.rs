//! What holds of the encoder and the decoder together.
//!
//! The laws speak of [`step`], the decoder's contract, with the repaired
//! block taken to be the block that the shards come from. That a repair by
//! the codec leaves this block is part of the contract of
//! [`FrameDecoder::decode`](super::decoder::FrameDecoder::decode).

use super::block::{
    count_present, is_block, lemma_count_present_mark, lemma_count_present_none,
};
use super::decoder::{delivered, lemma_record_wf, recovered, step, DecoderState};
use super::encoder::{carries, data_block, is_run, lemma_max_len_bounds, shard_len};
use super::framing::{lemma_unframed_padded, unframed};
use vstd::prelude::*;

verus! {

/// The data shard at place `i` of a block that carries `pkts` delivers
/// the packet at place `i`.
pub proof fn lemma_data_shard_delivers(
    block: Seq<Seq<u8>>,
    pkts: Seq<Seq<u8>>,
    parity_shards: nat,
    i: int,
)
    requires
        is_run(pkts),
        carries(block, pkts, parity_shards),
        0 <= i < pkts.len(),
    ensures
        unframed(block[i]) == Some(pkts[i]),
        delivered(block[i]) == Some(seq![pkts[i]]),
{
    lemma_max_len_bounds(pkts, i);
    lemma_unframed_padded(pkts[i], shard_len(pkts) as int);
    assert(block[i] == block.take(pkts.len() as int)[i]);
}

/// A decoder with parity that has delivered on a parity shard has
/// finished: whatever it is handed next, it delivers nothing.
pub proof fn lemma_single_use(
    s: DecoderState,
    pkt: Seq<u8>,
    idx: int,
    repaired: Seq<Seq<u8>>,
    next_pkt: Seq<u8>,
    next_idx: int,
    next_repaired: Seq<Seq<u8>>,
)
    requires
        s.parity_shards > 0,
        idx >= s.data_shards,
        step(s, pkt, idx, repaired).1 is Some,
    ensures
        step(s, pkt, idx, repaired).0.done,
        step(step(s, pkt, idx, repaired).0, next_pkt, next_idx, next_repaired) == (
            step(s, pkt, idx, repaired).0,
            None::<Seq<Seq<u8>>>,
        ),
{
}

/// While fewer shards are present than the block has data shards, a
/// decoder with parity repairs nothing: it delivers the packet of an
/// admitted data shard as it stands and nothing else, and does not finish.
pub proof fn lemma_no_repair_below_threshold(
    s: DecoderState,
    pkt: Seq<u8>,
    idx: int,
    repaired: Seq<Seq<u8>>,
)
    requires
        s.wf(),
        s.parity_shards > 0,
        !s.done,
        0 <= idx < s.total() ==> count_present(s.present.update(idx, true)) < s.data_shards,
    ensures
        !step(s, pkt, idx, repaired).0.done,
        step(s, pkt, idx, repaired).1 == if s.admits(pkt, idx) && idx < s.data_shards {
            delivered(pkt)
        } else {
            None
        },
{
}

/// Every call keeps the state of the decoder well formed.
pub proof fn lemma_step_wf(s: DecoderState, pkt: Seq<u8>, idx: int, repaired: Seq<Seq<u8>>)
    requires
        s.wf(),
    ensures
        step(s, pkt, idx, repaired).0.wf(),
{
    if s.parity_shards > 0 && s.admits(pkt, idx) {
        lemma_record_wf(s, pkt, idx);
    }
}

/// An order in which shards of a block of `total` shards arrive: places
/// of the block, none twice.
pub open spec fn is_order(order: Seq<int>, total: nat) -> bool {
    &&& forall|j: int| 0 <= j < order.len() ==> 0 <= #[trigger] order[j] < total
    &&& order.no_duplicates()
}

/// The packets of a delivery, none where nothing is delivered.
pub open spec fn packets(out: Option<Seq<Seq<u8>>>) -> Seq<Seq<u8>> {
    match out {
        Some(pkts) => pkts,
        None => Seq::empty(),
    }
}

/// The packets at the places `which`, in that order.
pub open spec fn picked(pkts: Seq<Seq<u8>>, which: Seq<int>) -> Seq<Seq<u8>> {
    Seq::new(which.len(), |j: int| pkts[which[j]])
}

/// The state and everything delivered after the decoder in state `s` was
/// handed the shards of `block` at the places `order`, one call each, and
/// every repair left `block`.
pub open spec fn feed(s: DecoderState, block: Seq<Seq<u8>>, order: Seq<int>) -> (
    DecoderState,
    Seq<Seq<u8>>,
)
    decreases order.len(),
{
    if order.len() == 0 {
        (s, Seq::empty())
    } else {
        let before = feed(s, block, order.drop_last());
        let last = step(before.0, block[order.last()], order.last(), block);
        (last.0, before.1 + packets(last.1))
    }
}

/// Whether the last arrival of `order` sets off a repair: a parity shard
/// with which at least as many shards have arrived as the block has data
/// shards, in a block that can be repaired.
pub open spec fn sets_off(data_shards: nat, parity_shards: nat, order: Seq<int>) -> bool {
    &&& order.len() > 0
    &&& order.last() >= data_shards
    &&& order.len() >= data_shards
    &&& DecoderState::initial(data_shards, parity_shards).can_repair()
}

/// Whether some arrival of `order` sets off a repair.
pub open spec fn repaired_within(data_shards: nat, parity_shards: nat, order: Seq<int>) -> bool
    decreases order.len(),
{
    order.len() > 0 && (repaired_within(data_shards, parity_shards, order.drop_last())
        || sets_off(data_shards, parity_shards, order))
}

/// The places below `upto` that are not in `order`, in rising order.
pub open spec fn missing(order: Seq<int>, upto: nat) -> Seq<int>
    decreases upto,
{
    if upto == 0 {
        Seq::empty()
    } else {
        let before = missing(order, (upto - 1) as nat);
        if order.contains(upto - 1) {
            before
        } else {
            before.push(upto - 1)
        }
    }
}

/// The places of the packets that a decoder with parity delivers while
/// the shards arrive in `order`: each data shard as it arrives, and with
/// the first repair every data shard that has not arrived; after that
/// nothing.
pub open spec fn served(data_shards: nat, parity_shards: nat, order: Seq<int>) -> Seq<int>
    decreases order.len(),
{
    if order.len() == 0 {
        Seq::empty()
    } else {
        let earlier = order.drop_last();
        let before = served(data_shards, parity_shards, earlier);
        if repaired_within(data_shards, parity_shards, earlier) {
            before
        } else if order.last() < data_shards {
            before.push(order.last())
        } else if sets_off(data_shards, parity_shards, order) {
            before + missing(earlier, data_shards)
        } else {
            before
        }
    }
}

/// What is known of a decoder that has not finished, after the shards of
/// `block` at the places `order` arrived.
pub open spec fn tracks(s: DecoderState, block: Seq<Seq<u8>>, order: Seq<int>) -> bool {
    &&& s.wf()
    &&& !s.done
    &&& s.holds_shards_of(block)
    &&& forall|i: int| 0 <= i < s.present.len() ==> (#[trigger] s.present[i] <==> order.contains(i))
    &&& count_present(s.present) == order.len()
    &&& (s.slots.len() > 0 ==> is_block(s.slots, s.total(), block[0].len()))
}

/// A repair over a block that carries `pkts` recovers the packets at the
/// data places that have not arrived.
pub proof fn lemma_recovered_missing(
    block: Seq<Seq<u8>>,
    pkts: Seq<Seq<u8>>,
    parity_shards: nat,
    present: Seq<bool>,
    order: Seq<int>,
    upto: nat,
)
    requires
        is_run(pkts),
        carries(block, pkts, parity_shards),
        upto <= pkts.len(),
        pkts.len() <= present.len(),
        forall|i: int| 0 <= i < pkts.len() ==> (#[trigger] present[i] <==> order.contains(i)),
    ensures
        recovered(block, present, upto) == picked(pkts, missing(order, upto)),
        forall|j: int|
            0 <= j < missing(order, upto).len() ==> 0 <= #[trigger] missing(order, upto)[j] < upto,
    decreases upto,
{
    if upto > 0 {
        let last = upto - 1;
        lemma_recovered_missing(block, pkts, parity_shards, present, order, last as nat);
        lemma_data_shard_delivers(block, pkts, parity_shards, last);
    }
}

/// The decoder follows the arrivals: fed the shards of a block that
/// carries `pkts`, in any order, it has finished exactly when an arrival
/// set off a repair, and it has delivered the packets at the places that
/// [`served`] lists, in that order.
pub proof fn lemma_feed(
    pkts: Seq<Seq<u8>>,
    block: Seq<Seq<u8>>,
    parity_shards: nat,
    order: Seq<int>,
)
    requires
        is_run(pkts),
        parity_shards > 0,
        carries(block, pkts, parity_shards),
        is_order(order, pkts.len() + parity_shards),
    ensures
        ({
            let fed = feed(DecoderState::initial(pkts.len(), parity_shards), block, order);
            &&& fed.0.data_shards == pkts.len()
            &&& fed.0.parity_shards == parity_shards
            &&& fed.0.present.len() == pkts.len() + parity_shards
            &&& fed.0.done == repaired_within(pkts.len(), parity_shards, order)
            &&& fed.0.holds_shards_of(block)
            &&& !fed.0.done ==> tracks(fed.0, block, order)
            &&& fed.1 == picked(pkts, served(pkts.len(), parity_shards, order))
            &&& forall|j: int|
                0 <= j < served(pkts.len(), parity_shards, order).len() ==> 0 <= #[trigger] served(
                    pkts.len(),
                    parity_shards,
                    order,
                )[j] < pkts.len()
        }),
    decreases order.len(),
{
    let k = pkts.len();
    let start = DecoderState::initial(k, parity_shards);
    if order.len() == 0 {
        lemma_count_present_none(start.present);
    } else {
        let earlier = order.drop_last();
        let idx = order.last();
        lemma_earlier(order, k + parity_shards);
        lemma_push(earlier, idx);
        lemma_feed(pkts, block, parity_shards, earlier);
        let s = feed(start, block, earlier).0;
        let pkt = block[idx];
        if !s.done {
            lemma_record_wf(s, pkt, idx);
            lemma_count_present_mark(s.present, idx);
            if idx < k {
                lemma_data_shard_delivers(block, pkts, parity_shards, idx);
            } else if s.repairs(pkt, idx) {
                let present = s.record(pkt, idx).present;
                lemma_recovered_missing(block, pkts, parity_shards, present, earlier, k);
            }
        }
    }
}

/// Whatever shards of a block that carries `pkts` the decoder was handed,
/// each once, it is fed from that block when it is handed a further one:
/// the call meets what [`FrameDecoder::decode`](super::decoder::FrameDecoder::decode)
/// asks for to promise that a repair leaves the block.
pub proof fn lemma_fed_from_block(
    pkts: Seq<Seq<u8>>,
    block: Seq<Seq<u8>>,
    parity_shards: nat,
    order: Seq<int>,
    idx: int,
)
    requires
        is_run(pkts),
        parity_shards > 0,
        carries(block, pkts, parity_shards),
        is_order(order, pkts.len() + parity_shards),
        0 <= idx < pkts.len() + parity_shards,
    ensures
        feed(DecoderState::initial(pkts.len(), parity_shards), block, order).0.feeds_on(
            data_block(pkts),
            block,
            block[idx],
            idx,
        ),
{
    lemma_feed(pkts, block, parity_shards, order);
}

/// The data places among `order`, as they arrive.
pub open spec fn data_arrivals(order: Seq<int>, data_shards: nat) -> Seq<int>
    decreases order.len(),
{
    if order.len() == 0 {
        Seq::empty()
    } else {
        let before = data_arrivals(order.drop_last(), data_shards);
        if order.last() < data_shards {
            before.push(order.last())
        } else {
            before
        }
    }
}

/// The places `0`, `1`, and so on below `count`.
pub open spec fn in_turn(count: nat) -> Seq<int> {
    Seq::new(count, |i: int| i)
}

/// What a sequence holds once one more value is appended, and that it
/// still holds nothing twice where the value is new.
proof fn lemma_push(s: Seq<int>, x: int)
    ensures
        forall|i: int| #[trigger] s.push(x).contains(i) <==> s.contains(i) || i == x,
        s.no_duplicates() && !s.contains(x) ==> s.push(x).no_duplicates(),
{
    let t = s.push(x);
    assert(t[s.len() as int] == x);
    assert forall|i: int| t.contains(i) <==> s.contains(i) || i == x by {
        if s.contains(i) {
            let a = choose|a: int| 0 <= a < s.len() && s[a] == i;
            assert(t[a] == i);
        }
    }
}

/// What two sequences hold once joined, and that the whole holds nothing
/// twice where neither part does and the parts share nothing.
proof fn lemma_join(s: Seq<int>, t: Seq<int>)
    ensures
        forall|i: int| #[trigger] (s + t).contains(i) <==> s.contains(i) || t.contains(i),
        s.no_duplicates() && t.no_duplicates() && (forall|i: int|
            !(#[trigger] s.contains(i) && t.contains(i))) ==> (s + t).no_duplicates(),
{
    let u = s + t;
    assert forall|i: int| u.contains(i) <==> s.contains(i) || t.contains(i) by {
        if s.contains(i) {
            let a = choose|a: int| 0 <= a < s.len() && s[a] == i;
            assert(u[a] == i);
        }
        if t.contains(i) {
            let a = choose|a: int| 0 <= a < t.len() && t[a] == i;
            assert(u[s.len() + a] == i);
        }
    }
    if s.no_duplicates() && t.no_duplicates() && (forall|i: int|
        !(#[trigger] s.contains(i) && t.contains(i))) {
        assert forall|a: int, b: int|
            0 <= a < u.len() && 0 <= b < u.len() && a != b implies u[a] != u[b] by {
            if a < s.len() {
                assert(s.contains(s[a]));
            }
            if b < s.len() {
                assert(s.contains(s[b]));
            }
        }
    }
}

/// An order without its last arrival is an order that does not hold that
/// arrival.
proof fn lemma_earlier(order: Seq<int>, total: nat)
    requires
        is_order(order, total),
        order.len() > 0,
    ensures
        is_order(order.drop_last(), total),
        !order.drop_last().contains(order.last()),
        0 <= order.last() < total,
        order == order.drop_last().push(order.last()),
{
}

/// What is missing are the places below `upto` that have not arrived,
/// each once.
pub proof fn lemma_missing(order: Seq<int>, upto: nat)
    ensures
        forall|i: int| #[trigger]
            missing(order, upto).contains(i) <==> 0 <= i < upto && !order.contains(i),
        missing(order, upto).no_duplicates(),
    decreases upto,
{
    if upto > 0 {
        lemma_missing(order, (upto - 1) as nat);
        lemma_push(missing(order, (upto - 1) as nat), upto - 1);
    }
}

/// Until a repair, what is delivered are the data shards as they arrive.
pub proof fn lemma_served_before_repair(data_shards: nat, parity_shards: nat, order: Seq<int>)
    requires
        !repaired_within(data_shards, parity_shards, order),
    ensures
        served(data_shards, parity_shards, order) == data_arrivals(order, data_shards),
    decreases order.len(),
{
    if order.len() > 0 {
        lemma_served_before_repair(data_shards, parity_shards, order.drop_last());
    }
}

/// The data arrivals are the data places of `order`, each once.
pub proof fn lemma_data_arrivals(order: Seq<int>, data_shards: nat, total: nat)
    requires
        is_order(order, total),
    ensures
        forall|i: int| #[trigger]
            data_arrivals(order, data_shards).contains(i) <==> 0 <= i < data_shards
                && order.contains(i),
        data_arrivals(order, data_shards).no_duplicates(),
    decreases order.len(),
{
    if order.len() > 0 {
        let earlier = order.drop_last();
        lemma_earlier(order, total);
        lemma_data_arrivals(earlier, data_shards, total);
        lemma_push(earlier, order.last());
        lemma_push(data_arrivals(earlier, data_shards), order.last());
    }
}

/// Once a repair was set off, every data place was served, each once.
pub proof fn lemma_served_after_repair(data_shards: nat, parity_shards: nat, order: Seq<int>)
    requires
        is_order(order, data_shards + parity_shards),
        repaired_within(data_shards, parity_shards, order),
    ensures
        forall|i: int| #[trigger]
            served(data_shards, parity_shards, order).contains(i) <==> 0 <= i < data_shards,
        served(data_shards, parity_shards, order).no_duplicates(),
    decreases order.len(),
{
    let earlier = order.drop_last();
    lemma_earlier(order, data_shards + parity_shards);
    if repaired_within(data_shards, parity_shards, earlier) {
        lemma_served_after_repair(data_shards, parity_shards, earlier);
    } else {
        let before = data_arrivals(earlier, data_shards);
        let rest = missing(earlier, data_shards);
        lemma_served_before_repair(data_shards, parity_shards, earlier);
        lemma_data_arrivals(earlier, data_shards, data_shards + parity_shards);
        lemma_missing(earlier, data_shards);
        lemma_join(before, rest);
    }
}

/// Round trip without loss: a decoder that is handed the data shards of
/// a block, in turn, delivers the packets that the block carries, in
/// turn; whatever the number of parity shards.
pub proof fn lemma_round_trip_lossless(
    pkts: Seq<Seq<u8>>,
    block: Seq<Seq<u8>>,
    parity_shards: nat,
)
    requires
        is_run(pkts),
        carries(block, pkts, parity_shards),
    ensures
        feed(DecoderState::initial(pkts.len(), parity_shards), block, in_turn(pkts.len())).1
            == pkts,
{
    lemma_in_turn(pkts, block, parity_shards, pkts.len());
}

/// The data shards handed over in turn deliver the packets in turn.
proof fn lemma_in_turn(pkts: Seq<Seq<u8>>, block: Seq<Seq<u8>>, parity_shards: nat, upto: nat)
    requires
        is_run(pkts),
        carries(block, pkts, parity_shards),
        upto <= pkts.len(),
    ensures
        ({
            let fed = feed(DecoderState::initial(pkts.len(), parity_shards), block, in_turn(upto));
            &&& fed.1 == pkts.take(upto as int)
            &&& fed.0.parity_shards == parity_shards
            &&& fed.0.data_shards == pkts.len()
            &&& parity_shards > 0 ==> !repaired_within(pkts.len(), parity_shards, in_turn(upto))
        }),
    decreases upto,
{
    let k = pkts.len();
    let start = DecoderState::initial(k, parity_shards);
    let order = in_turn(upto);
    if upto > 0 {
        let earlier = in_turn((upto - 1) as nat);
        assert(order.drop_last() =~= earlier);
        lemma_in_turn(pkts, block, parity_shards, (upto - 1) as nat);
        lemma_data_shard_delivers(block, pkts, parity_shards, upto - 1);
        if parity_shards > 0 {
            lemma_feed(pkts, block, parity_shards, earlier);
        }
    }
}

/// Round trip with losses: a decoder with parity is handed shards of a
/// block, each once, in any order. Where an arrival sets off a repair,
/// or every data shard arrives, it delivers every packet that the block
/// carries, each exactly once.
///
/// An arrival sets off a repair where it is a parity shard with which at
/// least as many shards have arrived as the block has data shards, and the
/// block has at most [`MAX_REPAIRABLE`](super::decoder::MAX_REPAIRABLE)
/// shards. A data shard never sets one off.
pub proof fn lemma_round_trip_lossy(
    pkts: Seq<Seq<u8>>,
    block: Seq<Seq<u8>>,
    parity_shards: nat,
    order: Seq<int>,
)
    requires
        is_run(pkts),
        parity_shards > 0,
        carries(block, pkts, parity_shards),
        is_order(order, pkts.len() + parity_shards),
        repaired_within(pkts.len(), parity_shards, order) || forall|i: int|
            0 <= i < pkts.len() ==> order.contains(i),
    ensures
        ({
            let fed = feed(DecoderState::initial(pkts.len(), parity_shards), block, order);
            let which = served(pkts.len(), parity_shards, order);
            &&& fed.1 == picked(pkts, which)
            &&& which.no_duplicates()
            &&& which.len() == pkts.len()
            &&& forall|i: int| #[trigger] which.contains(i) <==> 0 <= i < pkts.len()
        }),
{
    let k = pkts.len();
    let which = served(k, parity_shards, order);
    lemma_feed(pkts, block, parity_shards, order);
    if repaired_within(k, parity_shards, order) {
        lemma_served_after_repair(k, parity_shards, order);
    } else {
        lemma_served_before_repair(k, parity_shards, order);
        lemma_data_arrivals(order, k, k + parity_shards);
    }
    which.unique_seq_to_set();
    assert(which.to_set() =~= vstd::set_lib::set_int_range(0, k as int));
    vstd::set_lib::lemma_int_range(0, k as int);
}

/// Too few shards: a decoder with parity that is handed fewer shards than
/// the block has data shards, each once, does not finish, and delivers
/// the packets of the data shards among them as they arrive and nothing
/// else.
pub proof fn lemma_too_few_shards(
    pkts: Seq<Seq<u8>>,
    block: Seq<Seq<u8>>,
    parity_shards: nat,
    order: Seq<int>,
)
    requires
        is_run(pkts),
        parity_shards > 0,
        carries(block, pkts, parity_shards),
        is_order(order, pkts.len() + parity_shards),
        order.len() < pkts.len(),
    ensures
        ({
            let fed = feed(DecoderState::initial(pkts.len(), parity_shards), block, order);
            &&& !fed.0.done
            &&& fed.1 == picked(pkts, data_arrivals(order, pkts.len()))
        }),
{
    lemma_feed(pkts, block, parity_shards, order);
    lemma_short_order_repairs_nothing(pkts.len(), parity_shards, order);
    lemma_served_before_repair(pkts.len(), parity_shards, order);
}

/// Fewer arrivals than data shards set off no repair.
proof fn lemma_short_order_repairs_nothing(data_shards: nat, parity_shards: nat, order: Seq<int>)
    requires
        order.len() < data_shards,
    ensures
        !repaired_within(data_shards, parity_shards, order),
    decreases order.len(),
{
    if order.len() > 0 {
        lemma_short_order_repairs_nothing(data_shards, parity_shards, order.drop_last());
    }
}

} // verus!
