//! The single-use frame decoder.

use super::block::{
    agree_where_present, bytes_of, count_present, delivery_of, is_block,
    lemma_count_present_bound, lemma_count_present_mark, lemma_count_present_none,
};
use super::codec::{
    codec_data_shards, codec_parity_shards, codeword, new_codec, repair_block, rs_repaired, Codec,
};
use super::framing::{post_decode, unframed, zeros};
use vstd::prelude::*;
use vstd::slice::slice_to_vec;

verus! {

/// Most shards that a block may have for the decoder to repair it.
pub const MAX_REPAIRABLE: usize = 128;

/// What a decoder knows, as a mathematical value.
#[verifier::ext_equal]
pub struct DecoderState {
    /// Number of data shards in the block.
    pub data_shards: nat,
    /// Number of parity shards in the block.
    pub parity_shards: nat,
    /// One buffer per shard of the block, or none before the first shard
    /// was admitted and after the block was repaired.
    pub slots: Seq<Seq<u8>>,
    /// Which shards were admitted.
    pub present: Seq<bool>,
    /// Whether the decoder has finished.
    pub done: bool,
}

/// `count` buffers of `shard_len` zero bytes.
pub open spec fn blank(count: nat, shard_len: nat) -> Seq<Seq<u8>> {
    Seq::new(count, |i: int| zeros(shard_len as int))
}

/// The delivery of the one packet framed in `shard`, or none where the
/// framing is corrupt.
pub open spec fn delivered(shard: Seq<u8>) -> Option<Seq<Seq<u8>>> {
    match unframed(shard) {
        Some(body) => Some(seq![body]),
        None => None,
    }
}

/// The packets of the first `data_shards` shards of `block` that were not
/// present, in order; a shard whose framing is corrupt gives none.
pub open spec fn recovered(block: Seq<Seq<u8>>, present: Seq<bool>, data_shards: nat) -> Seq<
    Seq<u8>,
>
    decreases data_shards,
{
    if data_shards == 0 {
        Seq::empty()
    } else {
        let before = recovered(block, present, (data_shards - 1) as nat);
        let last = data_shards - 1;
        if !present[last] && unframed(block[last]) is Some {
            before.push(unframed(block[last]).unwrap())
        } else {
            before
        }
    }
}

impl DecoderState {
    /// The state of a fresh decoder.
    pub open spec fn initial(data_shards: nat, parity_shards: nat) -> Self {
        DecoderState {
            data_shards,
            parity_shards,
            slots: Seq::empty(),
            present: Seq::new(data_shards + parity_shards, |i: int| false),
            done: false,
        }
    }

    /// Number of shards in the block.
    pub open spec fn total(self) -> nat {
        self.data_shards + self.parity_shards
    }

    /// One mark per shard; the buffers, once there, form a block; and no
    /// shard is marked before the buffers are there.
    pub open spec fn wf(self) -> bool {
        &&& self.present.len() == self.total()
        &&& (self.slots.len() == 0 || is_block(self.slots, self.total(), self.slots[0].len()))
        &&& (self.slots.len() == 0 && !self.done ==> forall|i: int|
            0 <= i < self.present.len() ==> !self.present[i])
    }

    /// Whether the decoder can repair its block.
    pub open spec fn can_repair(self) -> bool {
        &&& self.parity_shards > 0
        &&& self.data_shards > 0
        &&& self.total() <= MAX_REPAIRABLE
    }

    /// Whether the shard `pkt` is admitted at `idx`: the decoder has not
    /// finished, the index lies in the block, and the length is that of
    /// the shards admitted before.
    pub open spec fn admits(self, pkt: Seq<u8>, idx: int) -> bool {
        &&& !self.done
        &&& 0 <= idx < self.total()
        &&& (self.slots.len() > 0 ==> self.slots[idx].len() == pkt.len())
    }

    /// The state once `pkt` is recorded at `idx`.
    pub open spec fn record(self, pkt: Seq<u8>, idx: int) -> Self {
        let slots = if self.slots.len() == 0 {
            blank(self.total(), pkt.len())
        } else {
            self.slots
        };
        DecoderState {
            slots: slots.update(idx, pkt),
            present: self.present.update(idx, true),
            ..self
        }
    }

    /// Whether recording `pkt` at `idx` sets off a repair: a parity shard
    /// with which enough shards are present, and a codec to repair them.
    pub open spec fn repairs(self, pkt: Seq<u8>, idx: int) -> bool {
        &&& self.parity_shards > 0
        &&& self.admits(pkt, idx)
        &&& idx >= self.data_shards
        &&& count_present(self.record(pkt, idx).present) >= self.data_shards
        &&& self.can_repair()
        &&& pkt.len() > 0
    }

    /// Number of data packets that need no further shard.
    pub open spec fn good(self) -> nat {
        if self.done {
            self.data_shards
        } else {
            count_present(self.present.take(self.data_shards as int))
        }
    }

    /// Every admitted shard is the shard of `block` at its place.
    pub open spec fn holds_shards_of(self, block: Seq<Seq<u8>>) -> bool {
        agree_where_present(self.slots, self.present, block)
    }

    /// The decoder is fed from `block`, a block over the data shards
    /// `data`: what it admitted came from `block`, and so does `pkt`, the
    /// shard at `idx`.
    pub open spec fn feeds_on(
        self,
        data: Seq<Seq<u8>>,
        block: Seq<Seq<u8>>,
        pkt: Seq<u8>,
        idx: int,
    ) -> bool {
        &&& is_block(data, self.data_shards, pkt.len())
        &&& is_block(block, self.total(), pkt.len())
        &&& self.holds_shards_of(block)
        &&& 0 <= idx < self.total()
        &&& pkt == block[idx]
    }
}

/// Recording an admitted shard keeps the state well formed, with every
/// buffer of the length of that shard.
pub proof fn lemma_record_wf(s: DecoderState, pkt: Seq<u8>, idx: int)
    requires
        s.wf(),
        s.admits(pkt, idx),
    ensures
        s.record(pkt, idx).wf(),
        is_block(s.record(pkt, idx).slots, s.total(), pkt.len()),
        s.record(pkt, idx).present[idx],
{
}

/// One call of the decoder on the shard `pkt` at `idx`: the next state and
/// the delivery. `repaired` is the block that a repair leaves.
pub open spec fn step(s: DecoderState, pkt: Seq<u8>, idx: int, repaired: Seq<Seq<u8>>) -> (
    DecoderState,
    Option<Seq<Seq<u8>>>,
) {
    if s.parity_shards == 0 {
        (DecoderState { done: true, ..s }, delivered(pkt))
    } else if !s.admits(pkt, idx) {
        (s, None)
    } else if idx < s.data_shards {
        (s.record(pkt, idx), delivered(pkt))
    } else if !s.repairs(pkt, idx) {
        (s.record(pkt, idx), None)
    } else {
        let a = s.record(pkt, idx);
        (
            DecoderState { slots: Seq::empty(), done: true, ..a },
            Some(recovered(repaired, a.present, s.data_shards)),
        )
    }
}

/// The block that the codec leaves when the decoder in state `s` repairs
/// after recording `pkt` at `idx`.
pub open spec fn repair_of(s: DecoderState, pkt: Seq<u8>, idx: int) -> Seq<Seq<u8>> {
    rs_repaired(
        s.data_shards,
        s.parity_shards,
        s.record(pkt, idx).slots,
        s.record(pkt, idx).present,
    )
}

/// A single-use FEC decoder.
#[derive(Debug)]
pub struct FrameDecoder {
    data_shards: usize,
    parity_shards: usize,
    space: Vec<Vec<u8>>,
    present: Vec<bool>,
    present_count: usize,
    rs_decoder: Option<Codec>,
    done: bool,
}

impl View for FrameDecoder {
    type V = DecoderState;

    closed spec fn view(&self) -> DecoderState {
        DecoderState {
            data_shards: self.data_shards as nat,
            parity_shards: self.parity_shards as nat,
            slots: bytes_of(self.space@),
            present: self.present@,
            done: self.done,
        }
    }
}

/// Unframes every data shard of `block` that was not present.
pub fn recover(block: &Vec<Vec<u8>>, present: &Vec<bool>, data_shards: usize) -> (pkts: Vec<
    Vec<u8>,
>)
    requires
        data_shards <= block@.len(),
        data_shards <= present@.len(),
    ensures
        bytes_of(pkts@) == recovered(bytes_of(block@), present@, data_shards as nat),
{
    let mut pkts: Vec<Vec<u8>> = Vec::new();
    let mut i: usize = 0;
    while i < data_shards
        invariant
            i <= data_shards,
            data_shards <= block@.len(),
            data_shards <= present@.len(),
            bytes_of(pkts@) == recovered(bytes_of(block@), present@, i as nat),
        decreases data_shards - i,
    {
        if !present[i] {
            match post_decode(block[i].as_slice()) {
                Some(body) => {
                    pkts.push(body);
                },
                None => {},
            }
        }
        i += 1;
    }
    pkts
}

/// A block of `count` buffers of `shard_len` zero bytes.
fn blank_block(count: usize, shard_len: usize) -> (block: Vec<Vec<u8>>)
    ensures
        block@.len() == count,
        bytes_of(block@) == blank(count as nat, shard_len as nat),
{
    let mut block: Vec<Vec<u8>> = Vec::new();
    let mut i: usize = 0;
    while i < count
        invariant
            i <= count,
            block@.len() == i,
            forall|k: int| 0 <= k < i ==> (#[trigger] block@[k])@ == zeros(shard_len as int),
        decreases count - i,
    {
        let mut shard: Vec<u8> = Vec::new();
        let mut j: usize = 0;
        while j < shard_len
            invariant
                j <= shard_len,
                shard@ == zeros(j as int),
            decreases shard_len - j,
        {
            shard.push(0u8);
            j += 1;
        }
        block.push(shard);
        i += 1;
    }
    block
}

/// `count` marks, none set.
fn no_marks(count: usize) -> (present: Vec<bool>)
    ensures
        present@ == Seq::new(count as nat, |i: int| false),
{
    let mut present: Vec<bool> = Vec::new();
    let mut i: usize = 0;
    while i < count
        invariant
            i <= count,
            present@ == Seq::new(i as nat, |i: int| false),
        decreases count - i,
    {
        present.push(false);
        i += 1;
    }
    present
}

impl FrameDecoder {
    /// The invariant of a decoder: its state is well formed, the count of
    /// present shards is kept, and the codec is there exactly when the
    /// block can be repaired.
    pub closed spec fn wf(&self) -> bool {
        &&& self@.wf()
        &&& self.present_count == count_present(self.present@)
        &&& self.rs_decoder is Some <==> self@.can_repair()
        &&& self.rs_decoder matches Some(codec) ==> {
            &&& codec_data_shards(&codec) == self.data_shards
            &&& codec_parity_shards(&codec) == self.parity_shards
        }
    }

    /// A decoder with its invariant holds a well-formed state.
    pub proof fn lemma_wf_state(&self)
        requires
            self.wf(),
        ensures
            self@.wf(),
    {
    }

    /// A decoder for blocks of `data_shards` data and `parity_shards`
    /// parity shards.
    pub fn new(data_shards: usize, parity_shards: usize) -> (decoder: Self)
        requires
            data_shards + parity_shards <= usize::MAX,
        ensures
            decoder.wf(),
            decoder@ == DecoderState::initial(data_shards as nat, parity_shards as nat),
    {
        let total: usize = data_shards + parity_shards;
        let rs_decoder = if parity_shards > 0 && total <= MAX_REPAIRABLE {
            new_codec(data_shards, parity_shards)
        } else {
            None
        };
        let present = no_marks(total);
        proof {
            lemma_count_present_none(present@);
        }
        let decoder = FrameDecoder {
            data_shards,
            parity_shards,
            space: Vec::new(),
            present,
            present_count: 0,
            rs_decoder,
            done: false,
        };
        decoder
    }

    /// Number of data packets that need no further shard: all of them once
    /// the decoder has finished, else the data shards admitted.
    pub fn good_pkts(&self) -> (good: usize)
        requires
            self.wf(),
        ensures
            good == self@.good(),
            good <= self@.data_shards,
    {
        if self.done {
            return self.data_shards;
        }
        let mut good: usize = 0;
        let mut i: usize = 0;
        while i < self.data_shards
            invariant
                i <= self.data_shards,
                self.data_shards <= self.present@.len(),
                good == count_present(self.present@.take(i as int)),
                good <= i,
            decreases self.data_shards - i,
        {
            assert(self.present@.take(i + 1).drop_last() =~= self.present@.take(i as int));
            if self.present[i] {
                good += 1;
            }
            i += 1;
        }
        good
    }

    /// Number of data packets still missing.
    pub fn lost_pkts(&self) -> (lost: usize)
        requires
            self.wf(),
        ensures
            lost == self@.data_shards - self@.good(),
    {
        self.data_shards - self.good_pkts()
    }

    /// Admits the shard `pkt` at place `pkt_idx` of the block and returns
    /// the packets that it makes available, if any.
    ///
    /// Without parity every shard is unframed and delivered. With parity a
    /// shard is admitted unless the decoder has finished, the place lies
    /// outside the block, or the length is not that of the shards before;
    /// a data shard is delivered at once, and a parity shard with which
    /// enough shards are present sets off the repair, which delivers every
    /// data packet not yet delivered and finishes the decoder. What is
    /// returned and what becomes of the decoder is [`step`], first for the
    /// block that the codec leaves, then, where the decoder is fed from the
    /// codeword of some data, for that codeword.
    pub fn decode(&mut self, pkt: &[u8], pkt_idx: usize) -> (out: Option<Vec<Vec<u8>>>)
        requires
            old(self).wf(),
        ensures
            final(self).wf(),
            (final(self)@, delivery_of(out)) == step(
                old(self)@,
                pkt@,
                pkt_idx as int,
                repair_of(old(self)@, pkt@, pkt_idx as int),
            ),
            forall|data: Seq<Seq<u8>>|
                old(self)@.feeds_on(
                    data,
                    #[trigger] codeword(old(self)@.data_shards, old(self)@.parity_shards, data),
                    pkt@,
                    pkt_idx as int,
                ) ==> (final(self)@, delivery_of(out)) == step(
                    old(self)@,
                    pkt@,
                    pkt_idx as int,
                    codeword(old(self)@.data_shards, old(self)@.parity_shards, data),
                ),
    {
        if self.parity_shards == 0 {
            self.done = true;
            return Self::deliver(pkt);
        }
        if self.done || pkt_idx >= self.present.len() {
            return None;
        }
        if self.space.len() == 0 {
            self.space = blank_block(self.present.len(), pkt.len());
        } else if self.space[pkt_idx].len() != pkt.len() {
            return None;
        }
        let ghost admitted = old(self)@.record(pkt@, pkt_idx as int);
        proof {
            lemma_record_wf(old(self)@, pkt@, pkt_idx as int);
            lemma_count_present_mark(self.present@, pkt_idx as int);
            lemma_count_present_bound(self.present@.update(pkt_idx as int, true));
        }
        self.space.set(pkt_idx, slice_to_vec(pkt));
        if !self.present[pkt_idx] {
            self.present_count += 1;
        }
        self.present.set(pkt_idx, true);
        assert(self@ =~= admitted);
        if pkt_idx < self.data_shards {
            return Self::deliver(pkt);
        }
        if self.present_count < self.data_shards {
            return None;
        }
        match &self.rs_decoder {
            None => None,
            Some(codec) => {
                if !repair_block(codec, &mut self.space, &self.present) {
                    return None;
                }
                let pkts = recover(&self.space, &self.present, self.data_shards);
                self.space = Vec::new();
                self.done = true;
                Some(pkts)
            },
        }
    }

    /// The delivery of the packet framed in `shard`.
    fn deliver(shard: &[u8]) -> (out: Option<Vec<Vec<u8>>>)
        ensures
            delivery_of(out) == delivered(shard@),
    {
        match post_decode(shard) {
            Some(body) => Some(vec![body]),
            None => None,
        }
    }
}

} // verus!
