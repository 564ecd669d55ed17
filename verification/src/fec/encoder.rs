//! The adaptive frame encoder.

use super::block::{bytes_of, is_block};
use super::codec::{
    codec_data_shards, codec_parity_shards, codeword, encode_block, new_codec, Codec,
};
use super::framing::{padded, pre_encode, HEADER_LEN, MAX_BODY};
use super::rate::{cap_overhead, capped, lemma_capped_bound, overhead, overhead_of, MAX_RUN};
use std::collections::HashMap;
use vstd::prelude::*;

verus! {

broadcast use vstd::std_specs::hash::group_hash_axioms;

/// The length of the longest packet.
pub open spec fn max_len(pkts: Seq<Seq<u8>>) -> nat
    decreases pkts.len(),
{
    if pkts.len() == 0 {
        0
    } else {
        let before = max_len(pkts.drop_last());
        if pkts.last().len() > before {
            pkts.last().len()
        } else {
            before
        }
    }
}

/// The length of every shard of the block that carries `pkts`.
pub open spec fn shard_len(pkts: Seq<Seq<u8>>) -> nat {
    max_len(pkts) + HEADER_LEN as nat
}

/// The data shards of the block that carries `pkts`: every packet framed
/// and padded to the one shard length.
pub open spec fn data_block(pkts: Seq<Seq<u8>>) -> Seq<Seq<u8>> {
    Seq::new(pkts.len(), |i: int| padded(pkts[i], shard_len(pkts) as int))
}

/// The block that carries `pkts` with `parity` parity shards.
pub open spec fn encoded(pkts: Seq<Seq<u8>>, parity: nat) -> Seq<Seq<u8>> {
    if parity == 0 {
        data_block(pkts)
    } else {
        codeword(pkts.len(), parity, data_block(pkts))
    }
}

/// Packets that one block can carry: between one and [`MAX_RUN`] of them,
/// none longer than [`MAX_BODY`].
pub open spec fn is_run(pkts: Seq<Seq<u8>>) -> bool {
    &&& 1 <= pkts.len() <= MAX_RUN
    &&& forall|i: int| 0 <= i < pkts.len() ==> (#[trigger] pkts[i]).len() <= MAX_BODY
}

/// `block` carries `pkts` with `parity_shards` parity shards: it is a
/// block of the shard length of the packets, and its data shards are the
/// packets framed.
pub open spec fn carries(block: Seq<Seq<u8>>, pkts: Seq<Seq<u8>>, parity_shards: nat) -> bool {
    &&& is_block(block, pkts.len() + parity_shards, shard_len(pkts))
    &&& block.take(pkts.len() as int) == data_block(pkts)
}

/// No packet is longer than the longest.
pub proof fn lemma_max_len_bounds(pkts: Seq<Seq<u8>>, i: int)
    requires
        0 <= i < pkts.len(),
    ensures
        pkts[i].len() <= max_len(pkts),
    decreases pkts.len(),
{
    if i < pkts.len() - 1 {
        lemma_max_len_bounds(pkts.drop_last(), i);
    }
}

/// Where no packet exceeds `bound`, neither does the longest.
pub proof fn lemma_max_len_within(pkts: Seq<Seq<u8>>, bound: nat)
    requires
        forall|i: int| 0 <= i < pkts.len() ==> (#[trigger] pkts[i]).len() <= bound,
    ensures
        max_len(pkts) <= bound,
    decreases pkts.len(),
{
    if pkts.len() > 0 {
        lemma_max_len_within(pkts.drop_last(), bound);
    }
}

/// The place of a run in the rate table.
pub open spec fn rate_key(measured_loss: u8, run_len: nat) -> u64 {
    (measured_loss as nat * 256 + run_len) as u64
}

/// The place of a pair of shard counts in the codec table.
pub open spec fn codec_key(data_shards: nat, parity_shards: nat) -> u64 {
    (data_shards * 256 + parity_shards) as u64
}

/// A forward error correction encoder. It remembers the overhead found for
/// each measured loss and run length, and the codecs it has built.
#[derive(Debug)]
pub struct FrameEncoder {
    rate_table: HashMap<u64, usize>,
    target_loss: u8,
    rs_encoders: HashMap<u64, Codec>,
}

impl FrameEncoder {
    /// The overheads remembered, by measured loss and run length.
    pub closed spec fn rates(&self) -> Map<(u8, nat), nat> {
        Map::new(
            |run: (u8, nat)| run.1 <= MAX_RUN && self.rate_table@.contains_key(rate_key(run.0, run.1)),
            |run: (u8, nat)| self.rate_table@[rate_key(run.0, run.1)] as nat,
        )
    }

    /// The target loss, in 256ths.
    pub closed spec fn target(&self) -> u8 {
        self.target_loss
    }

    /// The invariant of an encoder: every codec it keeps was made for the
    /// shard counts of its place.
    pub closed spec fn wf(&self) -> bool {
        forall|data_shards: nat, parity_shards: nat|
            data_shards <= MAX_RUN && parity_shards <= MAX_RUN && self.rs_encoders@.contains_key(
                #[trigger] codec_key(data_shards, parity_shards),
            ) ==> {
                let codec = self.rs_encoders@[codec_key(data_shards, parity_shards)];
                codec_data_shards(&codec) == data_shards && codec_parity_shards(&codec)
                    == parity_shards
            }
    }

    /// The overhead that the encoder uses for a run once it was handed the
    /// search outcome `first_fit`: what it remembers for this run, else
    /// what the outcome stands for.
    pub open spec fn wanted(&self, measured_loss: u8, run_len: nat, first_fit: nat) -> nat {
        if self.rates().contains_key((measured_loss, run_len)) {
            self.rates()[(measured_loss, run_len)]
        } else {
            overhead_of(first_fit)
        }
    }

    /// Creates a new encoder at the given target loss, in 256ths.
    pub fn new(target_loss: u8) -> (encoder: Self)
        ensures
            encoder.wf(),
            encoder.target() == target_loss,
            encoder.rates() == Map::<(u8, nat), nat>::empty(),
    {
        let encoder = FrameEncoder {
            rate_table: HashMap::new(),
            target_loss,
            rs_encoders: HashMap::new(),
        };
        encoder
    }

    /// The target loss, in 256ths.
    pub fn target_loss(&self) -> (target: u8)
        ensures
            target == self.target(),
    {
        self.target_loss
    }

    /// Whether the encoder remembers an overhead for this run, so that no
    /// search is needed.
    pub fn is_rated(&self, measured_loss: u8, run_len: usize) -> (rated: bool)
        ensures
            rated == self.rates().contains_key((measured_loss, run_len as nat)),
    {
        if run_len > MAX_RUN {
            return false;
        }
        let key: u64 = measured_loss as u64 * 256 + run_len as u64;
        self.rate_table.contains_key(&key)
    }

    /// The number of parity shards for a run of `run_len` packets at the
    /// measured loss, in 256ths. `first_fit` is the outcome of the search
    /// for this run: the first number of added shards with which the block
    /// meets the target loss. It is remembered, and not looked at where an
    /// overhead for this run is remembered already.
    pub fn repair_len(&mut self, measured_loss: u8, run_len: usize, first_fit: usize) -> (parity:
        usize)
        requires
            old(self).wf(),
            run_len <= MAX_RUN,
        ensures
            final(self).wf(),
            final(self).target() == old(self).target(),
            final(self).rates() == old(self).rates().insert(
                (measured_loss, run_len as nat),
                old(self).wanted(measured_loss, run_len as nat, first_fit as nat),
            ),
            parity == capped(
                old(self).wanted(measured_loss, run_len as nat, first_fit as nat),
                run_len as nat,
            ),
            parity <= run_len,
            run_len + parity <= MAX_RUN,
    {
        let key: u64 = measured_loss as u64 * 256 + run_len as u64;
        let wanted: usize = match self.rate_table.get(&key) {
            Some(known) => *known,
            None => {
                let found = overhead(first_fit);
                self.rate_table.insert(key, found);
                found
            },
        };
        proof {
            lemma_capped_bound(wanted as nat, run_len as nat);
        }
        cap_overhead(wanted, run_len)
    }

    /// Encodes a run of packets into a block of shards: the packets framed
    /// and padded to one length, then the parity shards over them.
    /// `first_fit` is the outcome of the search for this run, as for
    /// [`FrameEncoder::repair_len`].
    pub fn encode(&mut self, measured_loss: u8, pkts: &[Vec<u8>], first_fit: usize) -> (shards:
        Vec<Vec<u8>>)
        requires
            old(self).wf(),
            is_run(bytes_of(pkts@)),
        ensures
            final(self).wf(),
            final(self).target() == old(self).target(),
            final(self).rates() == old(self).rates().insert(
                (measured_loss, pkts@.len()),
                old(self).wanted(measured_loss, pkts@.len(), first_fit as nat),
            ),
            bytes_of(shards@) == encoded(
                bytes_of(pkts@),
                capped(
                    old(self).wanted(measured_loss, pkts@.len(), first_fit as nat),
                    pkts@.len(),
                ),
            ),
            carries(
                bytes_of(shards@),
                bytes_of(pkts@),
                capped(
                    old(self).wanted(measured_loss, pkts@.len(), first_fit as nat),
                    pkts@.len(),
                ),
            ),
    {
        let data_shards: usize = pkts.len();
        proof {
            lemma_max_len_within(bytes_of(pkts@), MAX_BODY as nat);
        }
        let len: usize = longest(pkts) + HEADER_LEN;
        let mut shards = pad_all(pkts, len);
        let parity_shards: usize = self.repair_len(measured_loss, data_shards, first_fit);
        assert(bytes_of(shards@).take(data_shards as int) =~= bytes_of(shards@));
        if parity_shards > 0 {
            let ghost data = bytes_of(shards@);
            let mut added: usize = 0;
            while added < parity_shards
                invariant
                    added <= parity_shards,
                    shards@.len() == data_shards + added,
                    data_shards + parity_shards <= MAX_RUN,
                    bytes_of(shards@).take(data_shards as int) == data,
                    is_block(bytes_of(shards@), (data_shards + added) as nat, len as nat),
                decreases parity_shards - added,
            {
                let ghost before = bytes_of(shards@);
                let room = zero_shard(len);
                shards.push(room);
                assert(bytes_of(shards@) =~= before.push(room@));
                added += 1;
            }
            let key: u64 = data_shards as u64 * 256 + parity_shards as u64;
            assert(key == codec_key(data_shards as nat, parity_shards as nat));
            if !self.rs_encoders.contains_key(&key) {
                let codec = new_codec(data_shards, parity_shards).unwrap();
                self.rs_encoders.insert(key, codec);
            }
            let codec = self.rs_encoders.get(&key).unwrap();
            let ghost blank = bytes_of(shards@);
            assert(blank[0].len() == len);
            let ok = encode_block(codec, &mut shards);
            assert(ok);
            assert forall|i: int| 0 <= i < data_shards + parity_shards implies (
            #[trigger] bytes_of(shards@)[i]).len() == len by {
                assert(shards@[i]@.len() == blank[i].len());
            }
            assert(bytes_of(shards@).take(data_shards as int) =~= data);
        }
        shards
    }
}

/// The length of the longest packet.
fn longest(pkts: &[Vec<u8>]) -> (len: usize)
    ensures
        len == max_len(bytes_of(pkts@)),
{
    let mut len: usize = 0;
    let mut i: usize = 0;
    while i < pkts.len()
        invariant
            i <= pkts@.len(),
            len == max_len(bytes_of(pkts@).take(i as int)),
        decreases pkts@.len() - i,
    {
        assert(bytes_of(pkts@).take(i + 1).drop_last() =~= bytes_of(pkts@).take(i as int));
        if pkts[i].len() > len {
            len = pkts[i].len();
        }
        i += 1;
    }
    assert(bytes_of(pkts@).take(pkts@.len() as int) =~= bytes_of(pkts@));
    len
}

/// Every packet framed and padded to `len` bytes.
fn pad_all(pkts: &[Vec<u8>], len: usize) -> (shards: Vec<Vec<u8>>)
    requires
        len == shard_len(bytes_of(pkts@)),
        is_run(bytes_of(pkts@)),
    ensures
        bytes_of(shards@) == data_block(bytes_of(pkts@)),
        is_block(bytes_of(shards@), pkts@.len(), len as nat),
{
    let mut shards: Vec<Vec<u8>> = Vec::new();
    let mut i: usize = 0;
    while i < pkts.len()
        invariant
            i <= pkts@.len(),
            len == shard_len(bytes_of(pkts@)),
            is_run(bytes_of(pkts@)),
            shards@.len() == i,
            forall|j: int|
                0 <= j < i ==> (#[trigger] shards@[j])@ == padded(pkts@[j]@, len as int)
                    && shards@[j]@.len() == len,
        decreases pkts@.len() - i,
    {
        proof {
            lemma_max_len_bounds(bytes_of(pkts@), i as int);
        }
        let shard = pre_encode(pkts[i].as_slice(), len);
        shards.push(shard);
        i += 1;
    }
    shards
}

/// A shard of `len` zero bytes.
fn zero_shard(len: usize) -> (shard: Vec<u8>)
    ensures
        shard@.len() == len,
{
    let mut shard: Vec<u8> = Vec::new();
    let mut i: usize = 0;
    while i < len
        invariant
            i <= len,
            shard@.len() == i,
        decreases len - i,
    {
        shard.push(0u8);
        i += 1;
    }
    shard
}

} // verus!
