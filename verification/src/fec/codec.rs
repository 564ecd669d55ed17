//! The Reed-Solomon codec over GF(2^8) that computes and repairs shards.
//!
//! Nothing here is proved: each function states what the codec of the
//! `reed-solomon-erasure` crate does, and the rest of the library is proved
//! against these statements.

use super::block::{agree_where_present, bytes_of, count_present, is_block};
use reed_solomon_erasure::galois_8::ReedSolomon;
use vstd::prelude::*;

verus! {

/// Most shards, data and parity together, that one block can have.
pub const MAX_SHARDS: usize = 256;

/// A Reed-Solomon codec for one pair of shard counts: a `ReedSolomon` of
/// the `reed-solomon-erasure` crate over GF(2^8), of which nothing but
/// what the functions below state is known here.
#[derive(Debug)]
#[verifier::external_body]
pub struct Codec {
    inner: ReedSolomon,
}

/// Number of data shards that `codec` was made for.
pub uninterp spec fn codec_data_shards(codec: &Codec) -> nat;

/// Number of parity shards that `codec` was made for.
pub uninterp spec fn codec_parity_shards(codec: &Codec) -> nat;

/// The parity shards that the codec for `data_shards` and `parity_shards`
/// computes over the data shards `data`.
pub uninterp spec fn rs_parity(data_shards: nat, parity_shards: nat, data: Seq<Seq<u8>>) -> Seq<
    Seq<u8>,
>;

/// The block that the codec for `data_shards` and `parity_shards` leaves
/// when it repairs `shards`, of which those marked in `present` are given.
pub uninterp spec fn rs_repaired(
    data_shards: nat,
    parity_shards: nat,
    shards: Seq<Seq<u8>>,
    present: Seq<bool>,
) -> Seq<Seq<u8>>;

/// The full block of a systematic code: the data shards, then their parity.
pub open spec fn codeword(data_shards: nat, parity_shards: nat, data: Seq<Seq<u8>>) -> Seq<
    Seq<u8>,
> {
    data + rs_parity(data_shards, parity_shards, data)
}

/// `ReedSolomon::new`: a codec exists exactly for at least one data shard,
/// at least one parity shard and at most [`MAX_SHARDS`] shards in all, and
/// it keeps both counts.
#[verifier::external_body]
pub(crate) fn new_codec(data_shards: usize, parity_shards: usize) -> (codec: Option<Codec>)
    requires
        data_shards + parity_shards <= usize::MAX,
    ensures
        codec is Some <==> (data_shards > 0 && parity_shards > 0 && data_shards + parity_shards
            <= MAX_SHARDS),
        codec is Some ==> codec_data_shards(&codec.unwrap()) == data_shards,
        codec is Some ==> codec_parity_shards(&codec.unwrap()) == parity_shards,
{
    ReedSolomon::new(data_shards, parity_shards).ok().map(|inner| Codec { inner })
}

/// `ReedSolomon::encode`: works exactly on a full block of non-empty shards
/// of one length; it then leaves the data shards as they are and overwrites
/// the parity shards with the parity of the data. On any other input it
/// touches nothing. No shard changes its length.
#[verifier::external_body]
pub(crate) fn encode_block(codec: &Codec, shards: &mut Vec<Vec<u8>>) -> (ok: bool)
    ensures
        ok <==> (old(shards)@.len() > 0 && old(shards)@[0]@.len() > 0 && is_block(
            bytes_of(old(shards)@),
            codec_data_shards(codec) + codec_parity_shards(codec),
            old(shards)@[0]@.len(),
        )),
        final(shards)@.len() == old(shards)@.len(),
        forall|i: int|
            0 <= i < old(shards)@.len() ==> (#[trigger] final(shards)@[i])@.len() == old(
                shards,
            )@[i]@.len(),
        ok ==> bytes_of(final(shards)@) == bytes_of(old(shards)@).take(
            codec_data_shards(codec) as int,
        ) + rs_parity(
            codec_data_shards(codec),
            codec_parity_shards(codec),
            bytes_of(old(shards)@).take(codec_data_shards(codec) as int),
        ),
        !ok ==> bytes_of(final(shards)@) == bytes_of(old(shards)@),
{
    codec.inner.encode(shards).is_ok()
}

/// `ReedSolomon::reconstruct` on shards of one length: works exactly on a
/// full block of non-empty shards of which at least as many are present as
/// the codec has data shards. It never changes a present shard or a length,
/// and touches nothing when it fails. When it works, and the present shards
/// are those of the codeword of some data, it leaves that codeword.
#[verifier::external_body]
pub(crate) fn repair_block(codec: &Codec, shards: &mut Vec<Vec<u8>>, present: &Vec<bool>) -> (ok:
    bool)
    requires
        old(shards)@.len() == present@.len(),
        is_block(bytes_of(old(shards)@), old(shards)@.len(), old(shards)@[0]@.len()),
    ensures
        ok <==> (old(shards)@.len() == codec_data_shards(codec) + codec_parity_shards(codec)
            && count_present(present@) >= codec_data_shards(codec) && old(shards)@[0]@.len() > 0),
        final(shards)@.len() == old(shards)@.len(),
        forall|i: int|
            0 <= i < old(shards)@.len() ==> (#[trigger] final(shards)@[i])@.len() == old(
                shards,
            )@[i]@.len(),
        agree_where_present(bytes_of(final(shards)@), present@, bytes_of(old(shards)@)),
        ok ==> bytes_of(final(shards)@) == rs_repaired(
            codec_data_shards(codec),
            codec_parity_shards(codec),
            bytes_of(old(shards)@),
            present@,
        ),
        !ok ==> bytes_of(final(shards)@) == bytes_of(old(shards)@),
        ok ==> forall|data: Seq<Seq<u8>>|
            is_block(data, codec_data_shards(codec), old(shards)@[0]@.len())
                && agree_where_present(
                bytes_of(old(shards)@),
                present@,
                #[trigger] codeword(codec_data_shards(codec), codec_parity_shards(codec), data),
            ) ==> bytes_of(final(shards)@) == codeword(
                codec_data_shards(codec),
                codec_parity_shards(codec),
                data,
            ),
{
    let mut slots: Vec<(&mut [u8], bool)> =
        shards.iter_mut().zip(present.iter()).map(|(shard, given)| (shard.as_mut_slice(), *given)).collect();
    codec.inner.reconstruct(&mut slots).is_ok()
}

} // verus!
