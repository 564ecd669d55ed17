//! Blocks of shards as mathematical values.

use vstd::prelude::*;

verus! {

/// The byte strings held by a sequence of buffers.
pub open spec fn bytes_of(buffers: Seq<Vec<u8>>) -> Seq<Seq<u8>> {
    Seq::new(buffers.len(), |i: int| buffers[i]@)
}

/// The packets of an optional delivery.
pub open spec fn delivery_of(out: Option<Vec<Vec<u8>>>) -> Option<Seq<Seq<u8>>> {
    match out {
        Some(pkts) => Some(bytes_of(pkts@)),
        None => None,
    }
}

/// `count` shards, each of `shard_len` bytes.
pub open spec fn is_block(shards: Seq<Seq<u8>>, count: nat, shard_len: nat) -> bool {
    &&& shards.len() == count
    &&& forall|i: int| 0 <= i < count ==> (#[trigger] shards[i]).len() == shard_len
}

/// Number of shards marked present.
pub open spec fn count_present(present: Seq<bool>) -> nat
    decreases present.len(),
{
    if present.len() == 0 {
        0
    } else {
        count_present(present.drop_last()) + if present.last() {
            1nat
        } else {
            0nat
        }
    }
}

/// Every shard marked present is the shard of `full` at the same place.
pub open spec fn agree_where_present(
    shards: Seq<Seq<u8>>,
    present: Seq<bool>,
    full: Seq<Seq<u8>>,
) -> bool {
    forall|i: int|
        0 <= i < shards.len() && 0 <= i < present.len() && present[i] ==> #[trigger] shards[i]
            == full[i]
}

/// No more shards are present than there are marks.
pub proof fn lemma_count_present_bound(present: Seq<bool>)
    ensures
        count_present(present) <= present.len(),
    decreases present.len(),
{
    if present.len() > 0 {
        lemma_count_present_bound(present.drop_last());
    }
}

/// Marking one place present adds one to the count where it was absent
/// and leaves the count where it was present.
pub proof fn lemma_count_present_mark(present: Seq<bool>, idx: int)
    requires
        0 <= idx < present.len(),
    ensures
        count_present(present.update(idx, true)) == count_present(present) + if present[idx] {
            0nat
        } else {
            1nat
        },
    decreases present.len(),
{
    let marked = present.update(idx, true);
    if idx == present.len() - 1 {
        assert(marked.drop_last() =~= present.drop_last());
    } else {
        assert(marked.drop_last() =~= present.drop_last().update(idx, true));
        lemma_count_present_mark(present.drop_last(), idx);
    }
}

/// Where nothing is marked, nothing is present.
pub proof fn lemma_count_present_none(present: Seq<bool>)
    requires
        forall|i: int| 0 <= i < present.len() ==> !present[i],
    ensures
        count_present(present) == 0,
    decreases present.len(),
{
    if present.len() > 0 {
        lemma_count_present_none(present.drop_last());
    }
}

} // verus!
