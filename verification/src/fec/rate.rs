//! How many parity shards a run of packets gets.
//!
//! The loss model that says whether a block of a given size meets the
//! target loss works on probabilities and is not part of this library. It
//! enters as the outcome of a search: the first number of added shards with
//! which the block meets the target.

use vstd::prelude::*;

verus! {

/// Most packets that one run may have.
pub const MAX_RUN: usize = 255;

/// The overhead that a search outcome stands for: one less than the first
/// number of added shards that met the target, and never less than none.
pub open spec fn overhead_of(first_fit: nat) -> nat {
    if first_fit >= 1 {
        (first_fit - 1) as nat
    } else {
        0
    }
}

/// Most parity shards that a run of `run_len` packets may get: the block
/// stays within [`MAX_RUN`] shards, and parity never exceeds data.
pub open spec fn parity_cap(run_len: nat) -> nat {
    if MAX_RUN - run_len <= run_len {
        (MAX_RUN - run_len) as nat
    } else {
        run_len
    }
}

/// The parity count for a run of `run_len` packets with the wanted
/// `overhead`.
pub open spec fn capped(overhead: nat, run_len: nat) -> nat {
    if overhead <= parity_cap(run_len) {
        overhead
    } else {
        parity_cap(run_len)
    }
}

/// The parity count never exceeds the cap, so the block stays within
/// [`MAX_RUN`] shards and parity never exceeds data.
pub proof fn lemma_capped_bound(overhead: nat, run_len: nat)
    requires
        run_len <= MAX_RUN,
    ensures
        capped(overhead, run_len) <= run_len,
        capped(overhead, run_len) <= MAX_RUN - run_len,
        run_len + capped(overhead, run_len) <= MAX_RUN,
{
}

/// A later first fit never gives fewer parity shards.
pub proof fn lemma_capped_monotone(first_fit: nat, later_fit: nat, run_len: nat)
    requires
        run_len <= MAX_RUN,
        first_fit <= later_fit,
    ensures
        capped(overhead_of(first_fit), run_len) <= capped(overhead_of(later_fit), run_len),
{
}

/// The overhead that a search outcome stands for.
pub fn overhead(first_fit: usize) -> (wanted: usize)
    ensures
        wanted == overhead_of(first_fit as nat),
{
    if first_fit >= 1 {
        first_fit - 1
    } else {
        0
    }
}

/// Caps the wanted `overhead` for a run of `run_len` packets.
pub fn cap_overhead(overhead: usize, run_len: usize) -> (parity: usize)
    requires
        run_len <= MAX_RUN,
    ensures
        parity == capped(overhead as nat, run_len as nat),
{
    let room: usize = MAX_RUN - run_len;
    let cap: usize = if room <= run_len {
        room
    } else {
        run_len
    };
    if overhead <= cap {
        overhead
    } else {
        cap
    }
}

} // verus!
