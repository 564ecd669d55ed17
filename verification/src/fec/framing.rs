//! Shard framing: a two-byte little-endian body length, the body, zero padding.

use vstd::prelude::*;
use vstd::slice::{slice_subrange, slice_to_vec};

verus! {

/// Largest body that the two-byte length prefix can describe.
pub const MAX_BODY: usize = 65535;

/// Bytes that the framing adds in front of every body.
pub const HEADER_LEN: usize = 2;

/// The little-endian length prefix of a body of `body_len` bytes.
pub open spec fn header(body_len: int) -> Seq<u8> {
    seq![(body_len % 256) as u8, (body_len / 256) as u8]
}

/// `count` zero bytes.
pub open spec fn zeros(count: int) -> Seq<u8> {
    Seq::new(count as nat, |i: int| 0u8)
}

/// The shard of `len` bytes that carries `pkt`: prefix, body, zero padding.
pub open spec fn padded(pkt: Seq<u8>, len: int) -> Seq<u8>
    recommends
        pkt.len() <= MAX_BODY,
        pkt.len() + HEADER_LEN <= len,
{
    header(pkt.len() as int) + pkt + zeros(len - pkt.len() - HEADER_LEN)
}

/// The body length that the first two bytes of `raw` announce.
pub open spec fn announced_len(raw: Seq<u8>) -> int
    recommends
        raw.len() >= HEADER_LEN,
{
    raw[0] as int + 256 * (raw[1] as int)
}

/// The body carried by the shard `raw`, or `None` where `raw` is too short to
/// hold a prefix or the body the prefix announces.
pub open spec fn unframed(raw: Seq<u8>) -> Option<Seq<u8>> {
    if raw.len() < HEADER_LEN || announced_len(raw) + HEADER_LEN > raw.len() {
        None
    } else {
        Some(raw.subrange(HEADER_LEN as int, HEADER_LEN + announced_len(raw)))
    }
}

/// Framing then unframing gives the packet back, whatever the padding.
pub proof fn lemma_unframed_padded(pkt: Seq<u8>, len: int)
    requires
        pkt.len() <= MAX_BODY,
        pkt.len() + HEADER_LEN <= len,
    ensures
        padded(pkt, len).len() == len,
        unframed(padded(pkt, len)) == Some(pkt),
{
}

/// Frames `pkt` into a shard of exactly `len` bytes.
pub fn pre_encode(pkt: &[u8], len: usize) -> (shard: Vec<u8>)
    requires
        pkt@.len() <= MAX_BODY,
        pkt@.len() + HEADER_LEN <= len,
    ensures
        shard@ == padded(pkt@, len as int),
        shard@.len() == len,
{
    let body_len: usize = pkt.len();
    let mut shard: Vec<u8> = Vec::with_capacity(len);
    shard.push((body_len % 256) as u8);
    shard.push((body_len / 256) as u8);
    let mut i: usize = 0;
    while i < body_len
        invariant
            i <= body_len,
            body_len == pkt@.len(),
            shard@ == header(body_len as int) + pkt@.subrange(0, i as int),
        decreases body_len - i,
    {
        shard.push(pkt[i]);
        i += 1;
    }
    let pad: usize = len - body_len - HEADER_LEN;
    let mut j: usize = 0;
    while j < pad
        invariant
            j <= pad,
            shard@ == header(body_len as int) + pkt@ + zeros(j as int),
        decreases pad - j,
    {
        shard.push(0u8);
        j += 1;
    }
    shard
}

/// Strips the framing of `raw`: the body its prefix announces, or `None`
/// where `raw` cannot hold it.
pub fn post_decode(raw: &[u8]) -> (body: Option<Vec<u8>>)
    ensures
        body is Some <==> unframed(raw@) is Some,
        body matches Some(b) ==> Some(b@) == unframed(raw@),
{
    if raw.len() < HEADER_LEN {
        return None;
    }
    let body_len: usize = raw[0] as usize + 256 * (raw[1] as usize);
    if body_len > raw.len() - HEADER_LEN {
        return None;
    }
    let body = slice_to_vec(slice_subrange(raw, HEADER_LEN, HEADER_LEN + body_len));
    Some(body)
}

} // verus!
