//! Stored-value layout.
//!
//! A message is persisted as the eight big-endian bytes of its `stored_at`
//! timestamp followed by the opaque payload bytes. A stored value shorter
//! than eight bytes cannot be decoded and counts as data corruption.

use vstd::prelude::*;

use crate::keys::be64;

verus! {

/// The serialized form of a message: timestamp, then payload.
pub open spec fn encode_record_spec(payload: Seq<u8>, stored_at: u64) -> Seq<u8> {
    be64(stored_at) + payload
}

/// A stored value decodes exactly when it is at least eight bytes long.
pub open spec fn record_decodes(v: Seq<u8>) -> bool {
    v.len() >= 8
}

/// Serializes a message payload together with its `stored_at` timestamp.
pub fn encode_record(payload: &Vec<u8>, stored_at: u64) -> (r: Vec<u8>)
    requires
        payload@.len() + 8 <= usize::MAX,
    ensures
        r@ == encode_record_spec(payload@, stored_at),
{
    let mut out: Vec<u8> = Vec::new();
    crate::keys::push_be64(&mut out, stored_at);
    let mut i: usize = 0;
    while i < payload.len()
        invariant
            i <= payload@.len(),
            payload@.len() + 8 <= usize::MAX,
            out@ == be64(stored_at) + payload@.subrange(0, i as int),
        decreases payload@.len() - i,
    {
        out.push(payload[i]);
        i += 1;
        assert(out@ =~= be64(stored_at) + payload@.subrange(0, i as int));
    }
    assert(out@ =~= encode_record_spec(payload@, stored_at));
    out
}

/// Recovers the payload and the `stored_at` timestamp from a stored value.
/// Returns `None` exactly on values too short to carry a timestamp.
pub fn decode_record(v: &Vec<u8>) -> (r: Option<(Vec<u8>, u64)>)
    ensures
        match r {
            Option::None => !record_decodes(v@),
            Option::Some(pt) => v@ == encode_record_spec(pt.0@, pt.1),
        },
{
    if v.len() < 8 {
        return None;
    }
    let b0 = v[0];
    let b1 = v[1];
    let b2 = v[2];
    let b3 = v[3];
    let b4 = v[4];
    let b5 = v[5];
    let b6 = v[6];
    let b7 = v[7];
    let t: u64 = ((b0 as u64) << 56) | ((b1 as u64) << 48) | ((b2 as u64) << 40)
        | ((b3 as u64) << 32) | ((b4 as u64) << 24) | ((b5 as u64) << 16)
        | ((b6 as u64) << 8) | (b7 as u64);
    assert({
        let t2: u64 = ((b0 as u64) << 56) | ((b1 as u64) << 48) | ((b2 as u64) << 40)
            | ((b3 as u64) << 32) | ((b4 as u64) << 24) | ((b5 as u64) << 16)
            | ((b6 as u64) << 8) | (b7 as u64);
        (t2 >> 56) as u8 == b0 && (t2 >> 48) as u8 == b1 && (t2 >> 40) as u8 == b2
            && (t2 >> 32) as u8 == b3 && (t2 >> 24) as u8 == b4 && (t2 >> 16) as u8 == b5
            && (t2 >> 8) as u8 == b6 && t2 as u8 == b7
    }) by (bit_vector);
    let mut payload: Vec<u8> = Vec::new();
    let mut i: usize = 8;
    while i < v.len()
        invariant
            8 <= i <= v@.len(),
            payload@ == v@.subrange(8, i as int),
        decreases v@.len() - i,
    {
        payload.push(v[i]);
        i += 1;
        assert(payload@ =~= v@.subrange(8, i as int));
    }
    assert(v@ =~= encode_record_spec(payload@, t)) by {
        assert(be64(t) =~= v@.subrange(0, 8));
    }
    Some((payload, t))
}

/// Serialization is lossless: equal encodings come from the same payload
/// and the same timestamp.
pub proof fn lemma_encode_record_injective(p1: Seq<u8>, t1: u64, p2: Seq<u8>, t2: u64)
    requires
        encode_record_spec(p1, t1) == encode_record_spec(p2, t2),
    ensures
        p1 == p2,
        t1 == t2,
{
    let v1 = encode_record_spec(p1, t1);
    let v2 = encode_record_spec(p2, t2);
    assert(be64(t1) =~= v1.subrange(0, 8));
    assert(be64(t2) =~= v2.subrange(0, 8));
    crate::keys::lemma_be64_injective(t1, t2);
    assert(p1 =~= v1.subrange(8, v1.len() as int));
    assert(p2 =~= v2.subrange(8, v2.len() as int));
}

} // verus!
