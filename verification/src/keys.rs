//! Storage-key layout.
//!
//! A stored message lives under the key `recipient_key || big-endian(stored_at)`,
//! so that all messages for one recipient share a common prefix and sort by
//! their insertion timestamp.

use vstd::prelude::*;

verus! {

/// The eight big-endian bytes of a 64-bit timestamp.
pub open spec fn be64(x: u64) -> Seq<u8> {
    seq![
        (x >> 56) as u8,
        (x >> 48) as u8,
        (x >> 40) as u8,
        (x >> 32) as u8,
        (x >> 24) as u8,
        (x >> 16) as u8,
        (x >> 8) as u8,
        x as u8,
    ]
}

/// The full storage key of a message: recipient key, then the timestamp.
pub open spec fn storage_key(recipient: Seq<u8>, stored_at: u64) -> Seq<u8> {
    recipient + be64(stored_at)
}

/// `p` is a prefix of `k`.
pub open spec fn has_prefix(k: Seq<u8>, p: Seq<u8>) -> bool {
    p.len() <= k.len() && k.subrange(0, p.len() as int) == p
}

/// Strict lexicographic order on byte strings, with a proper prefix ordered
/// first: the order in which the storage engine iterates keys.
pub open spec fn lex_lt(a: Seq<u8>, b: Seq<u8>) -> bool
    decreases a.len(),
{
    if a.len() == 0 {
        b.len() > 0
    } else if b.len() == 0 {
        false
    } else {
        a[0] < b[0] || (a[0] == b[0] && lex_lt(a.skip(1), b.skip(1)))
    }
}

/// The lexicographic order is irreflexive.
pub proof fn lemma_lex_lt_irrefl(a: Seq<u8>)
    ensures
        !lex_lt(a, a),
    decreases a.len(),
{
    if a.len() > 0 {
        lemma_lex_lt_irrefl(a.skip(1));
    }
}

/// The lexicographic order is asymmetric.
pub proof fn lemma_lex_lt_asymm(a: Seq<u8>, b: Seq<u8>)
    requires
        lex_lt(a, b),
    ensures
        !lex_lt(b, a),
    decreases a.len(),
{
    if a.len() > 0 && b.len() > 0 && a[0] == b[0] {
        lemma_lex_lt_asymm(a.skip(1), b.skip(1));
    }
}

/// Compares two byte vectors.
pub fn bytes_eq(a: &Vec<u8>, b: &Vec<u8>) -> (r: bool)
    ensures
        r == (a@ == b@),
{
    if a.len() != b.len() {
        return false;
    }
    let mut i: usize = 0;
    while i < a.len()
        invariant
            i <= a@.len(),
            a@.len() == b@.len(),
            forall|j: int| 0 <= j < i ==> a@[j] == b@[j],
        decreases a@.len() - i,
    {
        if a[i] != b[i] {
            return false;
        }
        i += 1;
    }
    assert(a@ =~= b@);
    true
}

/// Appends the eight big-endian bytes of `x` to `out`.
pub fn push_be64(out: &mut Vec<u8>, x: u64)
    requires
        old(out)@.len() + 8 <= usize::MAX,
    ensures
        final(out)@ == old(out)@ + be64(x),
{
    out.push((x >> 56) as u8);
    out.push((x >> 48) as u8);
    out.push((x >> 40) as u8);
    out.push((x >> 32) as u8);
    out.push((x >> 24) as u8);
    out.push((x >> 16) as u8);
    out.push((x >> 8) as u8);
    out.push(x as u8);
    assert(out@ =~= old(out)@ + be64(x));
}

/// Builds the storage key for a message to `recipient` stored at `stored_at`.
pub fn make_storage_key(recipient: &Vec<u8>, stored_at: u64) -> (r: Vec<u8>)
    requires
        recipient@.len() + 8 <= usize::MAX,
    ensures
        r@ == storage_key(recipient@, stored_at),
{
    let mut out: Vec<u8> = Vec::new();
    let mut i: usize = 0;
    while i < recipient.len()
        invariant
            i <= recipient@.len(),
            recipient@.len() + 8 <= usize::MAX,
            out@ == recipient@.subrange(0, i as int),
        decreases recipient@.len() - i,
    {
        out.push(recipient[i]);
        i += 1;
        assert(out@ =~= recipient@.subrange(0, i as int));
    }
    assert(out@ =~= recipient@);
    push_be64(&mut out, stored_at);
    out
}

/// A sequence that agrees with another up to the first smaller element is
/// lexicographically smaller.
proof fn lemma_lex_lt_from_diff(s1: Seq<u8>, s2: Seq<u8>, i: int)
    requires
        s1.len() == s2.len(),
        0 <= i < s1.len(),
        forall|j: int| 0 <= j < i ==> s1[j] == s2[j],
        s1[i] < s2[i],
    ensures
        lex_lt(s1, s2),
    decreases i,
{
    if i > 0 {
        lemma_lex_lt_from_diff(s1.skip(1), s2.skip(1), i - 1);
    }
}

/// The big-endian encoding preserves order.
pub proof fn lemma_be64_order(t1: u64, t2: u64)
    requires
        t1 < t2,
    ensures
        lex_lt(be64(t1), be64(t2)),
{
    let s1 = be64(t1);
    let s2 = be64(t2);
    assert(t1 < t2 ==> {
        ||| ((t1 >> 56) as u8) < ((t2 >> 56) as u8)
        ||| ((t1 >> 56) as u8 == (t2 >> 56) as u8 && {
            ||| ((t1 >> 48) as u8) < ((t2 >> 48) as u8)
            ||| ((t1 >> 48) as u8 == (t2 >> 48) as u8 && {
                ||| ((t1 >> 40) as u8) < ((t2 >> 40) as u8)
                ||| ((t1 >> 40) as u8 == (t2 >> 40) as u8 && {
                    ||| ((t1 >> 32) as u8) < ((t2 >> 32) as u8)
                    ||| ((t1 >> 32) as u8 == (t2 >> 32) as u8 && {
                        ||| ((t1 >> 24) as u8) < ((t2 >> 24) as u8)
                        ||| ((t1 >> 24) as u8 == (t2 >> 24) as u8 && {
                            ||| ((t1 >> 16) as u8) < ((t2 >> 16) as u8)
                            ||| ((t1 >> 16) as u8 == (t2 >> 16) as u8 && {
                                ||| ((t1 >> 8) as u8) < ((t2 >> 8) as u8)
                                ||| ((t1 >> 8) as u8 == (t2 >> 8) as u8 && (t1 as u8) < (t2 as u8))
                            })
                        })
                    })
                })
            })
        })
    }) by (bit_vector);
    if s1[0] != s2[0] {
        lemma_lex_lt_from_diff(s1, s2, 0);
    } else if s1[1] != s2[1] {
        lemma_lex_lt_from_diff(s1, s2, 1);
    } else if s1[2] != s2[2] {
        lemma_lex_lt_from_diff(s1, s2, 2);
    } else if s1[3] != s2[3] {
        lemma_lex_lt_from_diff(s1, s2, 3);
    } else if s1[4] != s2[4] {
        lemma_lex_lt_from_diff(s1, s2, 4);
    } else if s1[5] != s2[5] {
        lemma_lex_lt_from_diff(s1, s2, 5);
    } else if s1[6] != s2[6] {
        lemma_lex_lt_from_diff(s1, s2, 6);
    } else if s1[7] != s2[7] {
        lemma_lex_lt_from_diff(s1, s2, 7);
    } else {
        assert(s1 =~= s2);
        lemma_be64_injective(t1, t2);
    }
}

/// Prepending a common prefix preserves the lexicographic order.
pub proof fn lemma_lex_lt_common_prefix(p: Seq<u8>, a: Seq<u8>, b: Seq<u8>)
    requires
        lex_lt(a, b),
    ensures
        lex_lt(p + a, p + b),
    decreases p.len(),
{
    if p.len() == 0 {
        assert(p + a =~= a);
        assert(p + b =~= b);
    } else {
        lemma_lex_lt_common_prefix(p.skip(1), a, b);
        assert((p + a).skip(1) =~= p.skip(1) + a);
        assert((p + b).skip(1) =~= p.skip(1) + b);
        assert((p + a)[0] == p[0] && (p + b)[0] == p[0]);
    }
}

/// Within one recipient key, storage keys sort by timestamp: the scan
/// order is insertion order.
pub proof fn lemma_storage_key_order(recipient: Seq<u8>, t1: u64, t2: u64)
    requires
        t1 < t2,
    ensures
        lex_lt(storage_key(recipient, t1), storage_key(recipient, t2)),
{
    lemma_be64_order(t1, t2);
    lemma_lex_lt_common_prefix(recipient, be64(t1), be64(t2));
}

/// Two timestamps with the same big-endian bytes are equal.
pub proof fn lemma_be64_injective(a: u64, b: u64)
    requires
        be64(a) == be64(b),
    ensures
        a == b,
{
    assert((a >> 56) as u8 == (b >> 56) as u8
        && (a >> 48) as u8 == (b >> 48) as u8
        && (a >> 40) as u8 == (b >> 40) as u8
        && (a >> 32) as u8 == (b >> 32) as u8
        && (a >> 24) as u8 == (b >> 24) as u8
        && (a >> 16) as u8 == (b >> 16) as u8
        && (a >> 8) as u8 == (b >> 8) as u8
        && a as u8 == b as u8 ==> a == b) by (bit_vector);
    assert(be64(a)[0] == be64(b)[0]);
    assert(be64(a)[1] == be64(b)[1]);
    assert(be64(a)[2] == be64(b)[2]);
    assert(be64(a)[3] == be64(b)[3]);
    assert(be64(a)[4] == be64(b)[4]);
    assert(be64(a)[5] == be64(b)[5]);
    assert(be64(a)[6] == be64(b)[6]);
    assert(be64(a)[7] == be64(b)[7]);
}

/// Storage keys are globally unique: equal keys come from the same
/// recipient and the same timestamp.
pub proof fn lemma_storage_key_injective(r1: Seq<u8>, t1: u64, r2: Seq<u8>, t2: u64)
    requires
        storage_key(r1, t1) == storage_key(r2, t2),
    ensures
        r1 == r2,
        t1 == t2,
{
    let k1 = storage_key(r1, t1);
    let k2 = storage_key(r2, t2);
    assert(k1.len() == r1.len() + 8);
    assert(k2.len() == r2.len() + 8);
    assert(r1.len() == r2.len());
    assert(r1 =~= k1.subrange(0, r1.len() as int));
    assert(r2 =~= k2.subrange(0, r2.len() as int));
    assert(be64(t1) =~= k1.subrange(r1.len() as int, k1.len() as int));
    assert(be64(t2) =~= k2.subrange(r2.len() as int, k2.len() as int));
    lemma_be64_injective(t1, t2);
}

/// The recipient key is a prefix of every storage key built from it.
pub proof fn lemma_storage_key_has_prefix(recipient: Seq<u8>, stored_at: u64)
    ensures
        has_prefix(storage_key(recipient, stored_at), recipient),
{
    assert(storage_key(recipient, stored_at).subrange(0, recipient.len() as int) =~= recipient);
}

} // verus!
