//! The byte histogram that Shannon entropy is computed from.
use vstd::prelude::*;

verus! {

/// How many times byte `b` occurs in `bytes`.
pub open spec fn count_of(bytes: Seq<u8>, b: u8) -> nat
    decreases bytes.len(),
{
    if bytes.len() == 0 {
        0
    } else {
        count_of(bytes.drop_last(), b) + if bytes.last() == b { 1nat } else { 0nat }
    }
}

/// For each of the 256 byte values, how often it occurs in `bytes`.
pub fn byte_histogram(bytes: &[u8]) -> (r: Vec<usize>)
    ensures
        r@.len() == 256,
        forall|b: u8| #[trigger] r@[b as int] == count_of(bytes@, b),
{
    let mut r: Vec<usize> = Vec::new();
    let mut v: usize = 0;
    while v < 256
        invariant
            v <= 256,
            r@.len() == v,
            forall|k: int| 0 <= k < v ==> r@[k] == 0,
        decreases 256 - v,
    {
        r.push(0);
        v = v + 1;
    }
    let mut i: usize = 0;
    while i < bytes.len()
        invariant
            i <= bytes@.len(),
            r@.len() == 256,
            forall|b: u8| #[trigger] r@[b as int] == count_of(bytes@.take(i as int), b),
            forall|b: u8| #[trigger] r@[b as int] <= i,
        decreases bytes@.len() - i,
    {
        let x = bytes[i];
        proof {
            assert(bytes@.take(i as int + 1).drop_last() == bytes@.take(i as int));
            assert(bytes@.take(i as int + 1).last() == x);
        }
        let c = r[x as usize];
        let ghost before = r@;
        r.set(x as usize, c + 1);
        proof {
            assert forall|b: u8| #[trigger] r@[b as int] == count_of(bytes@.take(i as int + 1), b) by {
                if b != x {
                    assert(r@[b as int] == before[b as int]);
                }
            }
        }
        i = i + 1;
    }
    proof {
        assert(bytes@.take(bytes@.len() as int) == bytes@);
    }
    r
}

} // verus!

verus! {

/// A text made of one byte repeated has a single non-empty histogram bin,
/// which holds the whole length.
pub proof fn lemma_repeated_byte_single_bin(bytes: Seq<u8>, b: u8)
    requires
        forall|i: int| 0 <= i < bytes.len() ==> bytes[i] == b,
    ensures
        count_of(bytes, b) == bytes.len(),
        forall|c: u8| c != b ==> #[trigger] count_of(bytes, c) == 0,
    decreases bytes.len(),
{
    if bytes.len() > 0 {
        lemma_repeated_byte_single_bin(bytes.drop_last(), b);
    }
    assert forall|c: u8| c != b implies #[trigger] count_of(bytes, c) == 0 by {
        lemma_absent_byte_zero(bytes, c);
    }
}

/// A text whose bytes are pairwise distinct has each of them once in its histogram.
pub proof fn lemma_distinct_bytes_once(bytes: Seq<u8>)
    requires
        forall|i: int, j: int| 0 <= i < j < bytes.len() ==> bytes[i] != bytes[j],
    ensures
        forall|k: int| 0 <= k < bytes.len() ==> count_of(bytes, #[trigger] bytes[k]) == 1,
    decreases bytes.len(),
{
    if bytes.len() > 0 {
        let rest = bytes.drop_last();
        lemma_distinct_bytes_once(rest);
        lemma_absent_byte_zero(rest, bytes.last());
        assert forall|k: int| 0 <= k < bytes.len() implies count_of(bytes, #[trigger] bytes[k]) == 1 by {
            if k < bytes.len() - 1 {
                assert(rest[k] == bytes[k]);
                assert(bytes[k] != bytes.last());
            }
        }
    }
}

/// A byte that does not occur has count zero.
pub proof fn lemma_absent_byte_zero(bytes: Seq<u8>, b: u8)
    requires
        forall|i: int| 0 <= i < bytes.len() ==> bytes[i] != b,
    ensures
        count_of(bytes, b) == 0,
    decreases bytes.len(),
{
    if bytes.len() > 0 {
        lemma_absent_byte_zero(bytes.drop_last(), b);
    }
}

} // verus!
