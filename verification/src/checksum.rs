//! The two's-complement sum check that terminates every record.

use vstd::prelude::*;

verus! {

/// Sum of a byte sequence, as an unbounded integer.
pub open spec fn sum_bytes(b: Seq<u8>) -> int
    decreases b.len(),
{
    if b.len() == 0 {
        0
    } else {
        sum_bytes(b.drop_last()) + b.last()
    }
}

/// The checksum byte for a record body: `(0x100 - (sum mod 0x100)) mod 0x100`,
/// the unique byte that makes the body and checksum sum to zero modulo 256.
pub open spec fn checksum_spec(b: Seq<u8>) -> u8 {
    ((256 - sum_bytes(b) % 256) % 256) as u8
}

/// Replacing one byte shifts the sum by exactly the difference of the bytes.
pub proof fn lemma_sum_bytes_update(b: Seq<u8>, k: int, v: u8)
    requires
        0 <= k < b.len(),
    ensures
        sum_bytes(b.update(k, v)) == sum_bytes(b) - b[k] + v,
    decreases b.len(),
{
    if k == b.len() - 1 {
        assert(b.update(k, v).drop_last() =~= b.drop_last());
        assert(b.update(k, v).last() == v);
    } else {
        lemma_sum_bytes_update(b.drop_last(), k, v);
        assert(b.update(k, v).drop_last() =~= b.drop_last().update(k, v));
        assert(b.update(k, v).last() == b.last());
    }
}

/// Integers that differ by a nonzero amount smaller than the modulus have
/// different residues.
pub proof fn lemma_mod_256_neq(s1: int, s2: int)
    requires
        s1 != s2,
        -256 < s1 - s2 < 256,
    ensures
        s1 % 256 != s2 % 256,
{
    if s1 % 256 == s2 % 256 {
        vstd::arithmetic::div_mod::lemma_sub_mod_noop(s1, s2, 256);
        if s1 - s2 >= 0 {
            vstd::arithmetic::div_mod::lemma_small_mod((s1 - s2) as nat, 256);
        } else {
            vstd::arithmetic::div_mod::lemma_small_mod((s1 - s2 + 256) as nat, 256);
            vstd::arithmetic::div_mod::lemma_mod_add_multiples_vanish(s1 - s2, 256);
        }
    }
}

/// Bodies whose sums differ by a nonzero amount smaller than 256 have
/// different checksums.
pub proof fn lemma_checksum_differs(b1: Seq<u8>, b2: Seq<u8>)
    requires
        sum_bytes(b1) != sum_bytes(b2),
        -256 < sum_bytes(b1) - sum_bytes(b2) < 256,
    ensures
        checksum_spec(b1) != checksum_spec(b2),
{
    let s1 = sum_bytes(b1);
    let s2 = sum_bytes(b2);
    lemma_mod_256_neq(s1, s2);
    vstd::arithmetic::div_mod::lemma_mod_bound(s1, 256);
    vstd::arithmetic::div_mod::lemma_mod_bound(s2, 256);
}

/// Computes the record checksum over `data`.
pub fn checksum(data: &[u8]) -> (r: u8)
    ensures
        r == checksum_spec(data@),
{
    let n = data.len();
    let mut acc: u16 = 0;
    for i in 0..n
        invariant
            n == data@.len(),
            acc < 256,
            acc == sum_bytes(data@.take(i as int)) % 256,
    {
        let b = *vstd::slice::slice_index_get(data, i);
        proof {
            assert(data@.take(i + 1).drop_last() =~= data@.take(i as int));
            assert(data@.take(i + 1).last() == data@[i as int]);
            vstd::arithmetic::div_mod::lemma_add_mod_noop(
                sum_bytes(data@.take(i as int)),
                b as int,
                256,
            );
            vstd::arithmetic::div_mod::lemma_mod_twice(sum_bytes(data@.take(i as int)), 256);
        }
        acc = (acc + (b as u16)) % 256;
    }
    proof {
        assert(data@.take(n as int) =~= data@);
    }
    if acc == 0 {
        0
    } else {
        (256 - acc) as u8
    }
}

} // verus!
