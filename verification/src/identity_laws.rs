//! What holds of the identifiers of sources.

use crate::identity::{source_identity, IDENTITY_PRIME};
use vstd::arithmetic::div_mod::{lemma_mod_multiples_vanish, lemma_mul_mod_noop_left, lemma_small_mod};
use vstd::prelude::*;

verus! {

/// The odd number that undoes a multiplication by the prime.
const PRIME_INVERSE: u64 = 0xce965057aff6957b;

/// One step of the 64-bit FNV-1a hash.
pub open spec fn fnv_step(hash: u64, byte: u8) -> u64 {
    (((hash ^ (byte as u64)) * 0x100_0000_01b3) % 0x1_0000_0000_0000_0000) as u64
}

/// An identifier is the 64-bit FNV-1a hash of the name: from the offset basis, every byte in turn is
/// combined with the hash, which is then multiplied by the prime.
pub proof fn law_identifiers_are_fnv_hashes(bytes: Seq<u8>)
    ensures
        source_identity(bytes) == bytes.fold_left(
            0xcbf2_9ce4_8422_2325u64,
            |hash: u64, byte: u8| fnv_step(hash, byte),
        ),
    decreases bytes.len(),
{
    if bytes.len() > 0 {
        law_identifiers_are_fnv_hashes(bytes.drop_last());
    }
}

/// Multiplying by the prime keeps numbers apart.
proof fn lemma_step_keeps_apart(a: u64, b: u64)
    requires
        a.wrapping_mul(IDENTITY_PRIME) == b.wrapping_mul(IDENTITY_PRIME),
    ensures
        a == b,
{
    lemma_step_is_undone(a);
    lemma_step_is_undone(b);
}

proof fn lemma_step_is_undone(x: u64)
    ensures
        (x.wrapping_mul(IDENTITY_PRIME) * PRIME_INVERSE) % 0x1_0000_0000_0000_0000 == x,
{
    let modulus = 0x1_0000_0000_0000_0000int;
    let p = IDENTITY_PRIME as int;
    let q = PRIME_INVERSE as int;
    let k = 887285111055int;
    assert(x.wrapping_mul(IDENTITY_PRIME) == (x * p) % modulus);
    lemma_mul_mod_noop_left(x * p, q, modulus);
    assert(p * q == modulus * k + 1);
    assert((x * p) * q == modulus * (x * k) + x) by (nonlinear_arith)
        requires
            p * q == modulus * k + 1,
    ;
    lemma_mod_multiples_vanish(x * k, x as int, modulus);
    lemma_small_mod(x as nat, modulus as nat);
}

/// Names that differ in a single byte, wherever it stands, have different identifiers.
pub proof fn law_identifiers_tell_bytes_apart(before: Seq<u8>, a: u8, b: u8, after: Seq<u8>)
    requires
        a != b,
    ensures
        source_identity(before.push(a) + after) != source_identity(before.push(b) + after),
    decreases after.len(),
{
    let x = before.push(a) + after;
    let y = before.push(b) + after;
    if after.len() == 0 {
        assert(x.drop_last() =~= before && y.drop_last() =~= before);
        let hash = source_identity(before);
        assert(hash ^ (a as u64) != hash ^ (b as u64)) by (bit_vector)
            requires
                a != b,
        ;
        if source_identity(x) == source_identity(y) {
            lemma_step_keeps_apart(hash ^ (a as u64), hash ^ (b as u64));
        }
    } else {
        let earlier = after.drop_last();
        law_identifiers_tell_bytes_apart(before, a, b, earlier);
        assert(x.drop_last() =~= before.push(a) + earlier);
        assert(y.drop_last() =~= before.push(b) + earlier);
        let g = source_identity(x.drop_last());
        let h = source_identity(y.drop_last());
        let last = after.last();
        assert(g ^ (last as u64) != h ^ (last as u64)) by (bit_vector)
            requires
                g != h,
        ;
        if source_identity(x) == source_identity(y) {
            lemma_step_keeps_apart(g ^ (last as u64), h ^ (last as u64));
        }
    }
}

} // verus!
