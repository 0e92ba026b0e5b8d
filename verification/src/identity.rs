//! Stable identifiers of media sources.

use vstd::prelude::*;

verus! {

/// What the identifier of a source without a name is.
pub const IDENTITY_BASIS: u64 = 14695981039346656037;

/// What every byte multiplies the identifier by.
pub const IDENTITY_PRIME: u64 = 1099511628211;

/// The identifier of a source: the 64-bit FNV-1a hash of its name's bytes.
pub open spec fn source_identity(bytes: Seq<u8>) -> u64
    decreases bytes.len(),
{
    if bytes.len() == 0 {
        IDENTITY_BASIS
    } else {
        (source_identity(bytes.drop_last()) ^ (bytes.last() as u64)).wrapping_mul(IDENTITY_PRIME)
    }
}

/// The identifier of a source.
pub fn identify_source(source: &str) -> (identity: u64)
    ensures
        identity == source_identity(vstd::utf8::encode_utf8(source@)),
{
    let bytes: &[u8] = source.as_bytes();
    let mut identity: u64 = IDENTITY_BASIS;
    let mut index: usize = 0;
    assert(bytes@.subrange(0, 0) =~= Seq::empty());
    while index < bytes.len()
        invariant
            index <= bytes@.len(),
            identity == source_identity(bytes@.subrange(0, index as int)),
        decreases bytes@.len() - index,
    {
        proof {
            let more = bytes@.subrange(0, index + 1);
            assert(more.drop_last() =~= bytes@.subrange(0, index as int));
        }
        identity = (identity ^ (bytes[index] as u64)).wrapping_mul(IDENTITY_PRIME);
        index = index + 1;
    }
    assert(bytes@.subrange(0, bytes@.len() as int) =~= bytes@);
    identity
}

} // verus!
