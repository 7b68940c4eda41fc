//! Identity derivation: a 64-bit FNV-1a hash over the bytes of an email
//! address. The mapping is deterministic within one process; it is not
//! promised stable across versions of this library, and callers must never
//! persist the derived identifiers.

use vstd::prelude::*;

verus! {

/// FNV-1a 64-bit offset basis.
pub const FNV_OFFSET: u64 = 0xcbf2_9ce4_8422_2325;

/// FNV-1a 64-bit prime.
pub const FNV_PRIME: u64 = 0x0000_0100_0000_01b3;

/// One FNV-1a round: fold one byte into the running state.
pub open spec fn fnv1a_step(h: u64, b: u8) -> u64 {
    vstd::wrapping::u64_specs::wrapping_mul(h ^ (b as u64), FNV_PRIME)
}

/// The FNV-1a state after folding every byte of `s` into `h`, front to back.
pub open spec fn fnv1a_from(h: u64, s: Seq<u8>) -> u64
    decreases s.len(),
{
    if s.len() == 0 {
        h
    } else {
        fnv1a_from(fnv1a_step(h, s[0]), s.drop_first())
    }
}

/// The identifier derived from a byte string: FNV-1a 64 from the offset basis.
pub open spec fn fnv1a(s: Seq<u8>) -> u64 {
    fnv1a_from(FNV_OFFSET, s)
}

/// Derive the 64-bit identifier of a byte string.
pub fn fnv1a_hash(bytes: &Vec<u8>) -> (r: u64)
    ensures
        r == fnv1a(bytes@),
{
    let mut h: u64 = FNV_OFFSET;
    let mut i: usize = 0;
    proof {
        assert(bytes@.skip(0) =~= bytes@);
    }
    while i < bytes.len()
        invariant
            i <= bytes.len(),
            fnv1a(bytes@) == fnv1a_from(h, bytes@.skip(i as int)),
        decreases bytes.len() - i,
    {
        proof {
            assert(bytes@.skip(i as int).drop_first() =~= bytes@.skip(i as int + 1));
            assert(bytes@.skip(i as int)[0] == bytes@[i as int]);
        }
        h = (h ^ (bytes[i] as u64)).wrapping_mul(FNV_PRIME);
        i = i + 1;
    }
    proof {
        assert(bytes@.skip(bytes.len() as int) =~= Seq::<u8>::empty());
    }
    h
}

} // verus!
