//! Handles to musics and sound effects, made from their names by a 64-bit FNV-1a hash.

use vstd::prelude::*;
use vstd::string::StringSliceAdditionalSpecFns;

verus! {

pub const FNV_OFFSET_BASIS: u64 = 0xcbf2_9ce4_8422_2325;

pub const FNV_PRIME: u64 = 0x0100_0000_01b3;

/// The 64-bit FNV-1a hash of `bytes`, from `h`: each byte is xored in, then the hash is
/// multiplied by the prime modulo `2^64`.
pub open spec fn fnv1a_from(h: u64, bytes: Seq<u8>) -> u64
    decreases bytes.len(),
{
    if bytes.len() == 0 {
        h
    } else {
        let prev = fnv1a_from(h, bytes.drop_last());
        (prev ^ (bytes.last() as u64)).wrapping_mul(FNV_PRIME)
    }
}

/// What hashing a string writes: its bytes, then the byte `0xff`.
pub open spec fn str_hash_input(s: &str) -> Seq<u8> {
    s.spec_bytes().push(0xffu8)
}

/// The hash of a name.
pub open spec fn name_hash(s: &str) -> u64 {
    fnv1a_from(FNV_OFFSET_BASIS, str_hash_input(s))
}

/// The FNV-1a hash of `bytes` from the offset basis.
fn fnv1a(bytes: &[u8], last: u8) -> (r: u64)
    ensures
        r == fnv1a_from(FNV_OFFSET_BASIS, bytes@.push(last)),
{
    let mut h: u64 = FNV_OFFSET_BASIS;
    let mut i: usize = 0;
    while i < bytes.len()
        invariant
            i <= bytes@.len(),
            h == fnv1a_from(FNV_OFFSET_BASIS, bytes@.take(i as int)),
        decreases bytes@.len() - i,
    {
        proof {
            assert(bytes@.take(i as int + 1).drop_last() =~= bytes@.take(i as int));
        }
        h = (h ^ (bytes[i] as u64)).wrapping_mul(FNV_PRIME);
        i = i + 1;
    }
    proof {
        assert(bytes@.take(i as int) =~= bytes@);
        assert(bytes@.push(last).drop_last() =~= bytes@);
    }
    (h ^ (last as u64)).wrapping_mul(FNV_PRIME)
}

/// A handle to a music.
#[derive(Copy, Clone, Debug, PartialEq, Eq, Structural)]
pub struct MusicId(pub u64);

/// A handle to a sound effect.
#[derive(Copy, Clone, Debug, PartialEq, Eq, Structural)]
pub struct SfxId(pub u64);

impl MusicId {
    /// The handle of the music named `s`.
    pub fn new(s: &str) -> (r: Self)
        ensures
            r.0 == name_hash(s),
    {
        MusicId(fnv1a(s.as_bytes(), 0xff))
    }
}

impl SfxId {
    /// The handle of the sound effect named `s`.
    pub fn new(s: &str) -> (r: Self)
        ensures
            r.0 == name_hash(s),
    {
        SfxId(fnv1a(s.as_bytes(), 0xff))
    }
}

} // verus!
