use vstd::prelude::*;

use rand::{RngCore, SeedableRng};
use rand_chacha::ChaChaRng;
use sha2::{Digest, Sha256};

verus! {

/// The number whose big-endian bytes are hashed into the loot pool's seed.
pub const LOOT_SECRET: u128 = 123456;

/// Byte `k` (counted from the most significant) of the big-endian encoding of `x`.
pub open spec fn be_byte(x: u128, k: int) -> u8 {
    ((x >> (((15 - k) * 8) as u32)) & 0xff) as u8
}

/// The 16-byte big-endian encoding of `x`.
pub open spec fn be_bytes_u128(x: u128) -> Seq<u8> {
    Seq::new(16, |k: int| be_byte(x, k))
}

/// The SHA-256 digest of `data`.
pub uninterp spec fn sha256_of(data: Seq<u8>) -> Seq<u8>;

/// The first `u32` drawn from a ChaCha20 generator seeded with `seed`.
pub uninterp spec fn chacha_first_u32(seed: Seq<u8>) -> u32;

/// The draw that decides which item a loot pool round hands out.
pub open spec fn loot_draw_value() -> u32 {
    chacha_first_u32(sha256_of(be_bytes_u128(LOOT_SECRET)))
}

/// The big-endian bytes of `x`.
pub fn u128_to_be_bytes(x: u128) -> (r: Vec<u8>)
    ensures
        r@ == be_bytes_u128(x),
{
    let mut out: Vec<u8> = Vec::new();
    let mut i: u32 = 0;
    while i < 16
        invariant
            i <= 16,
            out@.len() == i,
            forall|k: int| 0 <= k < i ==> #[trigger] out@[k] == be_byte(x, k),
        decreases 16 - i,
    {
        let shift: u32 = (15 - i) * 8;
        out.push(((x >> shift) & 0xff) as u8);
        i = i + 1;
    }
    assert(out@ =~= be_bytes_u128(x));
    out
}

/// Calls `sha2::Sha256::digest` on `data` and returns the 32-byte digest.
/// Trusted: the digest is a function of `data` alone, named `sha256_of`.
#[verifier::external_body]
fn sha256_digest(data: &[u8]) -> (r: [u8; 32])
    ensures
        r@ == sha256_of(data@),
{
    Sha256::digest(data).into()
}

/// Seeds `rand_chacha::ChaChaRng` with `seed` (`SeedableRng::from_seed`) and returns
/// its first `RngCore::next_u32` output. Trusted: ChaCha20 is deterministic, so the
/// output is a function of the seed alone, named `chacha_first_u32`.
#[verifier::external_body]
fn chacha_first_draw(seed: [u8; 32]) -> (r: u32)
    ensures
        r == chacha_first_u32(seed@),
{
    let mut rng = ChaChaRng::from_seed(seed);
    rng.next_u32()
}

/// The draw of a loot pool round: the first ChaCha20 output seeded with the
/// SHA-256 digest of the big-endian bytes of `LOOT_SECRET`.
pub fn loot_draw() -> (r: u32)
    ensures
        r == loot_draw_value(),
{
    let secret = u128_to_be_bytes(LOOT_SECRET);
    let seed = sha256_digest(secret.as_slice());
    chacha_first_draw(seed)
}

} // verus!
