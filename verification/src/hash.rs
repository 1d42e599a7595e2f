//! Hash functions over field elements.

use tiny_keccak::{Hasher, Keccak};
use vstd::prelude::*;

use crate::felt::{in_field, modulus_byte, Felt};

verus! {

/// A hash function from two field elements to one, chosen by type.
pub trait FeltHash {
    /// Whether `digest` is the hash of `a` and `b`. Unless a hash function
    /// says which element that is, any element is allowed.
    open spec fn hashes(a: Felt, b: Felt, digest: Felt) -> bool {
        true
    }

    /// The hash of `a` and `b`.
    fn hash(a: Felt, b: Felt) -> (digest: Felt)
        ensures
            Self::hashes(a, b, digest),
    ;
}

/// Names the Pedersen hash of the chain where a hash function is chosen by
/// type. Its curve arithmetic is not part of this crate.
#[derive(Debug, Clone, Copy)]
pub struct PedersenHash {}

/// Names the Poseidon hash of the chain where a hash function is chosen by
/// type. Its permutation is not part of this crate.
#[derive(Debug, Clone, Copy)]
pub struct PoseidonHash;

/// Keccak-256 cut to its 160 most significant bits:
/// `keccak(a || b) >> 96` over the big-endian bytes of `a` and `b`.
#[derive(Debug, Clone, Copy)]
pub struct TruncatedKeccakHash;

impl FeltHash for TruncatedKeccakHash {
    open spec fn hashes(a: Felt, b: Felt, digest: Felt) -> bool {
        digest@ == truncated_keccak(a@, b@)
    }

    fn hash(a: Felt, b: Felt) -> (digest: Felt) {
        keccak_hash(a, b)
    }
}

/// The Keccak-256 digest of `input`.
pub uninterp spec fn keccak256(input: Seq<u8>) -> Seq<u8>;

/// The Keccak-256 digest of `input`, computed by `tiny_keccak`: a hasher
/// made by `Keccak::v256` absorbs `input` with `update` and squeezes 32
/// bytes with `finalize`. The contract gives that digest its name.
#[verifier::external_body]
fn keccak256_digest(input: &[u8]) -> (digest: [u8; 32])
    ensures
        digest@ == keccak256(input@),
{
    let mut keccak = Keccak::v256();
    let mut output = [0u8;32];
    keccak.update(input);
    keccak.finalize(&mut output);
    output
}

/// `digest` shifted right by 96 bits within 32 bytes: twelve zero bytes,
/// then the first twenty bytes of `digest`.
pub open spec fn shifted_right_96(digest: Seq<u8>) -> Seq<u8> {
    Seq::new(
        32,
        |i: int|
            if i < 12 {
                0u8
            } else {
                digest[i - 12]
            },
    )
}

/// The bytes of the truncated Keccak hash of two elements with the
/// big-endian bytes `a` and `b`.
pub open spec fn truncated_keccak(a: Seq<u8>, b: Seq<u8>) -> Seq<u8> {
    shifted_right_96(keccak256(a + b))
}

/// A number of 160 bits at most is a field element.
pub proof fn lemma_shifted_digest_in_field(digest: Seq<u8>)
    ensures
        in_field(shifted_right_96(digest)),
{
    let bytes = shifted_right_96(digest);
    assert(bytes[0] < modulus_byte(0));
}

/// The truncated Keccak hash of `a` and `b`: the Keccak-256 digest of the
/// 64 bytes that are the big-endian forms of `a` and of `b`, shifted right
/// by 96 bits. What is left is always a field element.
pub fn keccak_hash(a: Felt, b: Felt) -> (digest: Felt)
    ensures
        digest@ == truncated_keccak(a@, b@),
{
    let a_bytes = a.to_be_bytes();
    let b_bytes = b.to_be_bytes();
    let mut input: Vec<u8> = Vec::new();
    let mut i: usize = 0;
    while i < 32
        invariant
            i <= 32,
            input@ == a_bytes@.take(i as int),
        decreases 32 - i,
    {
        input.push(a_bytes[i]);
        proof {
            assert(a_bytes@.take(i as int).push(a_bytes@[i as int]) =~= a_bytes@.take(i + 1));
        }
        i += 1;
    }
    proof {
        assert(a_bytes@.take(32) =~= a_bytes@);
    }
    let mut j: usize = 0;
    while j < 32
        invariant
            j <= 32,
            input@ == a_bytes@ + b_bytes@.take(j as int),
        decreases 32 - j,
    {
        input.push(b_bytes[j]);
        proof {
            assert((a_bytes@ + b_bytes@.take(j as int)).push(b_bytes@[j as int]) =~= a_bytes@
                + b_bytes@.take(j + 1));
        }
        j += 1;
    }
    proof {
        assert(b_bytes@.take(32) =~= b_bytes@);
    }
    let output = keccak256_digest(input.as_slice());
    let mut result_bytes = [0u8;32];
    let mut k: usize = 0;
    while k < 20
        invariant
            k <= 20,
            forall|n: int| 0 <= n < 12 ==> result_bytes@[n] == 0u8,
            forall|n: int| 12 <= n < 12 + k ==> result_bytes@[n] == output@[n - 12],
        decreases 20 - k,
    {
        result_bytes[12 + k] = output[k];
        k += 1;
    }
    proof {
        assert(result_bytes@ =~= shifted_right_96(output@));
        lemma_shifted_digest_in_field(output@);
    }
    Felt::from_be_bytes(result_bytes).expect("a number of 160 bits is below the modulus")
}

} // verus!
