//! Elements of the prime field with modulus `2^251 + 17 * 2^192 + 1`.

use vstd::prelude::*;

verus! {

/// The byte of the field modulus `2^251 + 17 * 2^192 + 1` at position `i`
/// of its 32-byte big-endian form.
pub open spec fn modulus_byte(i: int) -> u8 {
    if i == 0 {
        0x08
    } else if i == 7 {
        0x11
    } else if i == 31 {
        0x01
    } else {
        0x00
    }
}

/// Whether the big-endian number `bytes` is smaller than the field modulus:
/// at the first position where the two differ, `bytes` holds the smaller
/// byte.
pub open spec fn in_field(bytes: Seq<u8>) -> bool {
    bytes.len() == 32 && exists|i: int|
        0 <= i < 32 && #[trigger] bytes[i] < modulus_byte(i) && forall|j: int|
            0 <= j < i ==> #[trigger] bytes[j] == modulus_byte(j)
}

/// The 32-byte big-endian form of `value`: 24 zero bytes, then the eight
/// bytes of `value` from the most significant down.
pub open spec fn u64_be_bytes(value: u64) -> Seq<u8> {
    Seq::new(
        32,
        |i: int|
            if i < 24 {
                0u8
            } else {
                (value >> ((8 * (31 - i)) as u64)) as u8
            },
    )
}

/// A number that does not fit into the field.
#[derive(Clone, Copy, Debug, PartialEq, Eq)]
pub struct OverflowError;

/// An element of the prime field, held as 32 big-endian bytes.
#[derive(Clone, Copy, Debug, PartialEq, Eq, Hash)]
pub struct Felt {
    bytes: [u8; 32],
}

impl View for Felt {
    type V = Seq<u8>;

    closed spec fn view(&self) -> Seq<u8> {
        self.bytes@
    }
}

fn modulus_byte_at(i: usize) -> (byte: u8)
    requires
        i < 32,
    ensures
        byte == modulus_byte(i as int),
{
    if i == 0 {
        0x08
    } else if i == 7 {
        0x11
    } else if i == 31 {
        0x01
    } else {
        0x00
    }
}

impl Felt {
    #[verifier::type_invariant]
    spec fn below_modulus(self) -> bool {
        in_field(self.bytes@)
    }

    /// Two elements with the same bytes are the same element.
    pub proof fn lemma_view_injective(a: Felt, b: Felt)
        requires
            a@ == b@,
        ensures
            a == b,
    {
        assert(a.bytes =~= b.bytes);
    }

    /// The element zero.
    pub fn zero() -> (felt: Felt)
        ensures
            felt@ == Seq::new(32, |i: int| 0u8),
    {
        let bytes = [0u8;32];
        assert(bytes@[0] < modulus_byte(0));
        assert(bytes@ =~= Seq::new(32, |i: int| 0u8));
        Felt { bytes }
    }

    /// The element that stands for the number `value`.
    pub fn from_u64(value: u64) -> (felt: Felt)
        ensures
            felt@ == u64_be_bytes(value),
    {
        let mut bytes = [0u8;32];
        let mut k: usize = 0;
        while k < 8
            invariant
                k <= 8,
                forall|j: int| 0 <= j < 24 ==> bytes@[j] == 0u8,
                forall|j: int|
                    24 <= j < 24 + k ==> bytes@[j] == (value >> ((8 * (31 - j)) as u64)) as u8,
            decreases 8 - k,
        {
            let shift: u64 = 8 * (7 - k as u64);
            bytes[24 + k] = #[verifier::truncate] ((value >> shift) as u8);
            k += 1;
        }
        assert(bytes@[0] < modulus_byte(0));
        assert(bytes@ =~= u64_be_bytes(value));
        Felt { bytes }
    }

    /// The element with the big-endian bytes `bytes`, where they hold a
    /// number below the modulus; an overflow otherwise.
    pub fn from_be_bytes(bytes: [u8; 32]) -> (felt: Result<Felt, OverflowError>)
        ensures
            felt is Ok <==> in_field(bytes@),
            felt is Ok ==> felt->Ok_0@ == bytes@,
    {
        let mut i: usize = 0;
        while i < 32
            invariant
                i <= 32,
                forall|j: int| 0 <= j < i ==> #[trigger] bytes@[j] == modulus_byte(j),
            decreases 32 - i,
        {
            let limit = modulus_byte_at(i);
            if bytes[i] < limit {
                assert(bytes@[i as int] < modulus_byte(i as int));
                return Ok(Felt { bytes });
            }
            if bytes[i] > limit {
                assert(!in_field(bytes@)) by {
                    if in_field(bytes@) {
                        let k = choose|k: int|
                            0 <= k < 32 && #[trigger] bytes@[k] < modulus_byte(k) && forall|j: int|
                                0 <= j < k ==> #[trigger] bytes@[j] == modulus_byte(j);
                        if k < i {
                            assert(bytes@[k] == modulus_byte(k));
                        } else if k > i {
                            assert(bytes@[i as int] == modulus_byte(i as int));
                        }
                    }
                }
                return Err(OverflowError);
            }
            i += 1;
        }
        assert(!in_field(bytes@)) by {
            if in_field(bytes@) {
                let k = choose|k: int|
                    0 <= k < 32 && #[trigger] bytes@[k] < modulus_byte(k) && forall|j: int|
                        0 <= j < k ==> #[trigger] bytes@[j] == modulus_byte(j);
                assert(bytes@[k] == modulus_byte(k));
            }
        }
        Err(OverflowError)
    }

    /// The big-endian bytes of the element, a number below the modulus.
    pub fn to_be_bytes(&self) -> (bytes: [u8; 32])
        ensures
            bytes@ == self@,
            in_field(bytes@),
    {
        proof {
            use_type_invariant(self);
        }
        self.bytes
    }

    /// Whether `self` and `other` are the same element.
    pub fn same(&self, other: &Felt) -> (equal: bool)
        ensures
            equal == (*self == *other),
    {
        let mut i: usize = 0;
        while i < 32
            invariant
                i <= 32,
                forall|j: int| 0 <= j < i ==> self.bytes@[j] == other.bytes@[j],
            decreases 32 - i,
        {
            if self.bytes[i] != other.bytes[i] {
                return false;
            }
            i += 1;
        }
        assert(self.bytes =~= other.bytes);
        true
    }
}

} // verus!
