//! Bitmaps: booleans packed eight to a byte, the first in the lowest bit.
use vstd::prelude::*;

verus! {

/// Bit `i` of the bytes, counted from the lowest bit of the first byte.
pub open spec fn bit_of(bytes: Seq<u8>, i: int) -> bool {
    (bytes[i / 8] >> ((i % 8) as u8)) & 1u8 == 1u8
}

/// The number of bytes that hold `bits` bits.
pub open spec fn bytes_for(bits: int) -> int {
    (bits + 7) / 8
}

/// Setting bit `k` of a byte sets that bit and leaves the others.
pub proof fn lemma_set_bit(byte: u8, k: u8, j: u8)
    requires
        k < 8,
        j < 8,
    ensures
        ((byte | (1u8 << k)) >> j) & 1u8 == if j == k {
            1u8
        } else {
            (byte >> j) & 1u8
        },
{
    assert(((byte | (1u8 << k)) >> j) & 1u8 == if j == k {
        1u8
    } else {
        (byte >> j) & 1u8
    }) by (bit_vector)
        requires
            k < 8,
            j < 8,
    ;
}

/// No bit of the zero byte is set.
pub proof fn lemma_zero_byte(j: u8)
    requires
        j < 8,
    ensures
        (0u8 >> j) & 1u8 == 0u8,
{
    assert((0u8 >> j) & 1u8 == 0u8) by (bit_vector)
        requires
            j < 8,
    ;
}

/// Packs booleans into bytes. Bits behind the last boolean are not set.
pub fn pack_bits(bits: &Vec<bool>) -> (bytes: Vec<u8>)
    ensures
        bytes@.len() == bytes_for(bits@.len() as int),
        forall|i: int| 0 <= i < bits@.len() ==> bit_of(bytes@, i) == #[trigger] bits@[i],
        forall|i: int| bits@.len() <= i < 8 * bytes@.len() ==> !#[trigger] bit_of(bytes@, i),
{
    let n: usize = bits.len();
    let mut bytes: Vec<u8> = Vec::new();
    let mut i: usize = 0;
    while i < n
        invariant
            i <= n,
            n == bits@.len(),
            bytes@.len() == bytes_for(i as int),
            forall|j: int| 0 <= j < i ==> bit_of(bytes@, j) == #[trigger] bits@[j],
            forall|j: int| i <= j < 8 * bytes@.len() ==> !#[trigger] bit_of(bytes@, j),
        decreases n - i,
    {
        let k: u8 = (i % 8) as u8;
        if k == 0 {
            let ghost before = bytes@;
            bytes.push(0u8);
            proof {
                assert forall|j: int| i <= j < 8 * bytes@.len() implies !#[trigger] bit_of(
                    bytes@,
                    j,
                ) by {
                    lemma_zero_byte((j % 8) as u8);
                }
                assert forall|j: int| 0 <= j < i implies bit_of(bytes@, j) == #[trigger] bits@[j] by {
                    assert(bit_of(before, j) == bits@[j]);
                }
            }
        }
        if bits[i] {
            let at: usize = i / 8;
            let ghost before = bytes@;
            let byte: u8 = bytes[at];
            bytes.set(at, byte | (1u8 << k));
            proof {
                assert forall|j: int| 0 <= j < 8 * bytes@.len() implies #[trigger] bit_of(bytes@, j)
                    == (if j == i {
                    true
                } else {
                    bit_of(before, j)
                }) by {
                    if j / 8 == at as int {
                        lemma_set_bit(byte, k, (j % 8) as u8);
                    }
                }
            }
        }
        i += 1;
    }
    bytes
}

/// Unpacks the first `len` booleans from bytes.
pub fn unpack_bits(bytes: &[u8], len: usize) -> (bits: Vec<bool>)
    requires
        len <= 8 * bytes@.len(),
    ensures
        bits@.len() == len,
        forall|i: int| 0 <= i < len ==> #[trigger] bits@[i] == bit_of(bytes@, i),
{
    let mut bits: Vec<bool> = Vec::new();
    let mut i: usize = 0;
    while i < len
        invariant
            i <= len,
            len <= 8 * bytes@.len(),
            bits@.len() == i,
            forall|j: int| 0 <= j < i ==> #[trigger] bits@[j] == bit_of(bytes@, j),
        decreases len - i,
    {
        let byte: u8 = bytes[i / 8];
        let k: u8 = (i % 8) as u8;
        bits.push((byte >> k) & 1u8 == 1u8);
        i += 1;
    }
    bits
}

/// Unpacking what was packed gives the booleans back.
pub proof fn law_pack_unpack(bits: Seq<bool>, packed: Seq<u8>, unpacked: Seq<bool>)
    requires
        packed.len() == bytes_for(bits.len() as int),
        forall|i: int| 0 <= i < bits.len() ==> bit_of(packed, i) == #[trigger] bits[i],
        unpacked.len() == bits.len(),
        forall|i: int| 0 <= i < bits.len() ==> #[trigger] unpacked[i] == bit_of(packed, i),
    ensures
        unpacked == bits,
{
    assert(unpacked =~= bits);
}

} // verus!
