//! Small helpers shared by the rest of the crate.

use vstd::prelude::*;
use vstd::std_specs::cmp::PartialEqSpec;
use vstd::string::to_string_from_display_ensures;
use vstd::string::StringSliceAdditionalSpecFns;

verus! {

/// Mask folded into the running hash after every byte: alternating one and
/// zero bits over the whole 128-bit word.
pub const SEED_XOR: u128 = 0xAAAA_AAAA_AAAA_AAAA_AAAA_AAAA_AAAA_AAAA;

/// One step of the seed hash: multiply by 31, add the byte (both modulo
/// 2^128), then flip every other bit.
pub open spec fn hash_step(val: u128, byte: u8) -> u128 {
    31u128.wrapping_mul(val).wrapping_add(byte as u128) ^ SEED_XOR
}

/// The seed hash of a byte string: `hash_step` folded over the bytes from
/// left to right, starting at 17.
pub open spec fn hash_bytes(bytes: Seq<u8>) -> u128
    decreases bytes.len(),
{
    if bytes.len() == 0 {
        17
    } else {
        hash_step(hash_bytes(bytes.drop_last()), bytes.last())
    }
}

/// Byte `i` of `val`, counting from the least significant one.
pub open spec fn seed_byte(val: u128, i: int) -> u8 {
    ((val >> ((8 * i) as u128)) & 0xff) as u8
}

/// Derives a 16-byte generator seed from a string. The same string always
/// gives the same seed: the bytes are those of `hash_bytes` over the
/// string's UTF-8 encoding, least significant byte first.
pub fn stable_hash_seed(s: &str) -> (seed: [u8; 16])
    ensures
        forall|i: int| 0 <= i < 16 ==> seed@[i] == seed_byte(hash_bytes(s.spec_bytes()), i),
{
    let bytes = s.as_bytes();
    let mut val: u128 = 17;
    let mut k: usize = 0;
    while k < bytes.len()
        invariant
            k <= bytes@.len(),
            val == hash_bytes(bytes@.subrange(0, k as int)),
        decreases bytes@.len() - k,
    {
        proof {
            let next = bytes@.subrange(0, k + 1);
            assert(next.drop_last() =~= bytes@.subrange(0, k as int));
            assert(next.last() == bytes@[k as int]);
        }
        val = 31u128.wrapping_mul(val).wrapping_add(bytes[k] as u128);
        val = val ^ SEED_XOR;
        k += 1;
    }
    assert(bytes@.subrange(0, k as int) =~= bytes@);
    let mut seed: [u8; 16] = [0u8; 16];
    let mut i: usize = 0;
    while i < 16
        invariant
            i <= 16,
            forall|j: int| 0 <= j < i ==> seed@[j] == seed_byte(val, j),
        decreases 16 - i,
    {
        let shift: u128 = 8 * (i as u128);
        let low: u128 = (val >> shift) & 0xff;
        assert(low <= 0xff) by (bit_vector)
            requires
                low == (val >> shift) & 0xff,
        ;
        seed[i] = low as u8;
        i += 1;
    }
    seed
}

/// Renders every item of a slice as a `String`, in order.
pub fn into_string_vec<I: core::fmt::Display>(val: &[I]) -> (strings: Vec<String>)
    ensures
        strings@.len() == val@.len(),
        forall|i: int|
            0 <= i < val@.len() ==> to_string_from_display_ensures::<I>(
                &val@[i],
                #[trigger] strings@[i],
            ),
{
    let mut strings: Vec<String> = Vec::with_capacity(val.len());
    let mut k: usize = 0;
    while k < val.len()
        invariant
            k <= val@.len(),
            strings@.len() == k,
            forall|i: int|
                0 <= i < k ==> to_string_from_display_ensures::<I>(
                    &val@[i],
                    #[trigger] strings@[i],
                ),
        decreases val@.len() - k,
    {
        strings.push(val[k].to_string());
        k += 1;
    }
    strings
}

/// Whether the item at position `j` equals some item before it.
pub open spec fn repeats_earlier<I: PartialEq>(items: Seq<I>, j: int) -> bool {
    exists|i: int| 0 <= i < j && #[trigger] items[i].eq_spec(&items[j])
}

/// Returns the first item, in slice order, that equals an item before it;
/// `None` when all items differ.
pub fn first_duplicate<I: PartialEq>(items: &[I]) -> (dup: Option<&I>)
    ensures
        dup matches Some(item) ==> exists|j: int| 1 <= j < items@.len() && *item == items@[j],
        I::obeys_eq_spec() ==> match dup {
            None => forall|j: int| 0 <= j < items@.len() ==> !repeats_earlier(items@, j),
            Some(item) => exists|j: int|
                {
                    &&& 0 <= j < items@.len()
                    &&& *item == items@[j]
                    &&& #[trigger] repeats_earlier(items@, j)
                    &&& forall|k: int| 0 <= k < j ==> !repeats_earlier(items@, k)
                },
        },
{
    let mut j: usize = 0;
    while j < items.len()
        invariant
            j <= items@.len(),
            I::obeys_eq_spec() ==> forall|k: int| 0 <= k < j ==> !repeats_earlier(items@, k),
        decreases items@.len() - j,
    {
        let mut i: usize = 0;
        while i < j
            invariant
                i <= j < items@.len(),
                I::obeys_eq_spec() ==> forall|k: int| 0 <= k < j ==> !repeats_earlier(items@, k),
                I::obeys_eq_spec() ==> forall|h: int|
                    0 <= h < i ==> !(#[trigger] items@[h].eq_spec(&items@[j as int])),
            decreases j - i,
        {
            if items[i] == items[j] {
                proof {
                    assert(1 <= j < items@.len() && items@[j as int] == items@[j as int]);
                    if I::obeys_eq_spec() {
                        assert(items@[i as int].eq_spec(&items@[j as int]));
                        assert(repeats_earlier(items@, j as int));
                    }
                }
                return Some(&items[j]);
            }
            i += 1;
        }
        j += 1;
    }
    None
}

/// Splits a slice into its first `left` and its last `right` elements.
pub fn split_slice<T>(slice: &[T], left: usize, right: usize) -> (parts: (&[T], &[T]))
    requires
        slice@.len() == left + right,
    ensures
        parts.0@ == slice@.subrange(0, left as int),
        parts.1@ == slice@.subrange(left as int, left + right),
{
    slice.split_at(left)
}

/// Splits a mutable slice into its first `left` and its last `right`
/// elements; the two parts can be written independently.
pub fn split_slice_mut<T>(slice: &mut [T], left: usize, right: usize) -> (parts: (
    &mut [T],
    &mut [T],
))
    requires
        old(slice)@.len() == left + right,
    ensures
        parts.0@ == old(slice)@.subrange(0, left as int),
        parts.1@ == old(slice)@.subrange(left as int, left + right),
        final(slice)@ == final(parts.0)@ + final(parts.1)@,
{
    slice.split_at_mut(left)
}

} // verus!
