//! Little-endian integers inside byte strings.
//!
//! Everything the loader and the kernel take from outside — the boot package,
//! executable images, firmware tables — is read through the three functions
//! here, each of which refuses an offset that does not leave enough bytes.

use vstd::array::spec_array_update;
use vstd::pervasive::arbitrary;
use vstd::prelude::*;

use crate::limits::MAX_INLINE_PAYLOAD;

verus! {

/// The `width` bytes of `s` starting at `at`, read as one little-endian number.
pub open spec fn le(s: Seq<u8>, at: int, width: nat) -> nat
    decreases width,
{
    if width == 0 {
        0
    } else {
        (s[at] + 256 * le(s, at + 1, (width - 1) as nat)) as nat
    }
}

/// True when `width` bytes starting at `at` lie inside `s`.
pub open spec fn in_bounds(s: Seq<u8>, at: int, width: int) -> bool {
    0 <= at && at + width <= s.len()
}

/// Reads a `u16` at `offset`; `None` when it does not lie inside `bytes`.
pub fn read_u16(bytes: &[u8], offset: usize) -> (value: Option<u16>)
    ensures
        value is Some <==> in_bounds(bytes@, offset as int, 2),
        value matches Some(v) ==> v == le(bytes@, offset as int, 2),
{
    if bytes.len() < 2 || offset > bytes.len() - 2 {
        return None;
    }
    proof {
        reveal_with_fuel(le, 3);
    }
    Some(bytes[offset] as u16 + 256 * (bytes[offset + 1] as u16))
}

/// Reads a `u32` at `offset`; `None` when it does not lie inside `bytes`.
pub fn read_u32(bytes: &[u8], offset: usize) -> (value: Option<u32>)
    ensures
        value is Some <==> in_bounds(bytes@, offset as int, 4),
        value matches Some(v) ==> v == le(bytes@, offset as int, 4),
{
    if bytes.len() < 4 || offset > bytes.len() - 4 {
        return None;
    }
    proof {
        reveal_with_fuel(le, 5);
    }
    Some(
        bytes[offset] as u32 + 0x100 * (bytes[offset + 1] as u32) + 0x1_0000 * (bytes[offset
            + 2] as u32) + 0x100_0000 * (bytes[offset + 3] as u32),
    )
}

/// Reads a `u64` at `offset`; `None` when it does not lie inside `bytes`.
pub fn read_u64(bytes: &[u8], offset: usize) -> (value: Option<u64>)
    ensures
        value is Some <==> in_bounds(bytes@, offset as int, 8),
        value matches Some(v) ==> v == le(bytes@, offset as int, 8),
{
    if bytes.len() < 8 || offset > bytes.len() - 8 {
        return None;
    }
    proof {
        reveal_with_fuel(le, 9);
    }
    let low: u64 = bytes[offset] as u64 + 0x100 * (bytes[offset + 1] as u64) + 0x1_0000 * (
    bytes[offset + 2] as u64) + 0x100_0000 * (bytes[offset + 3] as u64);
    let high: u64 = bytes[offset + 4] as u64 + 0x100 * (bytes[offset + 5] as u64) + 0x1_0000 * (
    bytes[offset + 6] as u64) + 0x100_0000 * (bytes[offset + 7] as u64);
    Some(low + 0x1_0000_0000 * high)
}

/// The array that holds the elements of `s`.
pub open spec fn array_of<T, const N: usize>(s: Seq<T>) -> [T; N] {
    choose|a: [T; N]| a@ == s
}

/// An array is the array of its elements.
pub proof fn array_of_elements<T, const N: usize>(a: [T; N])
    ensures
        array_of::<T, N>(a@) == a,
{
    let b = array_of::<T, N>(a@);
    assert(b@ == a@);
}

/// Every sequence of the right length is that of an array, so [`array_of`] holds
/// its elements.
pub proof fn array_of_holds<T, const N: usize>(s: Seq<T>)
    requires
        s.len() == N,
    ensures
        array_of::<T, N>(s)@ == s,
{
    let a = filled_up_to::<T, N>(s, N as int);
    filling_keeps_elements::<T, N>(s, N as int);
    assert(a@ =~= s);
}

/// Some array that holds the first `n` elements of `s`.
spec fn filled_up_to<T, const N: usize>(s: Seq<T>, n: int) -> [T; N]
    decreases n,
{
    if n <= 0 {
        arbitrary()
    } else {
        spec_array_update(filled_up_to::<T, N>(s, n - 1), n - 1, s[n - 1])
    }
}

proof fn filling_keeps_elements<T, const N: usize>(s: Seq<T>, n: int)
    requires
        s.len() == N,
        0 <= n <= N,
    ensures
        forall|i: int| 0 <= i < n ==> #[trigger] filled_up_to::<T, N>(s, n)@[i] == s[i],
    decreases n,
{
    if n > 0 {
        filling_keeps_elements::<T, N>(s, n - 1);
        let before = filled_up_to::<T, N>(s, n - 1);
        let after = spec_array_update(before, n - 1, s[n - 1]);
        assert(after@ == before@.update(n - 1, s[n - 1]));
    }
}

/// The lowest `width` bytes of a number, little-endian.
pub open spec fn le_bytes(value: nat, width: nat) -> Seq<u8>
    decreases width,
{
    if width == 0 {
        Seq::empty()
    } else {
        seq![(value % 256) as u8] + le_bytes(value / 256, (width - 1) as nat)
    }
}

/// A number has as many bytes as were asked for.
pub proof fn le_bytes_len(value: nat, width: nat)
    ensures
        le_bytes(value, width).len() == width,
    decreases width,
{
    if width > 0 {
        le_bytes_len(value / 256, (width - 1) as nat);
    }
}

/// Reading back what was written gives the number.
pub proof fn written_number_reads_back(s: Seq<u8>, at: int, value: nat, width: nat)
    requires
        0 <= at,
        at + width <= s.len(),
        s.subrange(at, at + width) == le_bytes(value, width),
    ensures
        le(s, at, width) == value % vstd::arithmetic::power::pow(256, width) as nat,
    decreases width,
{
    vstd::arithmetic::power::lemma_pow0(256);
    if width > 0 {
        let rest = (width - 1) as nat;
        let part = s.subrange(at, at + width);
        le_bytes_len(value / 256, rest);
        assert(part[0] == s[at]);
        assert(s.subrange(at + 1, at + 1 + rest) =~= le_bytes(value / 256, rest)) by {
            assert forall|i: int| 0 <= i < rest implies #[trigger] s.subrange(
                at + 1,
                at + 1 + rest,
            )[i] == le_bytes(value / 256, rest)[i] by {
                assert(part[i + 1] == s[at + 1 + i]);
            }
        }
        written_number_reads_back(s, at + 1, value / 256, rest);
        vstd::arithmetic::power::lemma_pow1(256);
        vstd::arithmetic::power::lemma_pow_adds(256, 1, rest);
        vstd::arithmetic::power::lemma_pow_positive(256, rest);
        let p = vstd::arithmetic::power::pow(256, rest);
        vstd::arithmetic::div_mod::lemma_mod_breakdown(value as int, 256, p);
    }
}

/// Writes a `u64` into a payload.
pub fn put_u64(payload: &mut [u8; MAX_INLINE_PAYLOAD], at: usize, value: u64)
    requires
        at + 8 <= MAX_INLINE_PAYLOAD,
    ensures
        final(payload)@ == old(payload)@.take(at as int) + le_bytes(value as nat, 8) + old(
            payload,
        )@.skip(at + 8),
{
    let ghost before = payload@;
    let ghost whole = le_bytes(value as nat, 8);
    let mut rest: u64 = value;
    proof {
        le_bytes_len(value as nat, 8);
    }
    for i in 0..8usize
        invariant
            at + 8 <= MAX_INLINE_PAYLOAD,
            before.len() == MAX_INLINE_PAYLOAD,
            whole.len() == 8,
            whole.skip(i as int) == le_bytes(rest as nat, (8 - i) as nat),
            forall|k: int|
                0 <= k < MAX_INLINE_PAYLOAD ==> #[trigger] payload@[k] == if at <= k < at + i {
                    whole[k - at]
                } else {
                    before[k]
                },
    {
        let ghost here = le_bytes(rest as nat, (8 - i) as nat);
        proof {
            le_bytes_len(rest as nat / 256, (7 - i) as nat);
            assert(whole.skip(i as int)[0] == whole[i as int]);
            assert(whole.skip(i + 1) =~= le_bytes(rest as nat / 256, (7 - i) as nat)) by {
                assert forall|k: int| 0 <= k < 7 - i implies #[trigger] whole.skip(i + 1)[k]
                    == le_bytes(rest as nat / 256, (7 - i) as nat)[k] by {
                    assert(whole.skip(i as int)[k + 1] == here[k + 1]);
                }
            }
        }
        payload[at + i] = (rest % 256) as u8;
        rest = rest / 256;
    }
    assert(payload@ =~= before.take(at as int) + whole + before.skip(at + 8));
}

} // verus!
