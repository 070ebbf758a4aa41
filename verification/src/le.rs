//! Little-endian integers, as the container stores them.

use byteorder::ByteOrder;
use byteorder::LittleEndian;
use vstd::prelude::*;
use vstd::slice::slice_subrange;
use vstd::slice::slice_to_vec;

verus! {

/// The unsigned number that `width` bytes of `bytes` from `at` spell,
/// least significant byte first.
pub open spec fn le_value(bytes: Seq<u8>, at: int, width: nat) -> nat
    decreases width,
{
    if width == 0 {
        0
    } else {
        bytes[at] as nat + 256 * le_value(bytes, at + 1, (width - 1) as nat)
    }
}

/// The 16-bit number stored at `at`.
pub open spec fn le_u16_at(bytes: Seq<u8>, at: int) -> u16 {
    le_value(bytes, at, 2) as u16
}

/// The 32-bit number stored at `at`.
pub open spec fn le_u32_at(bytes: Seq<u8>, at: int) -> u32 {
    le_value(bytes, at, 4) as u32
}

/// The 64-bit number stored at `at`.
pub open spec fn le_u64_at(bytes: Seq<u8>, at: int) -> u64 {
    le_value(bytes, at, 8) as u64
}

/// The signed 32-bit number stored at `at`, in two's complement.
pub open spec fn le_i32_at(bytes: Seq<u8>, at: int) -> i32 {
    let raw = le_value(bytes, at, 4);
    if raw >= 0x8000_0000 {
        (raw - 0x1_0000_0000) as i32
    } else {
        raw as i32
    }
}

/// The signed 64-bit number stored at `at`, in two's complement.
pub open spec fn le_i64_at(bytes: Seq<u8>, at: int) -> i64 {
    let raw = le_value(bytes, at, 8);
    if raw >= 0x8000_0000_0000_0000 {
        (raw - 0x1_0000_0000_0000_0000) as i64
    } else {
        raw as i64
    }
}

/// Calls `byteorder::LittleEndian::read_u16`, which reads the first two
/// bytes of its argument as a little-endian number and panics on a
/// shorter slice.
#[verifier::external_body]
pub(crate) fn read_u16(buf: &[u8]) -> (value: u16)
    requires
        buf@.len() >= 2,
    ensures
        value == le_u16_at(buf@, 0),
{
    LittleEndian::read_u16(buf)
}

/// Calls `byteorder::LittleEndian::read_u32`, which reads the first four
/// bytes of its argument as a little-endian number and panics on a
/// shorter slice.
#[verifier::external_body]
pub(crate) fn read_u32(buf: &[u8]) -> (value: u32)
    requires
        buf@.len() >= 4,
    ensures
        value == le_u32_at(buf@, 0),
{
    LittleEndian::read_u32(buf)
}

/// Calls `byteorder::LittleEndian::read_u64`, which reads the first eight
/// bytes of its argument as a little-endian number and panics on a
/// shorter slice.
#[verifier::external_body]
pub(crate) fn read_u64(buf: &[u8]) -> (value: u64)
    requires
        buf@.len() >= 8,
    ensures
        value == le_u64_at(buf@, 0),
{
    LittleEndian::read_u64(buf)
}

/// Calls `byteorder::LittleEndian::read_i32`, which reads the first four
/// bytes of its argument as a little-endian two's complement number and
/// panics on a shorter slice.
#[verifier::external_body]
pub(crate) fn read_i32(buf: &[u8]) -> (value: i32)
    requires
        buf@.len() >= 4,
    ensures
        value == le_i32_at(buf@, 0),
{
    LittleEndian::read_i32(buf)
}

/// Calls `byteorder::LittleEndian::read_i64`, which reads the first eight
/// bytes of its argument as a little-endian two's complement number and
/// panics on a shorter slice.
#[verifier::external_body]
pub(crate) fn read_i64(buf: &[u8]) -> (value: i64)
    requires
        buf@.len() >= 8,
    ensures
        value == le_i64_at(buf@, 0),
{
    LittleEndian::read_i64(buf)
}

/// Reading `width` bytes from a window that starts at `at` is reading
/// them from the whole.
pub proof fn lemma_le_value_window(bytes: Seq<u8>, at: int, end: int, width: nat)
    requires
        0 <= at,
        at + width <= end <= bytes.len(),
        width <= 8,
    ensures
        le_value(bytes.subrange(at, end), 0, width) == le_value(bytes, at, width),
{
    reveal_with_fuel(le_value, 9);
}

/// Whether `width` bytes can be read at `at`.
pub open spec fn in_bounds(bytes: Seq<u8>, at: int, width: int) -> bool {
    0 <= at && at + width <= bytes.len()
}

/// The 16-bit number at `at`, if the source reaches that far.
pub fn u16_at(data: &[u8], at: usize) -> (value: Option<u16>)
    ensures
        value == (if in_bounds(data@, at as int, 2) {
            Some(le_u16_at(data@, at as int))
        } else {
            None
        }),
{
    if at > data.len() || data.len() - at < 2 {
        return None;
    }
    proof {
        lemma_le_value_window(data@, at as int, at + 2, 2);
    }
    Some(read_u16(slice_subrange(data, at, at + 2)))
}

/// The 32-bit number at `at`, if the source reaches that far.
pub fn u32_at(data: &[u8], at: usize) -> (value: Option<u32>)
    ensures
        value == (if in_bounds(data@, at as int, 4) {
            Some(le_u32_at(data@, at as int))
        } else {
            None
        }),
{
    if at > data.len() || data.len() - at < 4 {
        return None;
    }
    proof {
        lemma_le_value_window(data@, at as int, at + 4, 4);
    }
    Some(read_u32(slice_subrange(data, at, at + 4)))
}

/// The 64-bit number at `at`, if the source reaches that far.
pub fn u64_at(data: &[u8], at: usize) -> (value: Option<u64>)
    ensures
        value == (if in_bounds(data@, at as int, 8) {
            Some(le_u64_at(data@, at as int))
        } else {
            None
        }),
{
    if at > data.len() || data.len() - at < 8 {
        return None;
    }
    proof {
        lemma_le_value_window(data@, at as int, at + 8, 8);
    }
    Some(read_u64(slice_subrange(data, at, at + 8)))
}

/// The signed 32-bit number at `at`, if the source reaches that far.
pub fn i32_at(data: &[u8], at: usize) -> (value: Option<i32>)
    ensures
        value == (if in_bounds(data@, at as int, 4) {
            Some(le_i32_at(data@, at as int))
        } else {
            None
        }),
{
    if at > data.len() || data.len() - at < 4 {
        return None;
    }
    proof {
        lemma_le_value_window(data@, at as int, at + 4, 4);
    }
    Some(read_i32(slice_subrange(data, at, at + 4)))
}

/// The signed 64-bit number at `at`, if the source reaches that far.
pub fn i64_at(data: &[u8], at: usize) -> (value: Option<i64>)
    ensures
        value == (if in_bounds(data@, at as int, 8) {
            Some(le_i64_at(data@, at as int))
        } else {
            None
        }),
{
    if at > data.len() || data.len() - at < 8 {
        return None;
    }
    proof {
        lemma_le_value_window(data@, at as int, at + 8, 8);
    }
    Some(read_i64(slice_subrange(data, at, at + 8)))
}

/// Whether the bytes of `data` from `at` on start with `pattern`.
pub open spec fn has_bytes_at(data: Seq<u8>, at: int, pattern: Seq<u8>) -> bool {
    in_bounds(data, at, pattern.len() as int) && data.subrange(at, at + pattern.len()) == pattern
}

/// Compares a window of `data` with `pattern`, byte by byte.
pub fn bytes_match_at(data: &[u8], at: usize, pattern: &[u8]) -> (same: bool)
    ensures
        same == has_bytes_at(data@, at as int, pattern@),
{
    if at > data.len() || data.len() - at < pattern.len() {
        return false;
    }
    let mut i: usize = 0;
    while i < pattern.len()
        invariant
            at + pattern@.len() <= data@.len() <= usize::MAX,
            i <= pattern@.len(),
            forall|k: int| 0 <= k < i ==> data@[at + k] == pattern@[k],
        decreases pattern@.len() - i,
    {
        if data[at + i] != pattern[i] {
            assert(data@.subrange(at as int, at + pattern@.len())[i as int] != pattern@[i as int]);
            return false;
        }
        i += 1;
    }
    assert(data@.subrange(at as int, at + pattern@.len()) =~= pattern@);
    true
}

/// Whether two byte strings are equal. They are compared from their
/// ends, where chunk names differ.
pub fn same_bytes(a: &[u8], b: &[u8]) -> (same: bool)
    ensures
        same == (a@ == b@),
{
    if a.len() != b.len() {
        return false;
    }
    let mut i: usize = a.len();
    while i > 0
        invariant
            a@.len() == b@.len(),
            i <= a@.len(),
            forall|k: int| i <= k < a@.len() ==> a@[k] == b@[k],
        decreases i,
    {
        i -= 1;
        if a[i] != b[i] {
            return false;
        }
    }
    assert(a@ =~= b@);
    true
}

/// Copies `len` bytes of `data` from `at` on.
pub fn copy_range(data: &[u8], at: usize, len: usize) -> (out: Vec<u8>)
    requires
        at + len <= data@.len(),
    ensures
        out@ == data@.subrange(at as int, at + len),
{
    let total: usize = data.len();
    assert(at + len <= total);
    slice_to_vec(slice_subrange(data, at, at + len))
}

} // verus!
