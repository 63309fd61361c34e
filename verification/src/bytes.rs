//! Little-endian integers inside byte sequences.
//!
//! Every on-disk, in-memory or firmware structure the kernel touches is little endian, so the
//! whole library reads and writes integers through this module. A value is modelled as the sum
//! of its bytes weighted by powers of 256.

use vstd::prelude::*;

verus! {

/// The bytes of `bytes` with `data` laid over them, starting at `offset`.
pub open spec fn spliced(bytes: Seq<u8>, offset: int, data: Seq<u8>) -> Seq<u8> {
    Seq::new(
        bytes.len(),
        |i: int| if offset <= i < offset + data.len() { data[i - offset] } else { bytes[i] },
    )
}

/// The 16-bit value stored at `offset`.
pub open spec fn u16_at(bytes: Seq<u8>, offset: int) -> u16 {
    (bytes[offset] + 0x100 * bytes[offset + 1]) as u16
}

/// The 32-bit value stored at `offset`.
pub open spec fn u32_at(bytes: Seq<u8>, offset: int) -> u32 {
    (bytes[offset] + 0x100 * bytes[offset + 1] + 0x1_0000 * bytes[offset + 2] + 0x100_0000
        * bytes[offset + 3]) as u32
}

/// The 64-bit value stored at `offset`.
pub open spec fn u64_at(bytes: Seq<u8>, offset: int) -> u64 {
    (u32_at(bytes, offset) + 0x1_0000_0000 * u32_at(bytes, offset + 4)) as u64
}

/// The four bytes of a 32-bit value.
pub open spec fn le32(value: u32) -> Seq<u8> {
    seq![
        (value % 0x100) as u8,
        (value / 0x100 % 0x100) as u8,
        (value / 0x1_0000 % 0x100) as u8,
        (value / 0x100_0000) as u8,
    ]
}

/// The eight bytes of a 64-bit value.
pub open spec fn le64(value: u64) -> Seq<u8> {
    le32((value % 0x1_0000_0000) as u32) + le32((value / 0x1_0000_0000) as u32)
}

/// Reading back the four bytes of a value gives the value.
pub proof fn lemma_le32_at(bytes: Seq<u8>, offset: int, value: u32)
    requires
        0 <= offset,
        offset + 4 <= bytes.len(),
        forall|i: int| 0 <= i < 4 ==> bytes[offset + i] == #[trigger] le32(value)[i],
    ensures
        u32_at(bytes, offset) == value,
{
    let s = le32(value);
    assert(bytes[offset + 0] == s[0]);
    assert(bytes[offset + 1] == s[1]);
    assert(bytes[offset + 2] == s[2]);
    assert(bytes[offset + 3] == s[3]);
}

/// Reading back the eight bytes of a value gives the value.
pub proof fn lemma_le64_at(bytes: Seq<u8>, offset: int, value: u64)
    requires
        0 <= offset,
        offset + 8 <= bytes.len(),
        forall|i: int| 0 <= i < 8 ==> bytes[offset + i] == #[trigger] le64(value)[i],
    ensures
        u64_at(bytes, offset) == value,
{
    let low = (value % 0x1_0000_0000) as u32;
    let high = (value / 0x1_0000_0000) as u32;
    assert forall|i: int| 0 <= i < 4 implies bytes[offset + i] == #[trigger] le32(low)[i] by {
        assert(le64(value)[i] == le32(low)[i]);
    }
    assert forall|i: int| 0 <= i < 4 implies bytes[offset + 4 + i] == #[trigger] le32(high)[i] by {
        assert(le64(value)[i + 4] == le32(high)[i]);
    }
    lemma_le32_at(bytes, offset, low);
    lemma_le32_at(bytes, offset + 4, high);
}

/// Reads the 16-bit value at `offset`.
pub fn read_u16(bytes: &[u8], offset: usize) -> (value: u16)
    requires
        offset + 2 <= bytes.len(),
    ensures
        value == u16_at(bytes@, offset as int),
{
    bytes[offset] as u16 + 0x100 * (bytes[offset + 1] as u16)
}

/// Reads the 32-bit value at `offset`.
pub fn read_u32(bytes: &[u8], offset: usize) -> (value: u32)
    requires
        offset + 4 <= bytes.len(),
    ensures
        value == u32_at(bytes@, offset as int),
{
    bytes[offset] as u32 + 0x100 * (bytes[offset + 1] as u32) + 0x1_0000 * (bytes[offset
        + 2] as u32) + 0x100_0000 * (bytes[offset + 3] as u32)
}

/// Reads the 64-bit value at `offset`.
pub fn read_u64(bytes: &[u8], offset: usize) -> (value: u64)
    requires
        offset + 8 <= bytes.len(),
    ensures
        value == u64_at(bytes@, offset as int),
{
    read_u32(bytes, offset) as u64 + 0x1_0000_0000 * (read_u32(bytes, offset + 4) as u64)
}

/// Writes the four bytes of `value` at `offset`.
pub fn write_u32(bytes: &mut [u8], offset: usize, value: u32)
    requires
        offset + 4 <= old(bytes).len(),
    ensures
        final(bytes)@ == spliced(old(bytes)@, offset as int, le32(value)),
{
    bytes[offset] = (value % 0x100) as u8;
    bytes[offset + 1] = (value / 0x100 % 0x100) as u8;
    bytes[offset + 2] = (value / 0x1_0000 % 0x100) as u8;
    bytes[offset + 3] = (value / 0x100_0000) as u8;
}

/// Writes the eight bytes of `value` at `offset`.
pub fn write_u64(bytes: &mut [u8], offset: usize, value: u64)
    requires
        offset + 8 <= old(bytes).len(),
    ensures
        final(bytes)@ == spliced(old(bytes)@, offset as int, le64(value)),
{
    write_u32(bytes, offset, (value % 0x1_0000_0000) as u32);
    write_u32(bytes, offset + 4, (value / 0x1_0000_0000) as u32);
}

/// Appends the four bytes of `value`.
pub fn push_u32(bytes: &mut Vec<u8>, value: u32)
    ensures
        final(bytes)@ == old(bytes)@ + le32(value),
{
    bytes.push((value % 0x100) as u8);
    bytes.push((value / 0x100 % 0x100) as u8);
    bytes.push((value / 0x1_0000 % 0x100) as u8);
    bytes.push((value / 0x100_0000) as u8);
    assert(bytes@ =~= old(bytes)@ + le32(value));
}

/// Appends the eight bytes of `value`.
pub fn push_u64(bytes: &mut Vec<u8>, value: u64)
    ensures
        final(bytes)@ == old(bytes)@ + le64(value),
{
    push_u32(bytes, (value % 0x1_0000_0000) as u32);
    push_u32(bytes, (value / 0x1_0000_0000) as u32);
    assert(bytes@ =~= old(bytes)@ + le64(value));
}

} // verus!
