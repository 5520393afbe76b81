//! Integer reads from a byte slice at an explicit cursor.
//!
//! Each read either yields the integer that the bytes at the cursor spell, or
//! reports that the bytes are not there. The cursor advances only on success,
//! and only when the caller did not ask for a peek.

use crate::error::Error;
use byteorder::ByteOrder;
use vstd::prelude::*;

verus! {

/// The unsigned 16-bit integer that two bytes at `at` spell, low byte first.
pub open spec fn spec_le_u16(s: Seq<u8>, at: int) -> int {
    s[at] as int + 256 * (s[at + 1] as int)
}

/// The unsigned 32-bit integer that four bytes at `at` spell, low byte first.
pub open spec fn spec_le_u32(s: Seq<u8>, at: int) -> int {
    s[at] as int + 256 * (s[at + 1] as int) + 65536 * (s[at + 2] as int) + 16777216 * (s[at
        + 3] as int)
}

/// The unsigned 16-bit integer that two bytes at `at` spell, high byte first.
pub open spec fn spec_be_u16(s: Seq<u8>, at: int) -> int {
    256 * (s[at] as int) + s[at + 1] as int
}

/// The unsigned 32-bit integer that four bytes at `at` spell, high byte first.
pub open spec fn spec_be_u32(s: Seq<u8>, at: int) -> int {
    16777216 * (s[at] as int) + 65536 * (s[at + 1] as int) + 256 * (s[at + 2] as int) + s[at
        + 3] as int
}

/// The byte at `i`, or zero where the sequence has no such byte.
pub open spec fn byte_or_zero(s: Seq<u8>, i: int) -> int {
    if 0 <= i < s.len() {
        s[i] as int
    } else {
        0
    }
}

/// The value of at most four bytes read low byte first, the missing high
/// bytes taken as zero.
pub open spec fn spec_bytes_to_num(s: Seq<u8>) -> int {
    byte_or_zero(s, 0) + 256 * byte_or_zero(s, 1) + 65536 * byte_or_zero(s, 2) + 16777216
        * byte_or_zero(s, 3)
}

/// `byteorder::LittleEndian::read_u16` on a slice of at least two bytes: the
/// result is the first byte plus 256 times the second.
#[verifier::external_body]
pub(crate) fn le_read_u16(buf: &[u8]) -> (r: u16)
    requires
        buf@.len() >= 2,
    ensures
        r as int == spec_le_u16(buf@, 0),
{
    byteorder::LittleEndian::read_u16(buf)
}

/// `byteorder::LittleEndian::read_u32` on a slice of at least four bytes: the
/// result is the little-endian value of the first four.
#[verifier::external_body]
pub(crate) fn le_read_u32(buf: &[u8]) -> (r: u32)
    requires
        buf@.len() >= 4,
    ensures
        r as int == spec_le_u32(buf@, 0),
{
    byteorder::LittleEndian::read_u32(buf)
}

/// `byteorder::BigEndian::read_u16` on a slice of at least two bytes: the
/// result is 256 times the first byte plus the second.
#[verifier::external_body]
pub(crate) fn be_read_u16(buf: &[u8]) -> (r: u16)
    requires
        buf@.len() >= 2,
    ensures
        r as int == spec_be_u16(buf@, 0),
{
    byteorder::BigEndian::read_u16(buf)
}

/// `byteorder::BigEndian::read_u32` on a slice of at least four bytes: the
/// result is the big-endian value of the first four.
#[verifier::external_body]
pub(crate) fn be_read_u32(buf: &[u8]) -> (r: u32)
    requires
        buf@.len() >= 4,
    ensures
        r as int == spec_be_u32(buf@, 0),
{
    byteorder::BigEndian::read_u32(buf)
}

/// Whether `width` bytes lie at `at` inside a buffer of `len` bytes.
pub open spec fn in_range(len: int, at: int, width: int) -> bool {
    0 <= at && at + width <= len
}

/// Where the cursor stands after a read of `width` bytes at `at`.
pub open spec fn cursor_after(at: int, width: int, peek: bool) -> int {
    if peek {
        at
    } else {
        at + width
    }
}

/// Reads up to four bytes as a little-endian number, zero-extending the
/// missing high bytes.
pub fn bytes_to_num(bytes: &[u8]) -> (num: usize)
    requires
        bytes@.len() <= 4,
    ensures
        num as int == spec_bytes_to_num(bytes@),
{
    let mut template: [u8; 4] = [0, 0, 0, 0];
    let mut i: usize = 0;
    while i < bytes.len()
        invariant
            i <= bytes@.len() <= 4,
            forall|k: int| 0 <= k < i ==> template@[k] == bytes@[k],
            forall|k: int| i <= k < 4 ==> template@[k] == 0,
        decreases bytes@.len() - i,
    {
        template[i] = bytes[i];
        i += 1;
    }
    let num = le_read_u32(template.as_slice());
    num as usize
}

/// Reads one byte at the cursor.
pub fn read_leu8(buffer: &[u8], pointer: &mut usize, peek: bool) -> (r: Result<u8, Error>)
    ensures
        match r {
            Ok(v) => in_range(buffer@.len() as int, *old(pointer) as int, 1) && v == buffer@[*old(
                pointer,
            ) as int] && *final(pointer) == cursor_after(*old(pointer) as int, 1, peek),
            Err(e) => e == Error::OutOfRange && !in_range(
                buffer@.len() as int,
                *old(pointer) as int,
                1,
            ) && *final(pointer) == *old(pointer),
        },
{
    let at = *pointer;
    if at >= buffer.len() {
        return Err(Error::OutOfRange);
    }
    let value = buffer[at];
    if !peek {
        *pointer = at + 1;
    }
    Ok(value)
}

/// Reads a little-endian 16-bit integer at the cursor.
pub fn read_leu16(buffer: &[u8], pointer: &mut usize, peek: bool) -> (r: Result<u16, Error>)
    ensures
        match r {
            Ok(v) => in_range(buffer@.len() as int, *old(pointer) as int, 2) && v as int
                == spec_le_u16(buffer@, *old(pointer) as int) && *final(pointer) == cursor_after(
                *old(pointer) as int,
                2,
                peek,
            ),
            Err(e) => e == Error::OutOfRange && !in_range(
                buffer@.len() as int,
                *old(pointer) as int,
                2,
            ) && *final(pointer) == *old(pointer),
        },
{
    let at = *pointer;
    if buffer.len() < 2 || at > buffer.len() - 2 {
        return Err(Error::OutOfRange);
    }
    let value = le_read_u16(&buffer[at..at + 2]);
    if !peek {
        *pointer = at + 2;
    }
    Ok(value)
}

/// Reads a little-endian 32-bit integer at the cursor.
pub fn read_leu32(buffer: &[u8], pointer: &mut usize, peek: bool) -> (r: Result<u32, Error>)
    ensures
        match r {
            Ok(v) => in_range(buffer@.len() as int, *old(pointer) as int, 4) && v as int
                == spec_le_u32(buffer@, *old(pointer) as int) && *final(pointer) == cursor_after(
                *old(pointer) as int,
                4,
                peek,
            ),
            Err(e) => e == Error::OutOfRange && !in_range(
                buffer@.len() as int,
                *old(pointer) as int,
                4,
            ) && *final(pointer) == *old(pointer),
        },
{
    let at = *pointer;
    if buffer.len() < 4 || at > buffer.len() - 4 {
        return Err(Error::OutOfRange);
    }
    let value = le_read_u32(&buffer[at..at + 4]);
    if !peek {
        *pointer = at + 4;
    }
    Ok(value)
}

/// Reads one byte at the cursor. A single byte has no byte order: this is
/// `read_leu8` under the name that big-endian callers look for.
pub fn read_beu8(buffer: &[u8], pointer: &mut usize, peek: bool) -> (r: Result<u8, Error>)
    ensures
        match r {
            Ok(v) => in_range(buffer@.len() as int, *old(pointer) as int, 1) && v == buffer@[*old(
                pointer,
            ) as int] && *final(pointer) == cursor_after(*old(pointer) as int, 1, peek),
            Err(e) => e == Error::OutOfRange && !in_range(
                buffer@.len() as int,
                *old(pointer) as int,
                1,
            ) && *final(pointer) == *old(pointer),
        },
{
    let at = *pointer;
    if at >= buffer.len() {
        return Err(Error::OutOfRange);
    }
    let value = buffer[at];
    if !peek {
        *pointer = at + 1;
    }
    Ok(value)
}

/// Reads a big-endian 16-bit integer at the cursor.
pub fn read_beu16(buffer: &[u8], pointer: &mut usize, peek: bool) -> (r: Result<u16, Error>)
    ensures
        match r {
            Ok(v) => in_range(buffer@.len() as int, *old(pointer) as int, 2) && v as int
                == spec_be_u16(buffer@, *old(pointer) as int) && *final(pointer) == cursor_after(
                *old(pointer) as int,
                2,
                peek,
            ),
            Err(e) => e == Error::OutOfRange && !in_range(
                buffer@.len() as int,
                *old(pointer) as int,
                2,
            ) && *final(pointer) == *old(pointer),
        },
{
    let at = *pointer;
    if buffer.len() < 2 || at > buffer.len() - 2 {
        return Err(Error::OutOfRange);
    }
    let value = be_read_u16(&buffer[at..at + 2]);
    if !peek {
        *pointer = at + 2;
    }
    Ok(value)
}

/// Reads a big-endian 32-bit integer at the cursor.
pub fn read_beu32(buffer: &[u8], pointer: &mut usize, peek: bool) -> (r: Result<u32, Error>)
    ensures
        match r {
            Ok(v) => in_range(buffer@.len() as int, *old(pointer) as int, 4) && v as int
                == spec_be_u32(buffer@, *old(pointer) as int) && *final(pointer) == cursor_after(
                *old(pointer) as int,
                4,
                peek,
            ),
            Err(e) => e == Error::OutOfRange && !in_range(
                buffer@.len() as int,
                *old(pointer) as int,
                4,
            ) && *final(pointer) == *old(pointer),
        },
{
    let at = *pointer;
    if buffer.len() < 4 || at > buffer.len() - 4 {
        return Err(Error::OutOfRange);
    }
    let value = be_read_u32(&buffer[at..at + 4]);
    if !peek {
        *pointer = at + 4;
    }
    Ok(value)
}

/// The little-endian 16-bit integer at `at`, which the caller knows to lie
/// inside the buffer.
pub(crate) fn le_u16_at(buffer: &[u8], at: usize) -> (value: u16)
    requires
        at + 2 <= buffer@.len(),
    ensures
        value as int == spec_le_u16(buffer@, at as int),
{
    let len = buffer.len();
    assert(at + 2 <= len);
    le_read_u16(&buffer[at..at + 2])
}

} // verus!
