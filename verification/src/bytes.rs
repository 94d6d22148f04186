//! Bounds-checked reads of fixed-width fields from a byte slice.

use vstd::prelude::*;
use crate::error::ParseError;

verus! {

/// The unsigned 32-bit number whose little-endian encoding starts at `pos`.
pub open spec fn le_u32_at(s: Seq<u8>, pos: int) -> u32
    recommends
        0 <= pos,
        pos + 4 <= s.len(),
{
    (s[pos] as int + 0x100 * (s[pos + 1] as int) + 0x1_0000 * (s[pos + 2] as int) + 0x100_0000 * (
    s[pos + 3] as int)) as u32
}

/// The unsigned 32-bit number whose big-endian encoding starts at `pos`.
pub open spec fn be_u32_at(s: Seq<u8>, pos: int) -> u32
    recommends
        0 <= pos,
        pos + 4 <= s.len(),
{
    (s[pos + 3] as int + 0x100 * (s[pos + 2] as int) + 0x1_0000 * (s[pos + 1] as int) + 0x100_0000
        * (s[pos] as int)) as u32
}

/// The 32-bit field at `pos` in the given byte order.
pub open spec fn u32_at(s: Seq<u8>, pos: int, big_endian: bool) -> u32 {
    if big_endian {
        be_u32_at(s, pos)
    } else {
        le_u32_at(s, pos)
    }
}

/// Whether `n` bytes can be read at `pos`.
pub open spec fn has_bytes(s: Seq<u8>, pos: int, n: int) -> bool {
    0 <= pos && 0 <= n && pos + n <= s.len()
}

/// A slice is no longer than a `usize` can say.
pub proof fn lemma_len_fits(input: &[u8])
    ensures
        input@.len() <= usize::MAX,
{
    vstd::slice::axiom_spec_len(input);
}

/// The 32-bit field at `pos`, which the caller knows to be there.
pub(crate) fn u32_field(input: &[u8], pos: usize, big_endian: bool) -> (v: u32)
    requires
        has_bytes(input@, pos as int, 4),
    ensures
        v == u32_at(input@, pos as int, big_endian),
{
    let b0: u32 = input[pos] as u32;
    let b1: u32 = input[pos + 1] as u32;
    let b2: u32 = input[pos + 2] as u32;
    let b3: u32 = input[pos + 3] as u32;
    if big_endian {
        b3 + 0x100 * b2 + 0x1_0000 * b1 + 0x100_0000 * b0
    } else {
        b0 + 0x100 * b1 + 0x1_0000 * b2 + 0x100_0000 * b3
    }
}

/// Whether `n` bytes can be read at `pos`.
pub fn can_read(input: &[u8], pos: usize, n: usize) -> (b: bool)
    ensures
        b == has_bytes(input@, pos as int, n as int),
        input@.len() <= usize::MAX,
{
    pos <= input.len() && input.len() - pos >= n
}

/// Reads a 32-bit field at `pos`, or reports that four bytes were asked for.
pub fn read_u32(input: &[u8], pos: usize, big_endian: bool) -> (r: Result<u32, ParseError>)
    ensures
        has_bytes(input@, pos as int, 4) ==> r == Ok::<u32, ParseError>(
            u32_at(input@, pos as int, big_endian),
        ),
        !has_bytes(input@, pos as int, 4) ==> r == Err::<u32, ParseError>(
            ParseError::Truncated { needed: 4 },
        ),
{
    if can_read(input, pos, 4) {
        Ok(u32_field(input, pos, big_endian))
    } else {
        Err(ParseError::Truncated { needed: 4 })
    }
}

} // verus!
