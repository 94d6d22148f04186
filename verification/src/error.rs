use vstd::prelude::*;

verus! {

/// Why a decode or a draw request was refused.
#[derive(Debug, Clone, Copy, PartialEq, Eq)]
pub enum ParseError {
    /// The input does not start with the bytes that identify the format.
    /// Nothing else gives this failure.
    MagicMismatch,
    /// The header of a texture is the header of no texture: it counts no mip
    /// level, or it has no width.
    MalformedHeader,
    /// The input ended before a read could be served, or a size that the
    /// input states is too small for the fixed part that it covers.
    /// `needed` is the number of bytes that the read asked for: 4 for a
    /// 32-bit field or a tag, 12 for the identifier of a texture, 64 for the
    /// name of a vertex attribute, the announced length for a run of raw
    /// bytes, and for the payload of a texture the number of bytes that its
    /// upload reads, or `usize::MAX` where that number is larger. For a
    /// stated size that is too small it is the size of the fixed part: 16
    /// for the header of a mesh container, 8 for a comment chunk.
    Truncated { needed: usize },
    /// A chunk carries a tag that is not part of the format.
    UnknownChunkTag { tag: [u8; 4] },
    /// The name of a vertex attribute record is not UTF-8.
    MalformedAttributeRecord,
    /// A draw request named a sub-object that the object does not have.
    IndexOutOfRange,
}

} // verus!
