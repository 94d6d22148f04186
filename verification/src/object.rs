//! The mesh container: a short header followed by tagged chunks, and the
//! assembly of the chunks into a renderable object.

use vstd::prelude::*;
use vstd::slice::slice_subrange;
use vstd::utf8::{decode_utf8, valid_utf8};
use crate::bytes::{can_read, has_bytes, le_u32_at, lemma_len_fits, read_u32, u32_field};
use crate::error::ParseError;
use crate::glenum::TRIANGLES;
use crate::text::{bytes_to_string, comment_text, lenient_text, trimmed};

verus! {

/// The number of bytes of the container's fixed header: the identifier and
/// three 32-bit fields.
pub const CONTAINER_HEADER_BYTES: usize = 16;

/// The number of bytes of a chunk header: the tag and the chunk's size.
pub const CHUNK_HEADER_BYTES: usize = 8;

/// The number of bytes of the name of a vertex attribute.
pub const VERTEX_ATTRIBUTE_NAME_BYTES: usize = 64;

/// The number of bytes of a vertex attribute record: the name and five
/// 32-bit fields.
pub const VERTEX_ATTRIBUTE_BYTES: usize = 84;

/// The flag of a vertex attribute whose integer components are normalized.
pub const VERTEX_ATTRIB_FLAG_NORMALIZED: u32 = 0x0000_0001;

/// The fixed header of a mesh container.
#[derive(Debug, Clone, Copy, PartialEq, Eq, Structural)]
pub struct ContainerHeader {
    /// Whether the identifier is spelled backwards.
    pub reversed: bool,
    /// The number of bytes before the first chunk, the fixed header
    /// included: 16 at least.
    pub total_header_size: u32,
    pub chunk_count: u32,
    /// Flags, of which the format defines none.
    pub flags: u32,
}

/// The kinds of chunk that the format has.
#[derive(Debug, Clone, Copy, PartialEq, Eq, Structural)]
pub enum ChunkKind {
    IndexData,
    VertexData,
    VertexAttributes,
    SubObjects,
    Comment,
    Data,
}

impl ChunkKind {
    /// The four letters of the tag.
    pub open spec fn tag_text(self) -> Seq<char> {
        match self {
            ChunkKind::IndexData => "INDX"@,
            ChunkKind::VertexData => "VRTX"@,
            ChunkKind::VertexAttributes => "ATRB"@,
            ChunkKind::SubObjects => "OLST"@,
            ChunkKind::Comment => "CMNT"@,
            ChunkKind::Data => "DATA"@,
        }
    }

    /// The four letters of the tag.
    pub fn tag(self) -> (t: &'static str)
        ensures
            t@ == self.tag_text(),
    {
        match self {
            ChunkKind::IndexData => "INDX",
            ChunkKind::VertexData => "VRTX",
            ChunkKind::VertexAttributes => "ATRB",
            ChunkKind::SubObjects => "OLST",
            ChunkKind::Comment => "CMNT",
            ChunkKind::Data => "DATA",
        }
    }
}

/// Where the indices of an indexed mesh are found.
#[derive(Debug, Clone, Copy, PartialEq, Eq, Structural)]
pub struct IndexData {
    pub index_type: u32,
    pub index_count: u32,
    pub index_data_offset: u32,
}

/// A blob of data that the container carries along.
#[derive(Debug, Clone, Copy, PartialEq, Eq, Structural)]
pub struct Data {
    pub encoding: u32,
    pub data_offset: u32,
    pub data_length: u32,
}

/// A run of vertices that is drawn as one unit.
#[derive(Debug, Clone, Copy, PartialEq, Eq, Structural)]
pub struct SubObject {
    pub first: u32,
    pub count: u32,
}

impl Default for SubObject {
    fn default() -> (s: SubObject)
        ensures
            s == (SubObject { first: 0, count: 0 }),
    {
        SubObject { first: 0, count: 0 }
    }
}

/// The eight bytes that open every chunk.
#[derive(Debug, Clone, PartialEq, Eq)]
pub struct ChunkHeader {
    pub name: String,
    pub chunk_size: u32,
}

/// What a chunk header holds.
pub struct ChunkHeaderView {
    pub name: Seq<char>,
    pub chunk_size: u32,
}

impl View for ChunkHeader {
    type V = ChunkHeaderView;

    open spec fn view(&self) -> ChunkHeaderView {
        ChunkHeaderView { name: self.name@, chunk_size: self.chunk_size }
    }
}

/// The vertex stream of the mesh, stored inline in its chunk.
#[derive(Debug, Clone, Copy, PartialEq, Eq)]
pub struct VertexData<'a> {
    pub data_offset: u32,
    pub total_vertices: u32,
    pub vertices: &'a [u8],
}

/// What a vertex data chunk holds.
pub struct VertexDataView {
    pub data_offset: u32,
    pub total_vertices: u32,
    pub vertices: Seq<u8>,
}

impl<'a> View for VertexData<'a> {
    type V = VertexDataView;

    open spec fn view(&self) -> VertexDataView {
        VertexDataView {
            data_offset: self.data_offset,
            total_vertices: self.total_vertices,
            vertices: self.vertices@,
        }
    }
}

impl<'a> VertexData<'a> {
    /// The number of bytes of the vertex stream.
    pub fn data_size(&self) -> (n: usize)
        ensures
            n == self@.vertices.len(),
    {
        self.vertices.len()
    }
}

/// The layout of one attribute of a vertex within the vertex stream.
#[derive(Debug, Clone, PartialEq, Eq)]
pub struct VertexAttribute {
    pub name: String,
    pub size: u32,
    pub attribute_type: u32,
    pub stride: u32,
    pub flags: u32,
    pub data_offset: u32,
}

/// What a vertex attribute record holds.
pub struct VertexAttributeView {
    pub name: Seq<char>,
    pub size: u32,
    pub attribute_type: u32,
    pub stride: u32,
    pub flags: u32,
    pub data_offset: u32,
}

impl View for VertexAttribute {
    type V = VertexAttributeView;

    open spec fn view(&self) -> VertexAttributeView {
        VertexAttributeView {
            name: self.name@,
            size: self.size,
            attribute_type: self.attribute_type,
            stride: self.stride,
            flags: self.flags,
            data_offset: self.data_offset,
        }
    }
}

impl VertexAttributeView {
    /// Whether integer components are normalized when they are fetched.
    pub open spec fn normalized(self) -> bool {
        self.flags & VERTEX_ATTRIB_FLAG_NORMALIZED != 0
    }
}

impl VertexAttribute {
    /// Whether integer components are normalized when they are fetched: the
    /// lowest bit of the flags.
    pub fn is_normalized(&self) -> (b: bool)
        ensures
            b == self@.normalized(),
    {
        self.flags & VERTEX_ATTRIB_FLAG_NORMALIZED != 0
    }
}

/// A decoded chunk.
#[derive(Debug, Clone, PartialEq, Eq)]
pub enum ChunkType<'a> {
    IndexData(IndexData),
    VertexData(VertexData<'a>),
    VertexAttributes(Vec<VertexAttribute>),
    SubObjects(Vec<SubObject>),
    Comment(String),
    Data(Data),
}

/// What a decoded chunk holds.
pub enum ChunkView {
    IndexData(IndexData),
    VertexData(VertexDataView),
    VertexAttributes(Seq<VertexAttributeView>),
    SubObjects(Seq<SubObject>),
    Comment(Seq<char>),
    Data(Data),
}

/// What the attributes of a list hold, in order.
pub open spec fn attribute_views(attributes: Seq<VertexAttribute>) -> Seq<VertexAttributeView> {
    attributes.map_values(|a: VertexAttribute| a@)
}

impl<'a> View for ChunkType<'a> {
    type V = ChunkView;

    open spec fn view(&self) -> ChunkView {
        match *self {
            ChunkType::IndexData(i) => ChunkView::IndexData(i),
            ChunkType::VertexData(v) => ChunkView::VertexData(v@),
            ChunkType::VertexAttributes(a) => ChunkView::VertexAttributes(attribute_views(a@)),
            ChunkType::SubObjects(s) => ChunkView::SubObjects(s@),
            ChunkType::Comment(c) => ChunkView::Comment(c@),
            ChunkType::Data(d) => ChunkView::Data(d),
        }
    }
}

/// What the chunks of a list hold, in order.
pub open spec fn chunk_views(chunks: Seq<ChunkType>) -> Seq<ChunkView> {
    chunks.map_values(|c: ChunkType| c@)
}

/// The kind of chunk that a tag of the four given bytes opens.
pub open spec fn tag_kind(b0: u8, b1: u8, b2: u8, b3: u8) -> Option<ChunkKind> {
    if b0 == 0x49 && b1 == 0x4E && b2 == 0x44 && b3 == 0x58 {
        // INDX
        Some(ChunkKind::IndexData)
    } else if b0 == 0x56 && b1 == 0x52 && b2 == 0x54 && b3 == 0x58 {
        // VRTX
        Some(ChunkKind::VertexData)
    } else if b0 == 0x41 && b1 == 0x54 && b2 == 0x52 && b3 == 0x42 {
        // ATRB
        Some(ChunkKind::VertexAttributes)
    } else if b0 == 0x4F && b1 == 0x4C && b2 == 0x53 && b3 == 0x54 {
        // OLST
        Some(ChunkKind::SubObjects)
    } else if b0 == 0x43 && b1 == 0x4D && b2 == 0x4E && b3 == 0x54 {
        // CMNT
        Some(ChunkKind::Comment)
    } else if b0 == 0x44 && b1 == 0x41 && b2 == 0x54 && b3 == 0x41 {
        // DATA
        Some(ChunkKind::Data)
    } else {
        None
    }
}

/// The kind of the chunk that starts at `pos`, by its tag. The tag asks for
/// four bytes.
pub open spec fn kind_at(s: Seq<u8>, pos: int) -> Result<ChunkKind, ParseError> {
    if !has_bytes(s, pos, 4) {
        Err(ParseError::Truncated { needed: 4 })
    } else {
        match tag_kind(s[pos], s[pos + 1], s[pos + 2], s[pos + 3]) {
            Some(kind) => Ok(kind),
            None => Err(
                ParseError::UnknownChunkTag { tag: [s[pos], s[pos + 1], s[pos + 2], s[pos + 3]] },
            ),
        }
    }
}

/// The chunk header at `pos` and the position after it. The tag and the
/// size ask for four bytes each.
pub open spec fn chunk_header_at(s: Seq<u8>, pos: int) -> Result<(ChunkHeaderView, int), ParseError> {
    match kind_at(s, pos) {
        Err(e) => Err(e),
        Ok(kind) => if !has_bytes(s, pos + 4, 4) {
            Err(ParseError::Truncated { needed: 4 })
        } else {
            Ok(
                (
                    ChunkHeaderView { name: kind.tag_text(), chunk_size: le_u32_at(s, pos + 4) },
                    pos + 8,
                ),
            )
        },
    }
}

/// The index data chunk at `pos` and the position after it: the chunk
/// header, then three 32-bit fields.
pub open spec fn index_data_at(s: Seq<u8>, pos: int) -> Result<(IndexData, int), ParseError> {
    match chunk_header_at(s, pos) {
        Err(e) => Err(e),
        Ok((_, p)) => if !has_bytes(s, p, 12) {
            Err(ParseError::Truncated { needed: 4 })
        } else {
            Ok(
                (
                    IndexData {
                        index_type: le_u32_at(s, p),
                        index_count: le_u32_at(s, p + 4),
                        index_data_offset: le_u32_at(s, p + 8),
                    },
                    p + 12,
                ),
            )
        },
    }
}

/// The data chunk at `pos` and the position after it: the chunk header, then
/// three 32-bit fields.
pub open spec fn data_at(s: Seq<u8>, pos: int) -> Result<(Data, int), ParseError> {
    match chunk_header_at(s, pos) {
        Err(e) => Err(e),
        Ok((_, p)) => if !has_bytes(s, p, 12) {
            Err(ParseError::Truncated { needed: 4 })
        } else {
            Ok(
                (
                    Data {
                        encoding: le_u32_at(s, p),
                        data_offset: le_u32_at(s, p + 4),
                        data_length: le_u32_at(s, p + 8),
                    },
                    p + 12,
                ),
            )
        },
    }
}

/// The comment chunk at `pos` and the position after it: the chunk header,
/// then the rest of the chunk by the size that the header gives, read as
/// text without its trailing NUL bytes and spaces. A size that does not
/// cover the eight bytes of the header itself is refused, whatever follows:
/// the header asks for eight bytes of the chunk.
pub open spec fn comment_at(s: Seq<u8>, pos: int) -> Result<(Seq<char>, int), ParseError> {
    match chunk_header_at(s, pos) {
        Err(e) => Err(e),
        Ok((header, p)) => {
            let len: int = header.chunk_size - 8;
            if header.chunk_size < 8 {
                Err(ParseError::Truncated { needed: 8 })
            } else if !has_bytes(s, p, len) {
                Err(ParseError::Truncated { needed: len as usize })
            } else {
                Ok((lenient_text(trimmed(s.subrange(p, p + len), true)), p + len))
            }
        },
    }
}

/// The vertex data chunk at `pos` and the position after it: the chunk
/// header, the size of the stream, two more 32-bit fields, then the stream.
pub open spec fn vertex_data_at(s: Seq<u8>, pos: int) -> Result<(VertexDataView, int), ParseError> {
    match chunk_header_at(s, pos) {
        Err(e) => Err(e),
        Ok((_, p)) => if !has_bytes(s, p, 12) {
            Err(ParseError::Truncated { needed: 4 })
        } else {
            let data_size = le_u32_at(s, p);
            if !has_bytes(s, p + 12, data_size as int) {
                Err(ParseError::Truncated { needed: data_size as usize })
            } else {
                Ok(
                    (
                        VertexDataView {
                            data_offset: le_u32_at(s, p + 4),
                            total_vertices: le_u32_at(s, p + 8),
                            vertices: s.subrange(p + 12, p + 12 + data_size),
                        },
                        p + 12 + data_size,
                    ),
                )
            }
        },
    }
}

/// The vertex attribute record at `pos` and the position after it. The name
/// asks for 64 bytes and each of the five fields for four; a record that is
/// all there and whose name is not UTF-8 is malformed.
pub open spec fn attribute_at(s: Seq<u8>, pos: int) -> Result<(VertexAttributeView, int), ParseError> {
    if !has_bytes(s, pos, 64) {
        Err(ParseError::Truncated { needed: 64 })
    } else if !has_bytes(s, pos + 64, 20) {
        Err(ParseError::Truncated { needed: 4 })
    } else if !valid_utf8(s.subrange(pos, pos + 64)) {
        Err(ParseError::MalformedAttributeRecord)
    } else {
        Ok(
            (
                VertexAttributeView {
                    name: decode_utf8(trimmed(s.subrange(pos, pos + 64), false)),
                    size: le_u32_at(s, pos + 64),
                    attribute_type: le_u32_at(s, pos + 68),
                    stride: le_u32_at(s, pos + 72),
                    flags: le_u32_at(s, pos + 76),
                    data_offset: le_u32_at(s, pos + 80),
                },
                pos + 84,
            ),
        )
    }
}

/// The first `n` vertex attribute records from `pos` on and the position
/// after them, or the failure of the first record that fails.
pub open spec fn attributes_from(s: Seq<u8>, pos: int, n: nat) -> Result<
    (Seq<VertexAttributeView>, int),
    ParseError,
>
    decreases n,
{
    if n == 0 {
        Ok((Seq::empty(), pos))
    } else {
        match attributes_from(s, pos, (n - 1) as nat) {
            Err(e) => Err(e),
            Ok((front, p)) => match attribute_at(s, p) {
                Err(e) => Err(e),
                Ok((a, next)) => Ok((front.push(a), next)),
            },
        }
    }
}

/// The vertex attributes chunk at `pos` and the position after it: the chunk
/// header, the number of records, then the records.
pub open spec fn vertex_attributes_at(s: Seq<u8>, pos: int) -> Result<
    (Seq<VertexAttributeView>, int),
    ParseError,
> {
    match chunk_header_at(s, pos) {
        Err(e) => Err(e),
        Ok((_, p)) => if !has_bytes(s, p, 4) {
            Err(ParseError::Truncated { needed: 4 })
        } else {
            attributes_from(s, p + 4, le_u32_at(s, p) as nat)
        },
    }
}

/// The sub-object whose two fields start at `pos`.
pub open spec fn sub_object_at(s: Seq<u8>, pos: int) -> SubObject {
    SubObject { first: le_u32_at(s, pos), count: le_u32_at(s, pos + 4) }
}

/// The sub-object list chunk at `pos` and the position after it: the chunk
/// header, the number of sub-objects, then a pair of 32-bit fields for each.
pub open spec fn sub_objects_at(s: Seq<u8>, pos: int) -> Result<(Seq<SubObject>, int), ParseError> {
    match chunk_header_at(s, pos) {
        Err(e) => Err(e),
        Ok((_, p)) => if !has_bytes(s, p, 4) {
            Err(ParseError::Truncated { needed: 4 })
        } else {
            let n = le_u32_at(s, p) as int;
            if !has_bytes(s, p + 4, 8 * n) {
                Err(ParseError::Truncated { needed: 4 })
            } else {
                Ok((Seq::new(n as nat, |i: int| sub_object_at(s, p + 4 + 8 * i)), p + 4 + 8 * n))
            }
        },
    }
}

/// The chunk at `pos` and the position after it: the tag selects the
/// decoder, and the decoder reads the chunk from its header on.
pub open spec fn chunk_at(s: Seq<u8>, pos: int) -> Result<(ChunkView, int), ParseError> {
    match kind_at(s, pos) {
        Err(e) => Err(e),
        Ok(ChunkKind::IndexData) => match index_data_at(s, pos) {
            Err(e) => Err(e),
            Ok((v, next)) => Ok((ChunkView::IndexData(v), next)),
        },
        Ok(ChunkKind::VertexData) => match vertex_data_at(s, pos) {
            Err(e) => Err(e),
            Ok((v, next)) => Ok((ChunkView::VertexData(v), next)),
        },
        Ok(ChunkKind::VertexAttributes) => match vertex_attributes_at(s, pos) {
            Err(e) => Err(e),
            Ok((v, next)) => Ok((ChunkView::VertexAttributes(v), next)),
        },
        Ok(ChunkKind::SubObjects) => match sub_objects_at(s, pos) {
            Err(e) => Err(e),
            Ok((v, next)) => Ok((ChunkView::SubObjects(v), next)),
        },
        Ok(ChunkKind::Comment) => match comment_at(s, pos) {
            Err(e) => Err(e),
            Ok((v, next)) => Ok((ChunkView::Comment(v), next)),
        },
        Ok(ChunkKind::Data) => match data_at(s, pos) {
            Err(e) => Err(e),
            Ok((v, next)) => Ok((ChunkView::Data(v), next)),
        },
    }
}

/// The first `n` chunks from `pos` on and the position after them, or the
/// failure of the first chunk that fails.
pub open spec fn chunks_from(s: Seq<u8>, pos: int, n: nat) -> Result<(Seq<ChunkView>, int), ParseError>
    decreases n,
{
    if n == 0 {
        Ok((Seq::empty(), pos))
    } else {
        match chunks_from(s, pos, (n - 1) as nat) {
            Err(e) => Err(e),
            Ok((front, p)) => match chunk_at(s, p) {
                Err(e) => Err(e),
                Ok((c, next)) => Ok((front.push(c), next)),
            },
        }
    }
}

/// Whether the first four bytes are the container's identifier, in either
/// of its two spellings: `SB6M` or the same letters reversed.
pub open spec fn has_container_magic(s: Seq<u8>) -> bool
    recommends
        s.len() >= 4,
{
    ||| (s[0] == 0x53 && s[1] == 0x42 && s[2] == 0x36 && s[3] == 0x4D)
    ||| (s[0] == 0x4D && s[1] == 0x36 && s[2] == 0x42 && s[3] == 0x53)
}

/// The number of bytes between the fixed header and the first chunk: the
/// header size that the container states less the sixteen bytes of the fixed
/// header.
pub open spec fn header_padding(total_header_size: u32) -> int
    recommends
        total_header_size >= 16,
{
    total_header_size - 16
}

/// The fixed header of the container `s`, or the first failure met in
/// reading order. The identifier and each of the three fields after it ask
/// for four bytes. The fields are little-endian whichever way the
/// identifier is spelled. A stated header size that does not cover the
/// sixteen bytes of the fixed header itself is refused, whatever follows:
/// the fixed header asks for sixteen bytes of the header.
pub open spec fn container_header_of(s: Seq<u8>) -> Result<ContainerHeader, ParseError> {
    if s.len() < 4 {
        Err(ParseError::Truncated { needed: 4 })
    } else if !has_container_magic(s) {
        Err(ParseError::MagicMismatch)
    } else if s.len() < 16 {
        Err(ParseError::Truncated { needed: 4 })
    } else if le_u32_at(s, 4) < 16 {
        Err(ParseError::Truncated { needed: 16 })
    } else {
        Ok(
            ContainerHeader {
                reversed: s[0] == 0x4D,
                total_header_size: le_u32_at(s, 4),
                chunk_count: le_u32_at(s, 8),
                flags: le_u32_at(s, 12),
            },
        )
    }
}

/// The chunks of the container `s` and the position after the last of them,
/// or the first failure met in reading order: the fixed header, the padding,
/// which asks for its length, then the chunks.
pub open spec fn container_chunks(s: Seq<u8>) -> Result<(Seq<ChunkView>, int), ParseError> {
    match container_header_of(s) {
        Err(e) => Err(e),
        Ok(header) => {
            let padding = header_padding(header.total_header_size);
            if !has_bytes(s, 16, padding) {
                Err(ParseError::Truncated { needed: padding as usize })
            } else {
                chunks_from(s, 16 + padding, header.chunk_count as nat)
            }
        },
    }
}

/// The kind of the chunk that starts at `pos`, read from its tag without
/// moving on.
pub fn chunk_kind(input: &[u8], pos: usize) -> (r: Result<ChunkKind, ParseError>)
    ensures
        r == kind_at(input@, pos as int),
{
    if !can_read(input, pos, 4) {
        return Err(ParseError::Truncated { needed: 4 });
    }
    let b0: u8 = input[pos];
    let b1: u8 = input[pos + 1];
    let b2: u8 = input[pos + 2];
    let b3: u8 = input[pos + 3];
    if b0 == 0x49 && b1 == 0x4E && b2 == 0x44 && b3 == 0x58 {
        // INDX
        Ok(ChunkKind::IndexData)
    } else if b0 == 0x56 && b1 == 0x52 && b2 == 0x54 && b3 == 0x58 {
        // VRTX
        Ok(ChunkKind::VertexData)
    } else if b0 == 0x41 && b1 == 0x54 && b2 == 0x52 && b3 == 0x42 {
        // ATRB
        Ok(ChunkKind::VertexAttributes)
    } else if b0 == 0x4F && b1 == 0x4C && b2 == 0x53 && b3 == 0x54 {
        // OLST
        Ok(ChunkKind::SubObjects)
    } else if b0 == 0x43 && b1 == 0x4D && b2 == 0x4E && b3 == 0x54 {
        // CMNT
        Ok(ChunkKind::Comment)
    } else if b0 == 0x44 && b1 == 0x41 && b2 == 0x54 && b3 == 0x41 {
        // DATA
        Ok(ChunkKind::Data)
    } else {
        Err(ParseError::UnknownChunkTag { tag: [b0, b1, b2, b3] })
    }
}

/// Decodes the chunk header at `pos`.
pub fn chunk_header(input: &[u8], pos: usize) -> (r: Result<(ChunkHeader, usize), ParseError>)
    ensures
        match chunk_header_at(input@, pos as int) {
            Ok((header, next)) => r matches Ok((h, n)) && h@ == header && n == next,
            Err(e) => r matches Err(f) && f == e,
        },
{
    let kind = match chunk_kind(input, pos) {
        Ok(kind) => kind,
        Err(e) => {
            return Err(e);
        },
    };
    proof {
        lemma_len_fits(input);
    }
    let chunk_size: u32 = match read_u32(input, pos + 4, false) {
        Ok(size) => size,
        Err(e) => {
            return Err(e);
        },
    };
    Ok((ChunkHeader { name: String::from_str(kind.tag()), chunk_size }, pos + CHUNK_HEADER_BYTES))
}

/// Decodes the index data chunk at `pos`.
pub fn index_data(input: &[u8], pos: usize) -> (r: Result<(IndexData, usize), ParseError>)
    ensures
        match index_data_at(input@, pos as int) {
            Ok((v, next)) => r matches Ok((x, n)) && x == v && n == next,
            Err(e) => r matches Err(f) && f == e,
        },
{
    let p: usize = match chunk_header(input, pos) {
        Ok((_, p)) => p,
        Err(e) => {
            return Err(e);
        },
    };
    if !can_read(input, p, 12) {
        return Err(ParseError::Truncated { needed: 4 });
    }
    let index_type: u32 = u32_field(input, p, false);
    let index_count: u32 = u32_field(input, p + 4, false);
    let index_data_offset: u32 = u32_field(input, p + 8, false);
    Ok((IndexData { index_type, index_count, index_data_offset }, p + 12))
}

/// Decodes the comment chunk at `pos`.
pub fn comment(input: &[u8], pos: usize) -> (r: Result<(String, usize), ParseError>)
    ensures
        match comment_at(input@, pos as int) {
            Ok((v, next)) => r matches Ok((x, n)) && x@ == v && n == next,
            Err(e) => r matches Err(f) && f == e,
        },
{
    let (header, p) = match chunk_header(input, pos) {
        Ok(found) => found,
        Err(e) => {
            return Err(e);
        },
    };
    if header.chunk_size < 8 {
        return Err(ParseError::Truncated { needed: CHUNK_HEADER_BYTES });
    }
    let len: usize = (header.chunk_size - 8) as usize;
    if !can_read(input, p, len) {
        return Err(ParseError::Truncated { needed: len });
    }
    Ok((comment_text(slice_subrange(input, p, p + len)), p + len))
}

/// Decodes the data chunk at `pos`.
pub fn data(input: &[u8], pos: usize) -> (r: Result<(Data, usize), ParseError>)
    ensures
        match data_at(input@, pos as int) {
            Ok((v, next)) => r matches Ok((x, n)) && x == v && n == next,
            Err(e) => r matches Err(f) && f == e,
        },
{
    let p: usize = match chunk_header(input, pos) {
        Ok((_, p)) => p,
        Err(e) => {
            return Err(e);
        },
    };
    if !can_read(input, p, 12) {
        return Err(ParseError::Truncated { needed: 4 });
    }
    let encoding: u32 = u32_field(input, p, false);
    let data_offset: u32 = u32_field(input, p + 4, false);
    let data_length: u32 = u32_field(input, p + 8, false);
    Ok((Data { encoding, data_offset, data_length }, p + 12))
}

/// Decodes the vertex data chunk at `pos`. The vertex stream is borrowed
/// from the input.
pub fn vertex_data<'a>(input: &'a [u8], pos: usize) -> (r: Result<
    (VertexData<'a>, usize),
    ParseError,
>)
    ensures
        match vertex_data_at(input@, pos as int) {
            Ok((v, next)) => r matches Ok((x, n)) && x@ == v && n == next,
            Err(e) => r matches Err(f) && f == e,
        },
{
    let p: usize = match chunk_header(input, pos) {
        Ok((_, p)) => p,
        Err(e) => {
            return Err(e);
        },
    };
    if !can_read(input, p, 12) {
        return Err(ParseError::Truncated { needed: 4 });
    }
    let data_size: usize = u32_field(input, p, false) as usize;
    let data_offset: u32 = u32_field(input, p + 4, false);
    let total_vertices: u32 = u32_field(input, p + 8, false);
    let start: usize = p + 12;
    if !can_read(input, start, data_size) {
        return Err(ParseError::Truncated { needed: data_size });
    }
    let vertices = slice_subrange(input, start, start + data_size);
    Ok((VertexData { data_offset, total_vertices, vertices }, start + data_size))
}

/// Decodes the vertex attribute record at `pos`.
pub fn vertex_attribute(input: &[u8], pos: usize) -> (r: Result<
    (VertexAttribute, usize),
    ParseError,
>)
    ensures
        match attribute_at(input@, pos as int) {
            Ok((v, next)) => r matches Ok((x, n)) && x@ == v && n == next,
            Err(e) => r matches Err(f) && f == e,
        },
{
    if !can_read(input, pos, VERTEX_ATTRIBUTE_NAME_BYTES) {
        return Err(ParseError::Truncated { needed: VERTEX_ATTRIBUTE_NAME_BYTES });
    }
    let fields: usize = pos + VERTEX_ATTRIBUTE_NAME_BYTES;
    if !can_read(input, fields, 20) {
        return Err(ParseError::Truncated { needed: 4 });
    }
    let name = match bytes_to_string(slice_subrange(input, pos, fields)) {
        Some(name) => name,
        None => {
            return Err(ParseError::MalformedAttributeRecord);
        },
    };
    let size: u32 = u32_field(input, fields, false);
    let attribute_type: u32 = u32_field(input, fields + 4, false);
    let stride: u32 = u32_field(input, fields + 8, false);
    let flags: u32 = u32_field(input, fields + 12, false);
    let data_offset: u32 = u32_field(input, fields + 16, false);
    Ok(
        (
            VertexAttribute { name, size, attribute_type, stride, flags, data_offset },
            pos + VERTEX_ATTRIBUTE_BYTES,
        ),
    )
}

/// Decodes the vertex attributes chunk at `pos`.
pub fn vertex_attributes(input: &[u8], pos: usize) -> (r: Result<
    (Vec<VertexAttribute>, usize),
    ParseError,
>)
    ensures
        match vertex_attributes_at(input@, pos as int) {
            Ok((v, next)) => r matches Ok((x, n)) && attribute_views(x@) == v && n == next,
            Err(e) => r matches Err(f) && f == e,
        },
{
    let p: usize = match chunk_header(input, pos) {
        Ok((_, p)) => p,
        Err(e) => {
            return Err(e);
        },
    };
    let count: u32 = match read_u32(input, p, false) {
        Ok(count) => count,
        Err(e) => {
            return Err(e);
        },
    };
    proof {
        lemma_len_fits(input);
    }
    let start: usize = p + 4;
    let mut attributes: Vec<VertexAttribute> = Vec::new();
    let mut at: usize = start;
    let mut done: u32 = 0;
    assert(attribute_views(attributes@) =~= Seq::empty());
    while done < count
        invariant
            done <= count,
            at <= input@.len(),
            vertex_attributes_at(input@, pos as int) == attributes_from(
                input@,
                start as int,
                count as nat,
            ),
            attributes_from(input@, start as int, done as nat) == Ok::<
                (Seq<VertexAttributeView>, int),
                ParseError,
            >((attribute_views(attributes@), at as int)),
        decreases count - done,
    {
        let attribute = match vertex_attribute(input, at) {
            Ok((attribute, next)) => {
                at = next;
                attribute
            },
            Err(e) => {
                proof {
                    let failed = attributes_from(input@, start as int, (done + 1) as nat);
                    assert(failed == Err::<(Seq<VertexAttributeView>, int), ParseError>(e));
                    lemma_attributes_fail(input@, start as int, (done + 1) as nat, count as nat);
                }
                return Err(e);
            },
        };
        proof {
            assert(attribute_views(attributes@.push(attribute)) =~= attribute_views(
                attributes@,
            ).push(attribute@));
        }
        attributes.push(attribute);
        done = done + 1;
    }
    Ok((attributes, at))
}

/// Once a record fails, the list fails in the same way however many more
/// records are asked for.
pub proof fn lemma_attributes_fail(s: Seq<u8>, pos: int, n: nat, m: nat)
    requires
        n <= m,
        attributes_from(s, pos, n) is Err,
    ensures
        attributes_from(s, pos, m) == attributes_from(s, pos, n),
    decreases m,
{
    if n < m {
        lemma_attributes_fail(s, pos, n, (m - 1) as nat);
    }
}

/// Decodes the sub-object list chunk at `pos`.
pub fn sub_objects(input: &[u8], pos: usize) -> (r: Result<(Vec<SubObject>, usize), ParseError>)
    ensures
        match sub_objects_at(input@, pos as int) {
            Ok((v, next)) => r matches Ok((x, n)) && x@ == v && n == next,
            Err(e) => r matches Err(f) && f == e,
        },
{
    let p: usize = match chunk_header(input, pos) {
        Ok((_, p)) => p,
        Err(e) => {
            return Err(e);
        },
    };
    let count: u32 = match read_u32(input, p, false) {
        Ok(count) => count,
        Err(e) => {
            return Err(e);
        },
    };
    proof {
        lemma_len_fits(input);
    }
    let start: usize = p + 4;
    let all: usize = match (count as usize).checked_mul(8) {
        Some(all) => all,
        None => {
            return Err(ParseError::Truncated { needed: 4 });
        },
    };
    if !can_read(input, start, all) {
        return Err(ParseError::Truncated { needed: 4 });
    }
    let mut list: Vec<SubObject> = Vec::new();
    let mut done: u32 = 0;
    while done < count
        invariant
            done <= count,
            has_bytes(input@, start as int, 8 * count),
            input@.len() <= usize::MAX,
            list@ == Seq::new(done as nat, |i: int| sub_object_at(input@, start + 8 * i)),
        decreases count - done,
    {
        let at: usize = start + 8 * (done as usize);
        let first: u32 = u32_field(input, at, false);
        let second: u32 = u32_field(input, at + 4, false);
        list.push(SubObject { first, count: second });
        done = done + 1;
    }
    Ok((list, start + all))
}

/// Decodes the chunk at `pos`, whatever its kind.
pub fn chunk<'a>(input: &'a [u8], pos: usize) -> (r: Result<(ChunkType<'a>, usize), ParseError>)
    ensures
        match chunk_at(input@, pos as int) {
            Ok((v, next)) => r matches Ok((x, n)) && x@ == v && n == next,
            Err(e) => r matches Err(f) && f == e,
        },
{
    let kind = match chunk_kind(input, pos) {
        Ok(kind) => kind,
        Err(e) => {
            return Err(e);
        },
    };
    match kind {
        ChunkKind::IndexData => match index_data(input, pos) {
            Ok((v, next)) => Ok((ChunkType::IndexData(v), next)),
            Err(e) => Err(e),
        },
        ChunkKind::Comment => match comment(input, pos) {
            Ok((v, next)) => Ok((ChunkType::Comment(v), next)),
            Err(e) => Err(e),
        },
        ChunkKind::Data => match data(input, pos) {
            Ok((v, next)) => Ok((ChunkType::Data(v), next)),
            Err(e) => Err(e),
        },
        ChunkKind::VertexData => match vertex_data(input, pos) {
            Ok((v, next)) => Ok((ChunkType::VertexData(v), next)),
            Err(e) => Err(e),
        },
        ChunkKind::VertexAttributes => match vertex_attributes(input, pos) {
            Ok((v, next)) => Ok((ChunkType::VertexAttributes(v), next)),
            Err(e) => Err(e),
        },
        ChunkKind::SubObjects => match sub_objects(input, pos) {
            Ok((v, next)) => Ok((ChunkType::SubObjects(v), next)),
            Err(e) => Err(e),
        },
    }
}

/// Once a chunk fails, the walk fails in the same way however many more
/// chunks are asked for.
pub proof fn lemma_chunks_fail(s: Seq<u8>, pos: int, n: nat, m: nat)
    requires
        n <= m,
        chunks_from(s, pos, n) is Err,
    ensures
        chunks_from(s, pos, m) == chunks_from(s, pos, n),
    decreases m,
{
    if n < m {
        lemma_chunks_fail(s, pos, n, (m - 1) as nat);
    }
}

/// Whether `input` starts with the container's identifier.
fn has_magic(input: &[u8]) -> (b: bool)
    requires
        input@.len() >= 4,
    ensures
        b == has_container_magic(input@),
{
    let b0: u8 = input[0];
    let b1: u8 = input[1];
    let b2: u8 = input[2];
    let b3: u8 = input[3];
    (b0 == 0x53 && b1 == 0x42 && b2 == 0x36 && b3 == 0x4D) || (b0 == 0x4D && b1 == 0x36 && b2
        == 0x42 && b3 == 0x53)
}

/// Decodes the fixed header of a mesh container: its identifier, the size
/// of its header, the number of its chunks and a field of flags.
pub fn container_header(input: &[u8]) -> (r: Result<ContainerHeader, ParseError>)
    ensures
        r == container_header_of(input@),
        r matches Ok(header) ==> header.total_header_size >= 16,
{
    if input.len() < 4 {
        return Err(ParseError::Truncated { needed: 4 });
    }
    if !has_magic(input) {
        return Err(ParseError::MagicMismatch);
    }
    if input.len() < CONTAINER_HEADER_BYTES {
        return Err(ParseError::Truncated { needed: 4 });
    }
    let total_header_size: u32 = u32_field(input, 4, false);
    if total_header_size < 16 {
        return Err(ParseError::Truncated { needed: CONTAINER_HEADER_BYTES });
    }
    Ok(
        ContainerHeader {
            reversed: input[0] == 0x4D,
            total_header_size,
            chunk_count: u32_field(input, 8, false),
            flags: u32_field(input, 12, false),
        },
    )
}

/// Decodes the chunks of a mesh container, in the order in which they are
/// stored, and says where the last of them ends.
///
/// The chunks start where the header ends by its stated size, and there are
/// as many as the header counts. The flags of the header are not used.
pub fn parse_chunks<'a>(input: &'a [u8]) -> (r: Result<(Vec<ChunkType<'a>>, usize), ParseError>)
    ensures
        match container_chunks(input@) {
            Ok((v, end)) => r matches Ok((x, n)) && chunk_views(x@) == v && n == end,
            Err(e) => r matches Err(f) && f == e,
        },
{
    let header = match container_header(input) {
        Ok(header) => header,
        Err(e) => {
            return Err(e);
        },
    };
    let count: u32 = header.chunk_count;
    let padding: usize = (header.total_header_size - 16) as usize;
    if !can_read(input, CONTAINER_HEADER_BYTES, padding) {
        return Err(ParseError::Truncated { needed: padding });
    }
    let start: usize = CONTAINER_HEADER_BYTES + padding;
    let mut chunks: Vec<ChunkType<'a>> = Vec::new();
    let mut at: usize = start;
    let mut done: u32 = 0;
    assert(chunk_views(chunks@) =~= Seq::empty());
    while done < count
        invariant
            done <= count,
            container_chunks(input@) == chunks_from(input@, start as int, count as nat),
            chunks_from(input@, start as int, done as nat) == Ok::<(Seq<ChunkView>, int), ParseError>(
                (chunk_views(chunks@), at as int),
            ),
        decreases count - done,
    {
        let found = match chunk(input, at) {
            Ok((found, next)) => {
                at = next;
                found
            },
            Err(e) => {
                proof {
                    let failed = chunks_from(input@, start as int, (done + 1) as nat);
                    assert(failed == Err::<(Seq<ChunkView>, int), ParseError>(e));
                    lemma_chunks_fail(input@, start as int, (done + 1) as nat, count as nat);
                }
                return Err(e);
            },
        };
        proof {
            assert(chunk_views(chunks@.push(found)) =~= chunk_views(chunks@).push(found@));
        }
        chunks.push(found);
        done = done + 1;
    }
    Ok((chunks, at))
}

impl ChunkView {
    /// The kind of the chunk.
    pub open spec fn kind(self) -> ChunkKind {
        match self {
            ChunkView::IndexData(_) => ChunkKind::IndexData,
            ChunkView::VertexData(_) => ChunkKind::VertexData,
            ChunkView::VertexAttributes(_) => ChunkKind::VertexAttributes,
            ChunkView::SubObjects(_) => ChunkKind::SubObjects,
            ChunkView::Comment(_) => ChunkKind::Comment,
            ChunkView::Data(_) => ChunkKind::Data,
        }
    }
}

impl<'a> ChunkType<'a> {
    /// The kind of the chunk.
    pub fn kind(&self) -> (k: ChunkKind)
        ensures
            k == self@.kind(),
    {
        match self {
            ChunkType::IndexData(_) => ChunkKind::IndexData,
            ChunkType::VertexData(_) => ChunkKind::VertexData,
            ChunkType::VertexAttributes(_) => ChunkKind::VertexAttributes,
            ChunkType::SubObjects(_) => ChunkKind::SubObjects,
            ChunkType::Comment(_) => ChunkKind::Comment,
            ChunkType::Data(_) => ChunkKind::Data,
        }
    }
}

/// The place of the last chunk of the given kind, if there is one.
pub open spec fn last_of(chunks: Seq<ChunkView>, kind: ChunkKind) -> Option<int>
    decreases chunks.len(),
{
    if chunks.len() == 0 {
        None
    } else if chunks.last().kind() == kind {
        Some(chunks.len() - 1)
    } else {
        last_of(chunks.drop_last(), kind)
    }
}

/// The place that [`last_of`] names holds a chunk of the kind, and no chunk
/// after it is of the kind; where it names none, no chunk is of the kind.
pub proof fn lemma_last_of(chunks: Seq<ChunkView>, kind: ChunkKind)
    ensures
        match last_of(chunks, kind) {
            Some(i) => {
                &&& 0 <= i < chunks.len()
                &&& chunks[i].kind() == kind
                &&& forall|j: int| i < j < chunks.len() ==> (#[trigger] chunks[j]).kind() != kind
            },
            None => forall|j: int| 0 <= j < chunks.len() ==> (#[trigger] chunks[j]).kind() != kind,
        },
    decreases chunks.len(),
{
    if chunks.len() > 0 && chunks.last().kind() != kind {
        let front = chunks.drop_last();
        lemma_last_of(front, kind);
        assert forall|j: int| 0 <= j < front.len() implies front[j] == chunks[j] by {}
    }
}

/// How one vertex attribute is bound to its slot of the vertex array.
#[derive(Debug, Clone, Copy, PartialEq, Eq, Structural)]
pub struct AttributeBinding {
    /// The slot: the place of the attribute in its list.
    pub index: usize,
    pub component_count: u32,
    pub component_type: u32,
    pub normalized: bool,
    pub stride: u32,
    /// Where the attribute of the first vertex starts in the vertex buffer.
    pub offset: u32,
}

/// The binding of the attribute `a`, which stands at place `index` of its
/// list.
pub open spec fn binding_of(a: VertexAttributeView, index: int) -> AttributeBinding {
    AttributeBinding {
        index: index as usize,
        component_count: a.size,
        component_type: a.attribute_type,
        normalized: a.normalized(),
        stride: a.stride,
        offset: a.data_offset,
    }
}

/// All that the graphics layer needs in order to create the buffer and the
/// vertex array of a mesh.
#[derive(Debug, Clone, PartialEq, Eq)]
pub struct Assembly<'a> {
    /// The bytes to upload into the vertex buffer, as they are stored; none
    /// where the container has no vertex data.
    pub vertices: Option<&'a [u8]>,
    /// One binding for each attribute, in the order of the list; each slot is
    /// to be enabled.
    pub attributes: Vec<AttributeBinding>,
    /// The draw ranges.
    pub sub_objects: Vec<SubObject>,
}

/// What an assembly holds.
pub struct AssemblyView {
    pub vertices: Option<Seq<u8>>,
    pub attributes: Seq<AttributeBinding>,
    pub sub_objects: Seq<SubObject>,
}

impl AssemblyView {
    /// The size of the vertex buffer: the length of the vertex stream, or 0
    /// where there is none.
    pub open spec fn buffer_size(self) -> nat {
        match self.vertices {
            Some(bytes) => bytes.len(),
            None => 0,
        }
    }
}

impl<'a> View for Assembly<'a> {
    type V = AssemblyView;

    open spec fn view(&self) -> AssemblyView {
        AssemblyView {
            vertices: match self.vertices {
                Some(bytes) => Some(bytes@),
                None => None,
            },
            attributes: self.attributes@,
            sub_objects: self.sub_objects@,
        }
    }
}

/// The assembly of the given chunks. Of several chunks of one kind the last
/// counts. The vertex stream is that of the vertex data chunk; the bindings
/// are those of the vertex attributes chunk, none where there is no such
/// chunk; the draw ranges are those of the sub-object list, and where there
/// is no such list, one range from vertex 0 over all vertices that the
/// vertex data chunk counts, over none where there is no such chunk.
pub open spec fn assembled(chunks: Seq<ChunkView>) -> AssemblyView {
    let vertex_data = match last_of(chunks, ChunkKind::VertexData) {
        Some(i) => Some(chunks[i]->VertexData_0),
        None => None,
    };
    AssemblyView {
        vertices: match vertex_data {
            Some(v) => Some(v.vertices),
            None => None,
        },
        attributes: match last_of(chunks, ChunkKind::VertexAttributes) {
            Some(i) => {
                let list = chunks[i]->VertexAttributes_0;
                Seq::new(list.len(), |k: int| binding_of(list[k], k))
            },
            None => Seq::empty(),
        },
        sub_objects: match last_of(chunks, ChunkKind::SubObjects) {
            Some(i) => chunks[i]->SubObjects_0,
            None => seq![
                SubObject {
                    first: 0,
                    count: match vertex_data {
                        Some(v) => v.total_vertices,
                        None => 0,
                    },
                },
            ],
        },
    }
}

/// How the decoding of `s` as a mesh container ends: with the assembly of
/// its chunks, or with the first failure met in reading order.
pub open spec fn mesh_outcome(s: Seq<u8>) -> Result<AssemblyView, ParseError> {
    match container_chunks(s) {
        Ok((chunks, _)) => Ok(assembled(chunks)),
        Err(e) => Err(e),
    }
}

/// The place of the last chunk of the given kind, if there is one.
fn last_chunk_of(chunks: &Vec<ChunkType>, kind: ChunkKind) -> (r: Option<usize>)
    ensures
        match last_of(chunk_views(chunks@), kind) {
            Some(i) => r == Some(i as usize) && 0 <= i < chunks@.len(),
            None => r is None,
        },
{
    let ghost views = chunk_views(chunks@);
    let mut i: usize = chunks.len();
    assert(views.take(i as int) =~= views);
    while i > 0
        invariant
            i <= chunks@.len(),
            views == chunk_views(chunks@),
            last_of(views, kind) == last_of(views.take(i as int), kind),
        decreases i,
    {
        proof {
            let cur = views.take(i as int);
            assert(cur.last() == chunks@[i - 1]@);
            assert(cur.drop_last() =~= views.take(i - 1));
        }
        if chunks[i - 1].kind() == kind {
            return Some(i - 1);
        }
        i = i - 1;
    }
    None
}

/// The bindings of the attributes of a list, slot by slot.
fn bindings_of(attributes: &Vec<VertexAttribute>) -> (r: Vec<AttributeBinding>)
    ensures
        r@ == Seq::new(
            attributes@.len(),
            |k: int| binding_of(attribute_views(attributes@)[k], k),
        ),
{
    let mut bindings: Vec<AttributeBinding> = Vec::new();
    let mut index: usize = 0;
    while index < attributes.len()
        invariant
            index <= attributes@.len(),
            bindings@ == Seq::new(
                index as nat,
                |k: int| binding_of(attribute_views(attributes@)[k], k),
            ),
        decreases attributes@.len() - index,
    {
        let attribute = &attributes[index];
        bindings.push(
            AttributeBinding {
                index,
                component_count: attribute.size,
                component_type: attribute.attribute_type,
                normalized: attribute.is_normalized(),
                stride: attribute.stride,
                offset: attribute.data_offset,
            },
        );
        index = index + 1;
    }
    bindings
}

/// A copy of a list of draw ranges.
fn copy_of(list: &Vec<SubObject>) -> (r: Vec<SubObject>)
    ensures
        r@ == list@,
{
    let mut copy: Vec<SubObject> = Vec::new();
    let mut i: usize = 0;
    while i < list.len()
        invariant
            i <= list@.len(),
            copy@ == list@.take(i as int),
        decreases list@.len() - i,
    {
        copy.push(list[i]);
        proof {
            assert(list@.take(i + 1) =~= list@.take(i as int).push(list@[i as int]));
        }
        i = i + 1;
    }
    assert(list@.take(list@.len() as int) =~= list@);
    copy
}

/// Assembles decoded chunks into the data from which the graphics layer
/// creates the mesh: the bytes of its vertex buffer, the bindings of its
/// vertex array, and its draw ranges.
pub fn prepare_object<'a>(chunks: Vec<ChunkType<'a>>) -> (assembly: Assembly<'a>)
    ensures
        assembly@ == assembled(chunk_views(chunks@)),
{
    let ghost views = chunk_views(chunks@);
    let mut vertices: Option<&'a [u8]> = None;
    let mut total_vertices: u32 = 0;
    match last_chunk_of(&chunks, ChunkKind::VertexData) {
        Some(i) => {
            assert(views[i as int] == chunks@[i as int]@);
            proof {
                lemma_last_of(views, ChunkKind::VertexData);
            }
            match &chunks[i] {
                ChunkType::VertexData(vertex_data) => {
                    vertices = Some(vertex_data.vertices);
                    total_vertices = vertex_data.total_vertices;
                },
                _ => {
                    assert(false);
                },
            }
        },
        None => {},
    }
    let mut attributes: Vec<AttributeBinding> = Vec::new();
    match last_chunk_of(&chunks, ChunkKind::VertexAttributes) {
        Some(i) => {
            assert(views[i as int] == chunks@[i as int]@);
            proof {
                lemma_last_of(views, ChunkKind::VertexAttributes);
            }
            match &chunks[i] {
                ChunkType::VertexAttributes(list) => {
                    attributes = bindings_of(list);
                },
                _ => {
                    assert(false);
                },
            }
        },
        None => {},
    }
    let mut sub_objects: Vec<SubObject> = Vec::new();
    match last_chunk_of(&chunks, ChunkKind::SubObjects) {
        Some(i) => {
            assert(views[i as int] == chunks@[i as int]@);
            proof {
                lemma_last_of(views, ChunkKind::SubObjects);
            }
            match &chunks[i] {
                ChunkType::SubObjects(list) => {
                    sub_objects = copy_of(list);
                },
                _ => {
                    assert(false);
                },
            }
        },
        None => {
            sub_objects.push(SubObject { first: 0, count: total_vertices });
        },
    }
    let assembly = Assembly { vertices, attributes, sub_objects };
    proof {
        let expected = assembled(views);
        assert(assembly@.attributes =~= expected.attributes);
        assert(assembly@.sub_objects =~= expected.sub_objects);
    }
    assembly
}

/// Decodes a mesh container and assembles its chunks.
pub fn parse_object<'a>(input: &'a [u8]) -> (r: Result<Assembly<'a>, ParseError>)
    ensures
        match mesh_outcome(input@) {
            Ok(v) => r matches Ok(x) && x@ == v,
            Err(e) => r matches Err(f) && f == e,
        },
{
    match parse_chunks(input) {
        Ok((chunks, _)) => Ok(prepare_object(chunks)),
        Err(e) => Err(e),
    }
}

/// A mesh on the graphics device: the names of its vertex buffer and of its
/// vertex array, the bindings of the array, and its draw ranges. It does not
/// change once it is made.
#[derive(Debug, Clone, PartialEq, Eq)]
pub struct Object {
    vbo: u32,
    vao: u32,
    attributes: Vec<AttributeBinding>,
    sub_objects: Vec<SubObject>,
}

/// What an object holds.
pub struct ObjectView {
    pub vbo: u32,
    pub vao: u32,
    pub attributes: Seq<AttributeBinding>,
    pub sub_objects: Seq<SubObject>,
}

impl View for Object {
    type V = ObjectView;

    closed spec fn view(&self) -> ObjectView {
        ObjectView {
            vbo: self.vbo,
            vao: self.vao,
            attributes: self.attributes@,
            sub_objects: self.sub_objects@,
        }
    }
}

impl Default for Object {
    fn default() -> (o: Object)
        ensures
            o@ == (ObjectView {
                vbo: 0,
                vao: 0,
                attributes: Seq::empty(),
                sub_objects: Seq::empty(),
            }),
    {
        Object { vbo: 0, vao: 0, attributes: Vec::new(), sub_objects: Vec::new() }
    }
}

impl Object {
    /// The name of the vertex buffer.
    pub fn vbo(&self) -> (n: u32)
        ensures
            n == self@.vbo,
    {
        self.vbo
    }

    /// The name of the vertex array.
    pub fn vao(&self) -> (n: u32)
        ensures
            n == self@.vao,
    {
        self.vao
    }

    /// The bindings of the vertex array, slot by slot.
    pub fn attributes(&self) -> (a: &Vec<AttributeBinding>)
        ensures
            a@ == self@.attributes,
    {
        &self.attributes
    }

    /// The draw ranges, in the order in which they are drawn.
    pub fn sub_objects(&self) -> (s: &Vec<SubObject>)
        ensures
            s@ == self@.sub_objects,
    {
        &self.sub_objects
    }
}

impl<'a> Assembly<'a> {
    /// The size of the vertex buffer to allocate.
    pub fn buffer_size(&self) -> (n: usize)
        ensures
            n == self@.buffer_size(),
    {
        match self.vertices {
            Some(bytes) => bytes.len(),
            None => 0,
        }
    }

    /// The object that the assembly becomes once the graphics layer has
    /// created its buffer and its vertex array and hands in their names.
    pub fn into_object(self, vbo: u32, vao: u32) -> (o: Object)
        ensures
            o@ == (ObjectView {
                vbo,
                vao,
                attributes: self@.attributes,
                sub_objects: self@.sub_objects,
            }),
    {
        Object { vbo, vao, attributes: self.attributes, sub_objects: self.sub_objects }
    }
}

/// One instanced draw of a run of vertices as triangles.
#[derive(Debug, Clone, Copy, PartialEq, Eq, Structural)]
pub struct DrawCall {
    pub vao: u32,
    pub mode: u32,
    pub first: u32,
    pub count: u32,
    pub instance_count: u32,
    pub base_instance: u32,
}

/// The draw of sub-object `index` of `object`.
pub open spec fn draw_of(
    object: ObjectView,
    index: int,
    instance_count: u32,
    base_instance: u32,
) -> DrawCall
    recommends
        0 <= index < object.sub_objects.len(),
{
    DrawCall {
        vao: object.vao,
        mode: TRIANGLES,
        first: object.sub_objects[index].first,
        count: object.sub_objects[index].count,
        instance_count,
        base_instance,
    }
}

/// The draws of all sub-objects of `object`, in the order of its table, each
/// of one instance from base instance 0.
pub fn render_all(object: &Object) -> (calls: Vec<DrawCall>)
    ensures
        calls@ == Seq::new(object@.sub_objects.len(), |i: int| draw_of(object@, i, 1, 0)),
{
    let mut calls: Vec<DrawCall> = Vec::new();
    let mut index: usize = 0;
    while index < object.sub_objects.len()
        invariant
            index <= object.sub_objects@.len(),
            calls@ == Seq::new(index as nat, |i: int| draw_of(object@, i, 1, 0)),
        decreases object.sub_objects@.len() - index,
    {
        let range = object.sub_objects[index];
        calls.push(
            DrawCall {
                vao: object.vao,
                mode: TRIANGLES,
                first: range.first,
                count: range.count,
                instance_count: 1,
                base_instance: 0,
            },
        );
        index = index + 1;
    }
    calls
}

/// The draw of sub-object `index` of `object`, or
/// [`ParseError::IndexOutOfRange`] where the object has no such sub-object.
pub fn render_object(object: &Object, index: u32, instance_count: u32, base_instance: u32) -> (r:
    Result<DrawCall, ParseError>)
    ensures
        index < object@.sub_objects.len() ==> r == Ok::<DrawCall, ParseError>(
            draw_of(object@, index as int, instance_count, base_instance),
        ),
        index >= object@.sub_objects.len() ==> r == Err::<DrawCall, ParseError>(
            ParseError::IndexOutOfRange,
        ),
{
    if (index as usize) < object.sub_objects.len() {
        let range = object.sub_objects[index as usize];
        Ok(
            DrawCall {
                vao: object.vao,
                mode: TRIANGLES,
                first: range.first,
                count: range.count,
                instance_count,
                base_instance,
            },
        )
    } else {
        Err(ParseError::IndexOutOfRange)
    }
}

/// Whether `s` is a mesh container that ends where its last chunk ends.
pub open spec fn exact_container(s: Seq<u8>) -> bool {
    container_chunks(s) matches Ok((_, end)) && end == s.len()
}

/// Where chunk `i` of the container `s` starts: where the chunks before it
/// end.
pub open spec fn chunk_start(s: Seq<u8>, i: nat) -> int {
    match chunks_from(s, 16 + header_padding(le_u32_at(s, 4)), i) {
        Ok((_, at)) => at,
        Err(_) => 0,
    }
}

/// A walk that succeeds has succeeded on every shorter count, with the same
/// chunks as far as it went, and each chunk is the one decoded where the
/// chunks before it end.
pub proof fn lemma_chunks_before(s: Seq<u8>, pos: int, n: nat, i: nat)
    requires
        i <= n,
        chunks_from(s, pos, n) is Ok,
    ensures
        chunks_from(s, pos, n)->Ok_0.0.len() == n,
        chunks_from(s, pos, i) is Ok,
        chunks_from(s, pos, i)->Ok_0.0 == chunks_from(s, pos, n)->Ok_0.0.take(i as int),
        i < n ==> chunk_at(s, chunks_from(s, pos, i)->Ok_0.1) is Ok && chunk_at(
            s,
            chunks_from(s, pos, i)->Ok_0.1,
        )->Ok_0.0 == chunks_from(s, pos, n)->Ok_0.0[i as int],
    decreases n,
{
    let all = chunks_from(s, pos, n)->Ok_0.0;
    if n == 0 {
        assert(all.take(0) =~= all);
    } else {
        let before: nat = (n - 1) as nat;
        let front = chunks_from(s, pos, before)->Ok_0.0;
        if i == n {
            lemma_chunks_before(s, pos, before, before);
            assert(all.take(n as int) =~= all);
        } else {
            lemma_chunks_before(s, pos, before, i);
            assert(front.take(i as int) =~= all.take(i as int));
            if i < before {
                assert(front[i as int] == all[i as int]);
            }
        }
    }
}

/// A list of records that decodes has one entry for each record asked for
/// and ends 84 bytes per record after its start.
pub proof fn lemma_attributes_end(s: Seq<u8>, pos: int, n: nat)
    requires
        attributes_from(s, pos, n) is Ok,
    ensures
        attributes_from(s, pos, n)->Ok_0.0.len() == n,
        attributes_from(s, pos, n)->Ok_0.1 == pos + 84 * n,
    decreases n,
{
    if n > 0 {
        lemma_attributes_end(s, pos, (n - 1) as nat);
    }
}

/// A list of records that decodes holds record `k` as decoded 84 `k` bytes
/// after the start of the list.
pub proof fn lemma_attributes_each(s: Seq<u8>, pos: int, n: nat, k: int)
    requires
        attributes_from(s, pos, n) is Ok,
        0 <= k < n,
    ensures
        attribute_at(s, pos + 84 * k) == Ok::<(VertexAttributeView, int), ParseError>(
            (attributes_from(s, pos, n)->Ok_0.0[k], pos + 84 * (k + 1)),
        ),
    decreases n,
{
    let before: nat = (n - 1) as nat;
    lemma_attributes_end(s, pos, before);
    if k < before {
        lemma_attributes_each(s, pos, before, k);
    }
}

/// The place of the only chunk of a kind is the place that [`last_of`]
/// names.
proof fn lemma_last_of_is(chunks: Seq<ChunkView>, kind: ChunkKind, i: int)
    requires
        0 <= i < chunks.len(),
        chunks[i].kind() == kind,
        forall|j: int| i < j < chunks.len() ==> (#[trigger] chunks[j]).kind() != kind,
    ensures
        last_of(chunks, kind) == Some(i),
{
    lemma_last_of(chunks, kind);
}

/// Taking a chunk out of a list moves the last chunk of any other kind
/// along with the list and does not change which chunk it is.
proof fn lemma_last_of_without(chunks: Seq<ChunkView>, i: int, kind: ChunkKind)
    requires
        0 <= i < chunks.len(),
        chunks[i].kind() != kind,
    ensures
        match last_of(chunks, kind) {
            Some(j) => last_of(chunks.remove(i), kind) matches Some(k) && chunks.remove(i)[k]
                == chunks[j],
            None => last_of(chunks.remove(i), kind) is None,
        },
{
    let rest = chunks.remove(i);
    lemma_last_of(chunks, kind);
    lemma_last_of(rest, kind);
    assert forall|k: int| 0 <= k < rest.len() implies #[trigger] rest[k] == chunks[if k < i {
        k
    } else {
        k + 1
    }] by {}
    match last_of(chunks, kind) {
        Some(j) => {
            let moved = if j < i {
                j
            } else {
                j - 1
            };
            assert(rest[moved] == chunks[j]);
            assert forall|k: int| moved < k < rest.len() implies (#[trigger] rest[k]).kind()
                != kind by {
                let from = if k < i {
                    k
                } else {
                    k + 1
                };
                assert(rest[k] == chunks[from]);
            }
            lemma_last_of_is(rest, kind, moved);
        },
        None => {
            if let Some(k) = last_of(rest, kind) {
                let from = if k < i {
                    k
                } else {
                    k + 1
                };
                assert(rest[k] == chunks[from]);
            }
        },
    }
}

/// Comment, data and index chunks do not count in the assembly: a list of
/// chunks assembles to the same with or without any one of them.
pub proof fn lemma_other_chunks_do_not_count(chunks: Seq<ChunkView>, i: int)
    requires
        0 <= i < chunks.len(),
        chunks[i].kind() == ChunkKind::Comment || chunks[i].kind() == ChunkKind::Data
            || chunks[i].kind() == ChunkKind::IndexData,
    ensures
        assembled(chunks.remove(i)) == assembled(chunks),
{
    lemma_last_of_without(chunks, i, ChunkKind::VertexData);
    lemma_last_of_without(chunks, i, ChunkKind::VertexAttributes);
    lemma_last_of_without(chunks, i, ChunkKind::SubObjects);
    let with = assembled(chunks);
    let without = assembled(chunks.remove(i));
    assert(without.attributes =~= with.attributes);
    assert(without.sub_objects =~= with.sub_objects);
}

/// A mesh without a sub-object list is drawn as one range over all its
/// vertices: where the container `s` decodes, chunk `i` is its only vertex
/// data chunk and no chunk is a sub-object list, the assembly has exactly
/// one draw range, from vertex 0 over the vertices that chunk `i` counts.
pub proof fn lemma_one_range_without_list(s: Seq<u8>, i: int)
    requires
        container_chunks(s) is Ok,
        0 <= i < container_chunks(s)->Ok_0.0.len(),
        container_chunks(s)->Ok_0.0[i].kind() == ChunkKind::VertexData,
        forall|j: int|
            0 <= j < container_chunks(s)->Ok_0.0.len() && j != i ==> (
            #[trigger] container_chunks(s)->Ok_0.0[j]).kind() != ChunkKind::VertexData,
        forall|j: int|
            0 <= j < container_chunks(s)->Ok_0.0.len() ==> (#[trigger] container_chunks(
                s,
            )->Ok_0.0[j]).kind() != ChunkKind::SubObjects,
    ensures
        mesh_outcome(s) matches Ok(a) && a.sub_objects == seq![
            SubObject {
                first: 0,
                count: container_chunks(s)->Ok_0.0[i]->VertexData_0.total_vertices,
            },
        ],
{
    let chunks = container_chunks(s)->Ok_0.0;
    lemma_last_of_is(chunks, ChunkKind::VertexData, i);
    lemma_last_of(chunks, ChunkKind::SubObjects);
}

/// A sub-object list is kept as it is stored: where the container `s`
/// decodes and chunk `i` is the last of its sub-object lists, the assembly
/// has one draw range for each of the pairs that the chunk counts, and range
/// `k` holds the two fields of pair `k`, which start 12 + 8 `k` bytes into
/// the chunk.
pub proof fn lemma_list_is_kept(s: Seq<u8>, i: int)
    requires
        container_chunks(s) is Ok,
        0 <= i < container_chunks(s)->Ok_0.0.len(),
        container_chunks(s)->Ok_0.0[i].kind() == ChunkKind::SubObjects,
        forall|j: int|
            i < j < container_chunks(s)->Ok_0.0.len() ==> (#[trigger] container_chunks(
                s,
            )->Ok_0.0[j]).kind() != ChunkKind::SubObjects,
    ensures
        mesh_outcome(s) matches Ok(a) && a.sub_objects == Seq::new(
            le_u32_at(s, chunk_start(s, i as nat) + 8) as nat,
            |k: int| sub_object_at(s, chunk_start(s, i as nat) + 12 + 8 * k),
        ),
{
    let chunks = container_chunks(s)->Ok_0.0;
    let start = 16 + header_padding(le_u32_at(s, 4));
    let n = le_u32_at(s, 8) as nat;
    lemma_last_of_is(chunks, ChunkKind::SubObjects, i);
    lemma_chunks_before(s, start, n, n);
    lemma_chunks_before(s, start, n, i as nat);
    let at = chunk_start(s, i as nat);
    assert(chunk_at(s, at) is Ok && chunk_at(s, at)->Ok_0.0 == chunks[i]);
    let list = chunks[i]->SubObjects_0;
    let stored = Seq::new(
        le_u32_at(s, at + 8) as nat,
        |k: int| sub_object_at(s, at + 12 + 8 * k),
    );
    assert(list =~= stored);
}

/// Whether the decoding of a prefix agrees with the decoding of the whole:
/// where the whole yields a value that ends within the first `cut` bytes,
/// the prefix yields the same, and where it ends later, the prefix is
/// refused as truncated.
spec fn cut_short<T>(
    whole: Result<(T, int), ParseError>,
    part: Result<(T, int), ParseError>,
    cut: int,
) -> bool {
    match whole {
        Ok((_, next)) => if next <= cut {
            part == whole
        } else {
            part matches Err(e) && e is Truncated
        },
        Err(_) => true,
    }
}

proof fn lemma_cut_header(s: Seq<u8>, cut: int, pos: int)
    requires
        0 <= pos <= cut <= s.len(),
    ensures
        cut_short(chunk_header_at(s, pos), chunk_header_at(s.take(cut), pos), cut),
        chunk_header_at(s, pos) matches Ok((_, next)) ==> next == pos + 8 && next <= s.len(),
        pos + 4 <= cut ==> kind_at(s.take(cut), pos) == kind_at(s, pos),
{
}

proof fn lemma_cut_attribute(s: Seq<u8>, cut: int, pos: int)
    requires
        0 <= pos <= cut <= s.len(),
    ensures
        cut_short(attribute_at(s, pos), attribute_at(s.take(cut), pos), cut),
        attribute_at(s, pos) matches Ok((_, next)) ==> next == pos + 84 && next <= s.len(),
{
    if pos + 84 <= cut {
        assert(s.take(cut).subrange(pos, pos + 64) =~= s.subrange(pos, pos + 64));
    }
}

proof fn lemma_cut_attributes(s: Seq<u8>, cut: int, pos: int, n: nat)
    requires
        0 <= pos <= cut <= s.len(),
    ensures
        cut_short(attributes_from(s, pos, n), attributes_from(s.take(cut), pos, n), cut),
        attributes_from(s, pos, n) matches Ok((_, next)) ==> pos <= next <= s.len(),
    decreases n,
{
    if n > 0 {
        let before: nat = (n - 1) as nat;
        lemma_cut_attributes(s, cut, pos, before);
        if let Ok((_, p)) = attributes_from(s, pos, before) {
            if p <= cut {
                lemma_cut_attribute(s, cut, p);
            } else {
                lemma_cut_attribute(s, s.len() as int, p);
            }
        }
    }
}

proof fn lemma_cut_chunk(s: Seq<u8>, cut: int, pos: int)
    requires
        0 <= pos <= cut <= s.len(),
    ensures
        cut_short(chunk_at(s, pos), chunk_at(s.take(cut), pos), cut),
        chunk_at(s, pos) matches Ok((_, next)) ==> pos <= next <= s.len(),
{
    let t = s.take(cut);
    lemma_cut_header(s, cut, pos);
    if let Ok((_, next)) = chunk_at(s, pos) {
        let p = pos + 8;
        match kind_at(s, pos)->Ok_0 {
            ChunkKind::IndexData => {},
            ChunkKind::Data => {},
            ChunkKind::Comment => {
                if next <= cut {
                    assert(t.subrange(p, next) =~= s.subrange(p, next));
                }
            },
            ChunkKind::VertexData => {
                if next <= cut {
                    assert(t.subrange(p + 12, next) =~= s.subrange(p + 12, next));
                }
            },
            ChunkKind::VertexAttributes => {
                if p + 4 <= cut {
                    lemma_cut_attributes(s, cut, p + 4, le_u32_at(s, p) as nat);
                } else {
                    lemma_cut_attributes(s, s.len() as int, p + 4, le_u32_at(s, p) as nat);
                }
            },
            ChunkKind::SubObjects => {
                if next <= cut {
                    let n = le_u32_at(s, p) as nat;
                    assert(Seq::new(n, |i: int| sub_object_at(t, p + 4 + 8 * i)) =~= Seq::new(
                        n,
                        |i: int| sub_object_at(s, p + 4 + 8 * i),
                    ));
                }
            },
        }
    }
}

proof fn lemma_cut_chunks(s: Seq<u8>, cut: int, pos: int, n: nat)
    requires
        0 <= pos <= cut <= s.len(),
    ensures
        cut_short(chunks_from(s, pos, n), chunks_from(s.take(cut), pos, n), cut),
        chunks_from(s, pos, n) matches Ok((_, next)) ==> pos <= next <= s.len(),
    decreases n,
{
    if n > 0 {
        let before: nat = (n - 1) as nat;
        lemma_cut_chunks(s, cut, pos, before);
        if let Ok((_, p)) = chunks_from(s, pos, before) {
            if p <= cut {
                lemma_cut_chunk(s, cut, p);
            } else {
                lemma_cut_chunk(s, s.len() as int, p);
            }
        }
    }
}

/// A container cut short is refused as truncated: of a container that ends
/// where its last chunk ends, every proper prefix fails with
/// [`ParseError::Truncated`].
pub proof fn lemma_prefix_is_truncated(s: Seq<u8>, cut: int)
    requires
        exact_container(s),
        0 <= cut < s.len(),
    ensures
        mesh_outcome(s.take(cut)) is Err,
        mesh_outcome(s.take(cut))->Err_0 is Truncated,
{
    let t = s.take(cut);
    if cut >= 16 {
        let padding = header_padding(le_u32_at(s, 4));
        if 16 + padding <= cut {
            lemma_cut_chunks(s, cut, 16 + padding, le_u32_at(s, 8) as nat);
        }
    }
}

/// No record of an attribute list fails for an identifier.
proof fn lemma_attributes_never_mismatch(s: Seq<u8>, pos: int, n: nat)
    ensures
        attributes_from(s, pos, n) matches Err(e) ==> !(e is MagicMismatch),
    decreases n,
{
    if n > 0 {
        lemma_attributes_never_mismatch(s, pos, (n - 1) as nat);
    }
}

/// No chunk fails for an identifier.
proof fn lemma_chunks_never_mismatch(s: Seq<u8>, pos: int, n: nat)
    ensures
        chunks_from(s, pos, n) matches Err(e) ==> !(e is MagicMismatch),
    decreases n,
{
    if n > 0 {
        let before: nat = (n - 1) as nat;
        lemma_chunks_never_mismatch(s, pos, before);
        if let Ok((_, p)) = chunks_from(s, pos, before) {
            if has_bytes(s, p + 8, 4) {
                lemma_attributes_never_mismatch(s, p + 12, le_u32_at(s, p + 8) as nat);
            }
        }
    }
}

/// The identifier alone decides on a mismatch: an input of four bytes or
/// more fails with [`ParseError::MagicMismatch`] exactly if it starts with
/// neither spelling of the identifier, and a shorter one never does.
pub proof fn lemma_mismatch_is_of_identifier(s: Seq<u8>)
    ensures
        mesh_outcome(s) == Err::<AssemblyView, ParseError>(ParseError::MagicMismatch) <==> s.len()
            >= 4 && !has_container_magic(s),
{
    if s.len() >= 16 && has_container_magic(s) && le_u32_at(s, 4) >= 16 {
        lemma_chunks_never_mismatch(
            s,
            16 + header_padding(le_u32_at(s, 4)),
            le_u32_at(s, 8) as nat,
        );
    }
}

/// A container whose first byte is changed is refused for its identifier:
/// where `s` decodes and `byte` is not its first byte, `s` with `byte` in
/// the first place fails with [`ParseError::MagicMismatch`].
pub proof fn lemma_first_byte_changed(s: Seq<u8>, byte: u8)
    requires
        mesh_outcome(s) is Ok,
        byte != s[0],
    ensures
        mesh_outcome(s.update(0, byte)) == Err::<AssemblyView, ParseError>(
            ParseError::MagicMismatch,
        ),
{
}

} // verus!
