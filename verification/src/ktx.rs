//! The texture container: a fixed header followed by the pixel payload, and
//! the plan by which the payload is handed to a texture.

use vstd::prelude::*;
use crate::bytes::{lemma_len_fits, u32_at, u32_field};
use crate::error::ParseError;
use crate::glenum::{
    BGR, BGRA, RED, RG, RGB, RGBA, TEXTURE_1D, TEXTURE_1D_ARRAY, TEXTURE_2D, TEXTURE_2D_ARRAY,
    TEXTURE_3D, TEXTURE_CUBE_MAP, TEXTURE_CUBE_MAP_ARRAY,
};
use crate::size::{capped, capped_add, capped_mul, capped_pad, lemma_capped_add, lemma_capped_mul, padded};

verus! {

/// The twelve bytes that every texture container starts with.
pub const KTX_IDENTIFIER: [u8; 12] = [
    0xAB, 0x4B, 0x54, 0x58, 0x20, 0x31, 0x31, 0xBB, 0x0D, 0x0A, 0x1A, 0x0A,
];

/// The number of bytes before the pixel payload: identifier, byte-order
/// marker and twelve 32-bit fields.
pub const HEADER_BYTES: usize = 64;

/// The identifier as a sequence of bytes.
pub open spec fn ktx_identifier() -> Seq<u8> {
    seq![0xABu8, 0x4Bu8, 0x54u8, 0x58u8, 0x20u8, 0x31u8, 0x31u8, 0xBBu8, 0x0Du8, 0x0Au8, 0x1Au8, 0x0Au8]
}

/// The kind of texture that a header describes.
#[derive(Debug, Clone, Copy, PartialEq, Eq, Structural)]
pub enum Target {
    Texture1D,
    Texture1DArray,
    Texture2D,
    Texture2DArray,
    Texture3D,
    CubeMap,
    CubeMapArray,
}

impl Target {
    /// The OpenGL enumerant of the target.
    pub open spec fn spec_gl_enum(self) -> u32 {
        match self {
            Target::Texture1D => TEXTURE_1D,
            Target::Texture1DArray => TEXTURE_1D_ARRAY,
            Target::Texture2D => TEXTURE_2D,
            Target::Texture2DArray => TEXTURE_2D_ARRAY,
            Target::Texture3D => TEXTURE_3D,
            Target::CubeMap => TEXTURE_CUBE_MAP,
            Target::CubeMapArray => TEXTURE_CUBE_MAP_ARRAY,
        }
    }

    /// The OpenGL enumerant of the target.
    #[verifier::when_used_as_spec(spec_gl_enum)]
    pub fn gl_enum(self) -> (e: u32)
        ensures
            e == self.spec_gl_enum(),
    {
        match self {
            Target::Texture1D => TEXTURE_1D,
            Target::Texture1DArray => TEXTURE_1D_ARRAY,
            Target::Texture2D => TEXTURE_2D,
            Target::Texture2DArray => TEXTURE_2D_ARRAY,
            Target::Texture3D => TEXTURE_3D,
            Target::CubeMap => TEXTURE_CUBE_MAP,
            Target::CubeMapArray => TEXTURE_CUBE_MAP_ARRAY,
        }
    }
}

/// The fixed fields of a texture container, in the order in which they are
/// stored.
#[derive(Debug, Clone, Copy, PartialEq, Eq, Structural)]
pub struct Header {
    /// Whether the 32-bit fields are stored most significant byte first.
    pub big_endian: bool,
    pub gl_type: u32,
    pub gl_type_size: u32,
    pub gl_format: u32,
    pub gl_internal_format: u32,
    pub gl_base_internal_format: u32,
    pub pixel_width: u32,
    pub pixel_height: u32,
    pub pixel_depth: u32,
    pub array_elements: u32,
    pub faces: u32,
    pub mip_levels: u32,
    pub key_pair_bytes: u32,
}

/// The extent of mip level `level` along an axis whose base extent is
/// `base`: the base halved `level` times, and never less than 1.
pub open spec fn level_extent(base: u32, level: nat) -> u32 {
    if level >= 32 {
        1
    } else if base >> (level as u32) == 0 {
        1
    } else {
        base >> (level as u32)
    }
}

impl Header {
    /// What every header of a texture keeps: at least one mip level and a
    /// width of at least one texel. The decoder refuses a container whose
    /// header does not keep it.
    pub open spec fn well_formed(self) -> bool {
        self.mip_levels >= 1 && self.pixel_width >= 1
    }

    /// The kind of texture, decided by which of height, depth, array length
    /// and face count are zero.
    pub open spec fn target(self) -> Target {
        if self.pixel_height == 0 {
            if self.array_elements == 0 {
                Target::Texture1D
            } else {
                Target::Texture1DArray
            }
        } else if self.pixel_depth == 0 {
            if self.array_elements == 0 {
                if self.faces == 0 {
                    Target::Texture2D
                } else {
                    Target::CubeMap
                }
            } else if self.faces == 0 {
                Target::Texture2DArray
            } else {
                Target::CubeMapArray
            }
        } else {
            Target::Texture3D
        }
    }

    /// The number of components of a texel, by the base internal format; 0
    /// for a format that is not known.
    pub open spec fn channels(self) -> nat {
        let f = self.gl_base_internal_format;
        if f == RED {
            1
        } else if f == RG {
            2
        } else if f == RGB || f == BGR {
            3
        } else if f == RGBA || f == BGRA {
            4
        } else {
            0
        }
    }

    /// The number of bytes of a texel.
    pub open spec fn texel_bytes(self) -> nat {
        self.gl_type_size as nat * self.channels()
    }

    /// The number of bytes of a row of `width` texels, rounded up to a
    /// multiple of `pad`.
    pub open spec fn row_bytes(self, width: nat, pad: nat) -> nat {
        padded(self.texel_bytes() * width, pad)
    }

    /// The width of mip level `level`.
    pub open spec fn level_width(self, level: nat) -> u32 {
        level_extent(self.pixel_width, level)
    }

    /// The height of mip level `level`.
    pub open spec fn level_height(self, level: nat) -> u32 {
        level_extent(self.pixel_height, level)
    }

    /// The number of bytes of mip level `level` of a two-dimensional
    /// texture: its rows are stored without padding.
    pub open spec fn level_size(self, level: nat) -> nat {
        self.row_bytes(self.level_width(level) as nat, 1) * self.level_height(level) as nat
    }

    /// Where mip level `level` starts in the payload of a two-dimensional
    /// texture: the sizes of the levels before it, added up.
    pub open spec fn level_offset(self, level: nat) -> nat
        decreases level,
    {
        if level == 0 {
            0
        } else {
            self.level_offset((level - 1) as nat) + self.level_size((level - 1) as nat)
        }
    }

    /// The row alignment under which a whole image is handed over: 4 for an
    /// array of two-dimensional images, none otherwise.
    pub open spec fn image_alignment(self) -> Option<u32> {
        if self.target() == Target::Texture2DArray {
            Some(4u32)
        } else {
            None
        }
    }

    /// The number of rows of the image that a whole-image upload hands over:
    /// the array length for an array of rows, the height for the
    /// two-dimensional array and the volume, 1 for a single row.
    pub open spec fn image_height(self) -> u32 {
        match self.target() {
            Target::Texture1DArray => self.array_elements,
            Target::Texture2DArray | Target::Texture3D => self.pixel_height,
            _ => 1,
        }
    }

    /// The number of layers of the image that a whole-image upload hands
    /// over: the array length for the two-dimensional array, the depth for
    /// the volume, 1 otherwise.
    pub open spec fn image_depth(self) -> u32 {
        match self.target() {
            Target::Texture2DArray => self.array_elements,
            Target::Texture3D => self.pixel_depth,
            _ => 1,
        }
    }

    /// The number of bytes that a whole-image upload reads.
    pub open spec fn image_bytes(self) -> nat {
        let pad: nat = match self.image_alignment() {
            Some(a) => a as nat,
            None => 1,
        };
        self.row_bytes(self.pixel_width as nat, pad) * self.image_height() as nat
            * self.image_depth() as nat
    }

    /// The number of payload bytes that the upload of the texture reads:
    /// every mip level for the two-dimensional texture, one whole image for
    /// the one-dimensional, array and volume textures, nothing for the cube
    /// maps, whose upload is not supported.
    pub open spec fn required_payload(self) -> nat {
        match self.target() {
            Target::Texture2D => self.level_offset(self.mip_levels as nat),
            Target::CubeMap | Target::CubeMapArray => 0,
            _ => self.image_bytes(),
        }
    }

    /// Whether the header counts at least one mip level and has a width of
    /// at least one texel.
    pub fn is_well_formed(&self) -> (b: bool)
        ensures
            b == self.well_formed(),
    {
        self.mip_levels >= 1 && self.pixel_width >= 1
    }

    /// The number of components of a texel; 0 for a format that is not
    /// known.
    pub fn channel_count(&self) -> (c: u32)
        ensures
            c == self.channels(),
    {
        let f: u32 = self.gl_base_internal_format;
        if f == RED {
            1
        } else if f == RG {
            2
        } else if f == RGB || f == BGR {
            3
        } else if f == RGBA || f == BGRA {
            4
        } else {
            0
        }
    }
}

/// The extent of mip level `level` along an axis whose base extent is `base`.
pub fn mip_extent(base: u32, level: u32) -> (e: u32)
    ensures
        e == level_extent(base, level as nat),
        e >= 1,
{
    if level >= 32 {
        1
    } else {
        let shifted: u32 = base >> level;
        if shifted == 0 {
            1
        } else {
            shifted
        }
    }
}

/// The kind of texture that a header describes.
pub fn target_of(header: &Header) -> (t: Target)
    ensures
        t == header.target(),
{
    if header.pixel_height == 0 {
        if header.array_elements == 0 {
            Target::Texture1D
        } else {
            Target::Texture1DArray
        }
    } else if header.pixel_depth == 0 {
        if header.array_elements == 0 {
            if header.faces == 0 {
                Target::Texture2D
            } else {
                Target::CubeMap
            }
        } else if header.faces == 0 {
            Target::Texture2DArray
        } else {
            Target::CubeMapArray
        }
    } else {
        Target::Texture3D
    }
}

/// The number of bytes of a texel, capped.
fn texel_bytes_capped(header: &Header) -> (r: usize)
    ensures
        r == capped(header.texel_bytes() as int),
{
    capped_mul(header.gl_type_size as usize, header.channel_count() as usize)
}

/// The number of bytes of a row of `width` texels, rounded up to a multiple
/// of `pad` and capped at `usize::MAX`.
fn row_stride(header: &Header, width: u32, pad: usize) -> (r: usize)
    ensures
        r == capped(header.row_bytes(width as nat, pad as nat) as int),
{
    let texel: usize = texel_bytes_capped(header);
    let row: usize = capped_mul(texel, width as usize);
    proof {
        lemma_capped_mul(header.texel_bytes(), width as nat);
    }
    let r: usize = capped_pad(row, pad);
    proof {
        let exact: nat = header.texel_bytes() * width as nat;
        if exact >= usize::MAX {
            assert(padded(exact, pad as nat) >= exact);
        }
    }
    r
}

/// The height of the image that a whole-image upload hands over.
fn image_height_of(header: &Header) -> (h: u32)
    ensures
        h == header.image_height(),
{
    match target_of(header) {
        Target::Texture1DArray => header.array_elements,
        Target::Texture2DArray | Target::Texture3D => header.pixel_height,
        _ => 1,
    }
}

/// The depth of the image that a whole-image upload hands over.
fn image_depth_of(header: &Header) -> (d: u32)
    ensures
        d == header.image_depth(),
{
    match target_of(header) {
        Target::Texture2DArray => header.array_elements,
        Target::Texture3D => header.pixel_depth,
        _ => 1,
    }
}

/// The row alignment of a whole-image upload.
fn image_alignment_of(header: &Header) -> (a: Option<u32>)
    ensures
        a == header.image_alignment(),
{
    match target_of(header) {
        Target::Texture2DArray => Some(4),
        _ => None,
    }
}

/// The number of bytes that a whole-image upload reads, capped.
fn image_bytes_capped(header: &Header) -> (r: usize)
    ensures
        r == capped(header.image_bytes() as int),
{
    let pad: usize = match image_alignment_of(header) {
        Some(a) => a as usize,
        None => 1,
    };
    let height: u32 = image_height_of(header);
    let depth: u32 = image_depth_of(header);
    let row: usize = row_stride(header, header.pixel_width, pad);
    let plane: usize = capped_mul(row, height as usize);
    let all: usize = capped_mul(plane, depth as usize);
    proof {
        let row_exact: nat = header.row_bytes(header.pixel_width as nat, pad as nat);
        lemma_capped_mul(row_exact, height as nat);
        lemma_capped_mul(row_exact * height as nat, depth as nat);
    }
    all
}

/// Past level 31 both extents are 1, so a level is one texel.
pub proof fn lemma_level_size_tail(h: Header, level: nat)
    requires
        level >= 32,
    ensures
        h.level_size(level) == h.texel_bytes(),
{
    assert(h.level_width(level) == 1 && h.level_height(level) == 1);
    assert(h.texel_bytes() * 1 == h.texel_bytes());
}

/// Past level 32 the offsets grow by one texel per level.
pub proof fn lemma_level_offset_tail(h: Header, level: nat)
    requires
        level >= 32,
    ensures
        h.level_offset(level) == h.level_offset(32) + (level - 32) * h.texel_bytes(),
    decreases level,
{
    if level > 32 {
        let before: nat = (level - 1) as nat;
        lemma_level_offset_tail(h, before);
        lemma_level_size_tail(h, before);
        assert((level - 32) * h.texel_bytes() == (before - 32) * h.texel_bytes() + h.texel_bytes())
            by (nonlinear_arith)
            requires
                before == level - 1,
        ;
    } else {
        assert((level - 32) * h.texel_bytes() == 0) by (nonlinear_arith)
            requires
                level == 32,
        ;
    }
}

/// A later level starts no earlier.
pub proof fn lemma_level_offset_monotonic(h: Header, a: nat, b: nat)
    requires
        a <= b,
    ensures
        h.level_offset(a) <= h.level_offset(b),
    decreases b,
{
    if a < b {
        lemma_level_offset_monotonic(h, a, (b - 1) as nat);
    }
}

/// The number of bytes of mip level `level`, capped.
fn level_size_capped(header: &Header, level: u32) -> (r: usize)
    ensures
        r == capped(header.level_size(level as nat) as int),
{
    let width: u32 = mip_extent(header.pixel_width, level);
    let height: u32 = mip_extent(header.pixel_height, level);
    let row: usize = row_stride(header, width, 1);
    proof {
        lemma_capped_mul(header.row_bytes(width as nat, 1), height as nat);
    }
    capped_mul(row, height as usize)
}

/// The number of bytes of all mip levels of a two-dimensional texture,
/// capped. Levels past the 32nd are one texel each and are counted at once.
fn levels_bytes_capped(header: &Header) -> (r: usize)
    ensures
        r == capped(header.level_offset(header.mip_levels as nat) as int),
{
    let walked: u32 = if header.mip_levels < 32 {
        header.mip_levels
    } else {
        32
    };
    let mut total: usize = 0;
    let mut level: u32 = 0;
    while level < walked
        invariant
            level <= walked,
            walked <= 32,
            total == capped(header.level_offset(level as nat) as int),
        decreases walked - level,
    {
        let size: usize = level_size_capped(header, level);
        proof {
            lemma_capped_add(header.level_offset(level as nat), header.level_size(level as nat));
        }
        total = capped_add(total, size);
        level = level + 1;
    }
    if header.mip_levels > 32 {
        let rest: u32 = header.mip_levels - 32;
        let texel: usize = texel_bytes_capped(header);
        let tail: usize = capped_mul(texel, rest as usize);
        proof {
            lemma_level_offset_tail(*header, header.mip_levels as nat);
            lemma_capped_mul(header.texel_bytes(), rest as nat);
            lemma_capped_add(header.level_offset(32), header.texel_bytes() * rest as nat);
            assert(header.texel_bytes() * rest as nat == (header.mip_levels as nat - 32)
                * header.texel_bytes()) by (nonlinear_arith)
                requires
                    rest as nat == header.mip_levels as nat - 32,
            ;
        }
        total = capped_add(total, tail);
    }
    total
}

/// The number of payload bytes that the upload of the texture reads, capped.
pub fn required_bytes(header: &Header) -> (r: usize)
    ensures
        r == capped(header.required_payload() as int),
{
    match target_of(header) {
        Target::Texture2D => levels_bytes_capped(header),
        Target::CubeMap | Target::CubeMapArray => 0,
        _ => image_bytes_capped(header),
    }
}

/// A decoded texture: the header and the pixel payload that follows it in
/// the input. The header counts at least one mip level and has a width of at
/// least one texel, and the payload is at least as long as the upload of the
/// texture reads.
#[derive(Debug, Clone, Copy, PartialEq, Eq)]
pub struct KtxData<'a> {
    header: Header,
    pixels: &'a [u8],
}

/// What a decoded texture holds.
pub struct KtxView {
    pub header: Header,
    pub pixels: Seq<u8>,
}

impl<'a> View for KtxData<'a> {
    type V = KtxView;

    closed spec fn view(&self) -> KtxView {
        KtxView { header: self.header, pixels: self.pixels@ }
    }
}

impl<'a> KtxData<'a> {
    #[verifier::type_invariant]
    spec fn sound(self) -> bool {
        &&& self.header.well_formed()
        &&& self.header.required_payload() <= self.pixels@.len()
    }

    /// The header.
    pub fn header(&self) -> (h: &Header)
        ensures
            *h == self@.header,
            h.well_formed(),
            self@.header.required_payload() <= self@.pixels.len(),
    {
        proof {
            use_type_invariant(self);
        }
        &self.header
    }

    /// The pixel payload: everything that follows the header in the input.
    pub fn pixels(&self) -> (p: &'a [u8])
        ensures
            p@ == self@.pixels,
            self@.header.well_formed(),
            self@.header.required_payload() <= p@.len(),
    {
        proof {
            use_type_invariant(self);
        }
        self.pixels
    }
}

/// The header that the first 64 bytes of `input` encode.
pub open spec fn header_of(input: Seq<u8>) -> Header
    recommends
        input.len() >= 64,
{
    let big_endian = input[12] == 0x04;
    Header {
        big_endian,
        gl_type: u32_at(input, 16, big_endian),
        gl_type_size: u32_at(input, 20, big_endian),
        gl_format: u32_at(input, 24, big_endian),
        gl_internal_format: u32_at(input, 28, big_endian),
        gl_base_internal_format: u32_at(input, 32, big_endian),
        pixel_width: u32_at(input, 36, big_endian),
        pixel_height: u32_at(input, 40, big_endian),
        pixel_depth: u32_at(input, 44, big_endian),
        array_elements: u32_at(input, 48, big_endian),
        faces: u32_at(input, 52, big_endian),
        mip_levels: u32_at(input, 56, big_endian),
        key_pair_bytes: u32_at(input, 60, big_endian),
    }
}

/// How the decoding of `input` as a texture container ends: with its header,
/// or with the first failure met in reading order. The identifier asks for
/// twelve bytes, the byte-order marker and each field for four, and the
/// payload for as many as the upload reads. A header that counts no mip
/// level or has no width is refused as malformed once all of it is read.
pub open spec fn decode_outcome(input: Seq<u8>) -> Result<Header, ParseError> {
    if input.len() < 12 {
        Err(ParseError::Truncated { needed: 12 })
    } else if input.subrange(0, 12) != ktx_identifier() {
        Err(ParseError::MagicMismatch)
    } else if input.len() < 64 {
        Err(ParseError::Truncated { needed: 4 })
    } else if !header_of(input).well_formed() {
        Err(ParseError::MalformedHeader)
    } else if input.len() - 64 < header_of(input).required_payload() {
        Err(ParseError::Truncated { needed: capped(header_of(input).required_payload() as int) })
    } else {
        Ok(header_of(input))
    }
}

/// Whether `r` is what the decoding of `input` returns: the header and the
/// bytes after it where [`decode_outcome`] is a header, its failure otherwise.
pub open spec fn decodes_to(input: Seq<u8>, r: Result<KtxData, ParseError>) -> bool {
    match decode_outcome(input) {
        Ok(h) => r matches Ok(k) && k@.header == h && k@.pixels == input.skip(64),
        Err(e) => r matches Err(f) && f == e,
    }
}

/// Whether `input` is a texture container that holds exactly the bytes that
/// its upload reads, and none after them.
pub open spec fn exact_stream(input: Seq<u8>) -> bool {
    decode_outcome(input) matches Ok(h) && input.len() == 64 + h.required_payload()
}

/// Whether `input` starts with the identifier.
fn has_identifier(input: &[u8]) -> (b: bool)
    requires
        input@.len() >= 12,
    ensures
        b == (input@.subrange(0, 12) == ktx_identifier()),
{
    let mut i: usize = 0;
    while i < 12
        invariant
            i <= 12,
            input@.len() >= 12,
            forall|j: int| 0 <= j < i ==> input@[j] == ktx_identifier()[j],
        decreases 12 - i,
    {
        if input[i] != KTX_IDENTIFIER[i] {
            assert(input@.subrange(0, 12)[i as int] != ktx_identifier()[i as int]);
            return false;
        }
        i = i + 1;
    }
    assert(input@.subrange(0, 12) =~= ktx_identifier());
    true
}

/// Decodes a texture container.
///
/// The input must start with the identifier; the byte after it that opens
/// the byte-order marker says, by being `0x04`, that the fields are stored
/// most significant byte first. Twelve 32-bit fields follow, and all that
/// follows them is the pixel payload. The header must count at least one
/// mip level and have a width of at least one texel, and the payload must
/// hold every byte that the upload of the texture reads.
pub fn parse_ktx<'a>(input: &'a [u8]) -> (r: Result<KtxData<'a>, ParseError>)
    ensures
        decodes_to(input@, r),
        r matches Ok(k) ==> k@.header.well_formed() && k@.header.required_payload()
            <= k@.pixels.len(),
        input@.len() >= 12 ==> ((r matches Err(e) && e is MagicMismatch) <==> input@.subrange(0, 12)
            != ktx_identifier()),
        input@.len() >= 64 && input@.subrange(0, 12) == ktx_identifier() ==> ((r matches Err(e)
            && e is MalformedHeader) <==> !header_of(input@).well_formed()),
{
    if input.len() < 12 {
        return Err(ParseError::Truncated { needed: 12 });
    }
    if !has_identifier(input) {
        return Err(ParseError::MagicMismatch);
    }
    if input.len() < HEADER_BYTES {
        return Err(ParseError::Truncated { needed: 4 });
    }
    let big_endian: bool = input[12] == 0x04;
    let header = Header {
        big_endian,
        gl_type: u32_field(input, 16, big_endian),
        gl_type_size: u32_field(input, 20, big_endian),
        gl_format: u32_field(input, 24, big_endian),
        gl_internal_format: u32_field(input, 28, big_endian),
        gl_base_internal_format: u32_field(input, 32, big_endian),
        pixel_width: u32_field(input, 36, big_endian),
        pixel_height: u32_field(input, 40, big_endian),
        pixel_depth: u32_field(input, 44, big_endian),
        array_elements: u32_field(input, 48, big_endian),
        faces: u32_field(input, 52, big_endian),
        mip_levels: u32_field(input, 56, big_endian),
        key_pair_bytes: u32_field(input, 60, big_endian),
    };
    if !header.is_well_formed() {
        return Err(ParseError::MalformedHeader);
    }
    let pixels = vstd::slice::slice_subrange(input, HEADER_BYTES, input.len());
    let required: usize = required_bytes(&header);
    if pixels.len() < required {
        return Err(ParseError::Truncated { needed: required });
    }
    Ok(KtxData { header, pixels })
}

/// One mip level of a two-dimensional texture: its index, its extents, and
/// the range of the payload that holds its texels.
#[derive(Debug, Clone, Copy, PartialEq, Eq, Structural)]
pub struct MipLevel {
    pub level: u32,
    pub width: u32,
    pub height: u32,
    pub offset: usize,
    pub size: usize,
}

/// The upload of a two-dimensional texture: storage for all levels, then one
/// transfer per level.
#[derive(Debug, Clone, PartialEq, Eq)]
pub struct LevelUpload {
    pub mip_levels: u32,
    pub internal_format: u32,
    pub width: u32,
    pub height: u32,
    pub unpack_alignment: u32,
    pub format: u32,
    pub pixel_type: u32,
    pub levels: Vec<MipLevel>,
}

/// The upload of a texture that is handed over as one image: storage for all
/// levels, then one transfer of `byte_len` bytes from the start of the
/// payload into level 0.
#[derive(Debug, Clone, Copy, PartialEq, Eq, Structural)]
pub struct ImageUpload {
    pub mip_levels: u32,
    pub internal_format: u32,
    pub width: u32,
    pub height: u32,
    pub depth: u32,
    pub unpack_alignment: Option<u32>,
    pub format: u32,
    pub pixel_type: u32,
    pub byte_len: usize,
}

/// How the payload reaches the texture.
#[derive(Debug, Clone, PartialEq, Eq)]
pub enum Transfer {
    /// Level by level.
    Levels(LevelUpload),
    /// As one image.
    Image(ImageUpload),
    /// Not at all: the upload of this kind of texture is not supported.
    NotSupported,
}

/// All that the graphics layer needs in order to create and fill the
/// texture.
#[derive(Debug, Clone, PartialEq, Eq)]
pub struct UploadPlan {
    pub target: Target,
    pub transfer: Transfer,
    /// Whether the lower levels are to be generated from level 0 once the
    /// transfer is done.
    pub generate_mipmap: bool,
}

impl Header {
    /// Mip level `level` of a two-dimensional texture.
    pub open spec fn mip_level(self, level: nat) -> MipLevel {
        MipLevel {
            level: level as u32,
            width: self.level_width(level),
            height: self.level_height(level),
            offset: self.level_offset(level) as usize,
            size: self.level_size(level) as usize,
        }
    }

    /// The upload of a texture that is handed over as one image. The
    /// one-dimensional texture names its internal format as the type of its
    /// components; the others name their component type.
    pub open spec fn image_upload(self) -> ImageUpload {
        ImageUpload {
            mip_levels: self.mip_levels,
            internal_format: self.gl_internal_format,
            width: self.pixel_width,
            height: self.image_height(),
            depth: self.image_depth(),
            unpack_alignment: self.image_alignment(),
            format: self.gl_format,
            pixel_type: if self.target() == Target::Texture1D {
                self.gl_internal_format
            } else {
                self.gl_type
            },
            byte_len: self.image_bytes() as usize,
        }
    }

    /// Whether the upload of the texture is supported.
    pub open spec fn supported(self) -> bool {
        self.target() != Target::CubeMap && self.target() != Target::CubeMapArray
    }
}

impl LevelUpload {
    /// Whether this is the level-by-level upload of the texture that `h`
    /// describes: storage by the header's fields, rows aligned to 1 byte,
    /// and the levels 0 to `mip_levels - 1` in order.
    pub open spec fn describes(self, h: Header) -> bool {
        &&& self.mip_levels == h.mip_levels
        &&& self.internal_format == h.gl_internal_format
        &&& self.width == h.pixel_width
        &&& self.height == h.pixel_height
        &&& self.unpack_alignment == 1
        &&& self.format == h.gl_format
        &&& self.pixel_type == h.gl_type
        &&& self.levels@.len() == h.mip_levels
        &&& forall|l: int| 0 <= l < self.levels@.len() ==> self.levels@[l] == h.mip_level(l as nat)
    }
}

impl UploadPlan {
    /// Whether this is the upload plan of the texture that `h` describes.
    pub open spec fn describes(self, h: Header) -> bool {
        &&& self.target == h.target()
        &&& self.generate_mipmap == (h.supported() && h.mip_levels == 1)
        &&& match h.target() {
            Target::Texture2D => self.transfer matches Transfer::Levels(u) && u.describes(h),
            Target::CubeMap | Target::CubeMapArray => self.transfer is NotSupported,
            _ => self.transfer == Transfer::Image(h.image_upload()),
        }
    }

    /// Whether every range of the payload that the plan names lies within
    /// the first `len` bytes.
    pub open spec fn within(self, len: nat) -> bool {
        match self.transfer {
            Transfer::Levels(u) => forall|l: int|
                0 <= l < u.levels@.len() ==> (#[trigger] u.levels@[l]).offset + u.levels@[l].size
                    <= len,
            Transfer::Image(i) => i.byte_len <= len,
            Transfer::NotSupported => true,
        }
    }
}

/// The sizes of the given levels, added up.
pub open spec fn total_size(levels: Seq<MipLevel>) -> nat
    decreases levels.len(),
{
    if levels.len() == 0 {
        0
    } else {
        total_size(levels.drop_last()) + levels.last().size as nat
    }
}

/// The kind of texture that `ktx_texture` holds.
pub fn determine_target(ktx_texture: &KtxData) -> (t: Target)
    ensures
        t == ktx_texture@.header.target(),
{
    target_of(ktx_texture.header())
}

/// The number of bytes of a row of `width` texels of the texture, rounded up
/// to a multiple of `pad` and capped at `usize::MAX`. A `pad` of 0 or 1 adds
/// nothing.
pub fn calculate_stride(ktx_texture: &KtxData, width: u32, pad: usize) -> (r: usize)
    ensures
        r == capped(ktx_texture@.header.row_bytes(width as nat, pad as nat) as int),
{
    row_stride(ktx_texture.header(), width, pad)
}

/// Whether `found` is the whole-image upload of the texture `ktx_texture`
/// as a texture of kind `target`: the upload that the header gives, within
/// the payload, where the texture is of that kind, and none where it is not.
pub open spec fn image_planned(
    ktx_texture: KtxView,
    target: Target,
    found: Option<ImageUpload>,
) -> bool {
    if ktx_texture.header.target() == target {
        found == Some(ktx_texture.header.image_upload()) && ktx_texture.header.image_upload().byte_len
            <= ktx_texture.pixels.len()
    } else {
        found is None
    }
}

/// The upload of a single row of texels: storage of one extent, and the
/// row handed over as it is stored. The transfer names the internal format
/// as the type of the components. `None` where the texture is not
/// one-dimensional.
pub fn prepare_texture_1d(ktx_texture: &KtxData) -> (found: Option<ImageUpload>)
    ensures
        image_planned(ktx_texture@, Target::Texture1D, found),
        found matches Some(u) ==> u.height == 1 && u.depth == 1 && u.unpack_alignment is None
            && u.pixel_type == ktx_texture@.header.gl_internal_format,
{
    let ktx = ktx_texture.header();
    match target_of(ktx) {
        Target::Texture1D => {},
        _ => {
            return None;
        },
    }
    proof {
        lemma_len_fits(ktx_texture.pixels);
    }
    Some(ImageUpload {
        mip_levels: ktx.mip_levels,
        internal_format: ktx.gl_internal_format,
        width: ktx.pixel_width,
        height: 1,
        depth: 1,
        unpack_alignment: None,
        format: ktx.gl_format,
        pixel_type: ktx.gl_internal_format,
        byte_len: image_bytes_capped(ktx),
    })
}

/// The upload of a two-dimensional texture, level by level: storage by the
/// header's fields, rows aligned to 1 byte, and one transfer for each of the
/// levels that the header counts, from level 0 on. Level `l` has the base
/// width and the base height each halved `l` times and never below 1, and
/// starts in the payload where the level before it ends. `None` where the
/// texture is not two-dimensional.
pub fn prepare_texture_2d(ktx_texture: &KtxData) -> (found: Option<LevelUpload>)
    ensures
        found is Some <==> ktx_texture@.header.target() == Target::Texture2D,
        found matches Some(u) ==> {
            &&& u.describes(ktx_texture@.header)
            &&& u.levels@.len() == ktx_texture@.header.mip_levels
            &&& u.levels@.len() >= 1
            &&& forall|l: int|
                0 <= l < u.levels@.len() ==> {
                    &&& (#[trigger] u.levels@[l]).level == l
                    &&& u.levels@[l].width == level_extent(
                        ktx_texture@.header.pixel_width,
                        l as nat,
                    )
                    &&& u.levels@[l].height == level_extent(
                        ktx_texture@.header.pixel_height,
                        l as nat,
                    )
                    &&& u.levels@[l].offset == total_size(u.levels@.take(l))
                    &&& u.levels@[l].size == ktx_texture@.header.level_size(l as nat)
                    &&& u.levels@[l].offset + u.levels@[l].size <= ktx_texture@.pixels.len()
                }
            &&& total_size(u.levels@) == ktx_texture@.header.required_payload()
            &&& total_size(u.levels@) <= ktx_texture@.pixels.len()
        },
{
    let ktx = ktx_texture.header();
    match target_of(ktx) {
        Target::Texture2D => {},
        _ => {
            return None;
        },
    }
    let ghost len = ktx_texture@.pixels.len();
    proof {
        lemma_len_fits(ktx_texture.pixels);
    }
    let mut levels: Vec<MipLevel> = Vec::new();
    let mut offset: usize = 0;
    let mut level: u32 = 0;
    while level < ktx.mip_levels
        invariant
            level <= ktx.mip_levels,
            ktx.level_offset(ktx.mip_levels as nat) <= len <= usize::MAX,
            offset == ktx.level_offset(level as nat),
            levels@.len() == level,
            forall|l: int| 0 <= l < level ==> levels@[l] == ktx.mip_level(l as nat),
            forall|l: int|
                0 <= l < level ==> (#[trigger] levels@[l]).offset + levels@[l].size <= len,
        decreases ktx.mip_levels - level,
    {
        let width: u32 = mip_extent(ktx.pixel_width, level);
        let height: u32 = mip_extent(ktx.pixel_height, level);
        let size: usize = level_size_capped(ktx, level);
        proof {
            lemma_level_offset_monotonic(*ktx, (level + 1) as nat, ktx.mip_levels as nat);
            assert(ktx.level_offset((level + 1) as nat) == ktx.level_offset(level as nat)
                + ktx.level_size(level as nat));
        }
        levels.push(MipLevel { level, width, height, offset, size });
        offset = offset + size;
        level = level + 1;
    }
    proof {
        let all = levels@;
        assert forall|l: int| 0 <= l < all.len() implies {
            &&& (#[trigger] all[l]).level == l
            &&& all[l].offset == total_size(all.take(l))
            &&& all[l].size == ktx.level_size(l as nat)
        } by {
            lemma_total_size(*ktx, all, l as nat);
            lemma_level_offset_monotonic(*ktx, l as nat, all.len());
            lemma_level_offset_monotonic(*ktx, (l + 1) as nat, all.len());
        }
        lemma_total_size(*ktx, all, all.len());
        assert(all.take(all.len() as int) =~= all);
    }
    Some(
        LevelUpload {
            mip_levels: ktx.mip_levels,
            internal_format: ktx.gl_internal_format,
            width: ktx.pixel_width,
            height: ktx.pixel_height,
            unpack_alignment: 1,
            format: ktx.gl_format,
            pixel_type: ktx.gl_type,
            levels,
        },
    )
}

/// The upload of a volume: storage of three extents, and all layers handed
/// over as they are stored. `None` where the texture is no volume.
pub fn prepare_texture_3d(ktx_texture: &KtxData) -> (found: Option<ImageUpload>)
    ensures
        image_planned(ktx_texture@, Target::Texture3D, found),
        found matches Some(u) ==> u.height == ktx_texture@.header.pixel_height && u.depth
            == ktx_texture@.header.pixel_depth && u.unpack_alignment is None,
{
    let ktx = ktx_texture.header();
    match target_of(ktx) {
        Target::Texture3D => {},
        _ => {
            return None;
        },
    }
    proof {
        lemma_len_fits(ktx_texture.pixels);
    }
    Some(ImageUpload {
        mip_levels: ktx.mip_levels,
        internal_format: ktx.gl_internal_format,
        width: ktx.pixel_width,
        height: ktx.pixel_height,
        depth: ktx.pixel_depth,
        unpack_alignment: None,
        format: ktx.gl_format,
        pixel_type: ktx.gl_type,
        byte_len: image_bytes_capped(ktx),
    })
}

/// The upload of an array of rows: storage of two extents, of which the
/// array length is the second, and all rows handed over as they are stored.
/// `None` where the texture is no array of rows.
pub fn prepare_texture_1d_array(ktx_texture: &KtxData) -> (found: Option<ImageUpload>)
    ensures
        image_planned(ktx_texture@, Target::Texture1DArray, found),
        found matches Some(u) ==> u.height == ktx_texture@.header.array_elements && u.depth == 1
            && u.unpack_alignment is None,
{
    let ktx = ktx_texture.header();
    match target_of(ktx) {
        Target::Texture1DArray => {},
        _ => {
            return None;
        },
    }
    proof {
        lemma_len_fits(ktx_texture.pixels);
    }
    Some(ImageUpload {
        mip_levels: ktx.mip_levels,
        internal_format: ktx.gl_internal_format,
        width: ktx.pixel_width,
        height: ktx.array_elements,
        depth: 1,
        unpack_alignment: None,
        format: ktx.gl_format,
        pixel_type: ktx.gl_type,
        byte_len: image_bytes_capped(ktx),
    })
}

/// The upload of an array of two-dimensional images: rows aligned to 4
/// bytes, storage of three extents, of which the array length is the third,
/// and all images handed over as they are stored. `None` where the texture
/// is no array of images.
pub fn prepare_texture_2d_array(ktx_texture: &KtxData) -> (found: Option<ImageUpload>)
    ensures
        image_planned(ktx_texture@, Target::Texture2DArray, found),
        found matches Some(u) ==> u.height == ktx_texture@.header.pixel_height && u.depth
            == ktx_texture@.header.array_elements && u.unpack_alignment == Some(4u32),
{
    let ktx = ktx_texture.header();
    match target_of(ktx) {
        Target::Texture2DArray => {},
        _ => {
            return None;
        },
    }
    proof {
        lemma_len_fits(ktx_texture.pixels);
    }
    Some(ImageUpload {
        mip_levels: ktx.mip_levels,
        internal_format: ktx.gl_internal_format,
        width: ktx.pixel_width,
        height: ktx.pixel_height,
        depth: ktx.array_elements,
        unpack_alignment: Some(4),
        format: ktx.gl_format,
        pixel_type: ktx.gl_type,
        byte_len: image_bytes_capped(ktx),
    })
}

/// The upload of a cube map, which is not supported.
pub fn prepare_texture_cube_map(_ktx_texture: &KtxData) -> (t: Transfer)
    ensures
        t is NotSupported,
{
    Transfer::NotSupported
}

/// The upload of an array of cube maps, which is not supported.
pub fn prepare_texture_cube_map_array(_ktx_texture: &KtxData) -> (t: Transfer)
    ensures
        t is NotSupported,
{
    Transfer::NotSupported
}

/// The transfer of a whole image, where there is one.
fn image_transfer(found: Option<ImageUpload>) -> (t: Transfer)
    ensures
        match found {
            Some(upload) => t == Transfer::Image(upload),
            None => t is NotSupported,
        },
{
    match found {
        Some(upload) => Transfer::Image(upload),
        None => Transfer::NotSupported,
    }
}

/// Plans the upload of a decoded texture.
///
/// The plan names the target, the storage to allocate, and the ranges of the
/// payload to transfer: one range per mip level for a two-dimensional
/// texture, one range for a texture handed over as one image. A texture with
/// a single level has its lower levels generated. Cube maps end in
/// [`Transfer::NotSupported`]. The plan of a two-dimensional texture holds
/// one entry for every level that the header counts, however many those
/// are.
pub fn prepare_texture(ktx_texture: &KtxData) -> (plan: UploadPlan)
    ensures
        plan.describes(ktx_texture@.header),
        plan.within(ktx_texture@.pixels.len()),
{
    let target = determine_target(ktx_texture);
    let transfer = match target {
        Target::Texture1D => image_transfer(prepare_texture_1d(ktx_texture)),
        Target::Texture1DArray => image_transfer(prepare_texture_1d_array(ktx_texture)),
        Target::Texture2D => match prepare_texture_2d(ktx_texture) {
            Some(upload) => Transfer::Levels(upload),
            None => Transfer::NotSupported,
        },
        Target::Texture2DArray => image_transfer(prepare_texture_2d_array(ktx_texture)),
        Target::Texture3D => image_transfer(prepare_texture_3d(ktx_texture)),
        Target::CubeMap => prepare_texture_cube_map(ktx_texture),
        Target::CubeMapArray => prepare_texture_cube_map_array(ktx_texture),
    };
    let generate_mipmap: bool = match transfer {
        Transfer::NotSupported => false,
        _ => ktx_texture.header().mip_levels == 1,
    };
    UploadPlan { target, transfer, generate_mipmap }
}

/// Whether two plans say the same: the same target, the same transfer, level
/// for level, and the same word on generating the lower levels.
pub open spec fn same_plan(a: UploadPlan, b: UploadPlan) -> bool {
    &&& a.target == b.target
    &&& a.generate_mipmap == b.generate_mipmap
    &&& match (a.transfer, b.transfer) {
        (Transfer::Levels(x), Transfer::Levels(y)) => {
            &&& x.mip_levels == y.mip_levels
            &&& x.internal_format == y.internal_format
            &&& x.width == y.width
            &&& x.height == y.height
            &&& x.unpack_alignment == y.unpack_alignment
            &&& x.format == y.format
            &&& x.pixel_type == y.pixel_type
            &&& x.levels@ == y.levels@
        },
        (Transfer::Image(x), Transfer::Image(y)) => x == y,
        (Transfer::NotSupported, Transfer::NotSupported) => true,
        _ => false,
    }
}

/// The level-by-level upload is a function of the header alone: two uploads
/// of one header agree in every field and level for level, whatever the
/// payload holds and whatever was planned before.
pub proof fn lemma_levels_of_header(h: Header, first: LevelUpload, second: LevelUpload)
    requires
        first.describes(h),
        second.describes(h),
    ensures
        first.levels@ == second.levels@,
        first.mip_levels == second.mip_levels,
        first.internal_format == second.internal_format,
        first.width == second.width,
        first.height == second.height,
        first.unpack_alignment == second.unpack_alignment,
        first.format == second.format,
        first.pixel_type == second.pixel_type,
{
    assert(first.levels@ =~= second.levels@);
}

/// Decoding is a function of the bytes: two decodings of one input end
/// alike, with equal headers and equal payloads or with the same failure,
/// and the plans of the two textures say the same.
pub proof fn lemma_decode_twice(
    input: Seq<u8>,
    first: Result<KtxData, ParseError>,
    second: Result<KtxData, ParseError>,
    first_plan: UploadPlan,
    second_plan: UploadPlan,
)
    requires
        decodes_to(input, first),
        decodes_to(input, second),
        first matches Ok(k) ==> first_plan.describes(k@.header),
        second matches Ok(k) ==> second_plan.describes(k@.header),
    ensures
        first is Ok <==> second is Ok,
        first matches Err(e) ==> second == Err::<KtxData, ParseError>(e),
        first matches Ok(a) ==> second matches Ok(b) && a@ == b@ && same_plan(
            first_plan,
            second_plan,
        ),
{
    if let Ok(a) = first {
        let b = second->Ok_0;
        let h = a@.header;
        if h.target() == Target::Texture2D {
            lemma_levels_of_header(
                h,
                first_plan.transfer->Levels_0,
                second_plan.transfer->Levels_0,
            );
        }
    }
}

/// The sizes of the first `n` levels of a plan add up to the offset of
/// level `n`.
proof fn lemma_total_size(h: Header, levels: Seq<MipLevel>, n: nat)
    requires
        n <= levels.len(),
        h.level_offset(levels.len()) <= usize::MAX,
        forall|l: int| 0 <= l < levels.len() ==> levels[l] == h.mip_level(l as nat),
    ensures
        total_size(levels.take(n as int)) == h.level_offset(n),
    decreases n,
{
    if n > 0 {
        let before: nat = (n - 1) as nat;
        lemma_total_size(h, levels, before);
        lemma_level_offset_monotonic(h, n, levels.len());
        assert(levels.take(n as int).drop_last() =~= levels.take(before as int));
        assert(levels.take(n as int).last() == h.mip_level(before));
    }
}

/// The plan of a two-dimensional texture walks the payload from end to end:
/// it has one entry for each of the header's mip levels, level `l` has the
/// base extents halved `l` times and never below 1, every level starts where
/// the one before it ends, and in a container that holds no byte beyond
/// those that the upload reads the sizes of all levels add up to the length
/// of the payload.
pub proof fn lemma_levels_fill_payload(input: Seq<u8>, upload: LevelUpload)
    requires
        input.len() <= usize::MAX,
        exact_stream(input),
        header_of(input).target() == Target::Texture2D,
        upload.describes(header_of(input)),
    ensures
        upload.levels@.len() == header_of(input).mip_levels,
        forall|l: int|
            0 <= l < upload.levels@.len() ==> {
                &&& (#[trigger] upload.levels@[l]).level == l
                &&& upload.levels@[l].width == level_extent(header_of(input).pixel_width, l as nat)
                &&& upload.levels@[l].height == level_extent(
                    header_of(input).pixel_height,
                    l as nat,
                )
                &&& upload.levels@[l].offset == total_size(upload.levels@.take(l))
            },
        total_size(upload.levels@) == input.len() - 64,
{
    let h = header_of(input);
    let levels = upload.levels@;
    assert forall|l: int| 0 <= l < levels.len() implies {
        &&& (#[trigger] levels[l]).level == l
        &&& levels[l].width == level_extent(h.pixel_width, l as nat)
        &&& levels[l].height == level_extent(h.pixel_height, l as nat)
        &&& levels[l].offset == total_size(levels.take(l))
    } by {
        lemma_total_size(h, levels, l as nat);
        lemma_level_offset_monotonic(h, l as nat, levels.len());
    }
    lemma_total_size(h, levels, levels.len());
    assert(levels.take(levels.len() as int) =~= levels);
}

/// A container cut short is refused as truncated: of a container that holds
/// no byte beyond those that its upload reads, every proper prefix fails
/// with [`ParseError::Truncated`].
pub proof fn lemma_prefix_is_truncated(input: Seq<u8>, cut: int)
    requires
        exact_stream(input),
        0 <= cut < input.len(),
    ensures
        decode_outcome(input.take(cut)) is Err,
        decode_outcome(input.take(cut))->Err_0 is Truncated,
{
    let prefix = input.take(cut);
    if cut >= 12 {
        assert(prefix.subrange(0, 12) =~= input.subrange(0, 12));
    }
    if cut >= 64 {
        lemma_header_of_prefix(input, cut);
    }
}

/// The header is a function of the first 64 bytes.
proof fn lemma_header_of_prefix(input: Seq<u8>, cut: int)
    requires
        64 <= cut <= input.len(),
    ensures
        header_of(input.take(cut)) == header_of(input),
{
}

/// The identifier alone decides on a mismatch: an input of twelve bytes or
/// more fails with [`ParseError::MagicMismatch`] exactly if its first twelve
/// bytes are not the identifier, and a shorter one never does.
pub proof fn lemma_mismatch_is_of_identifier(input: Seq<u8>)
    ensures
        decode_outcome(input) == Err::<Header, ParseError>(ParseError::MagicMismatch) <==> input.len()
            >= 12 && input.subrange(0, 12) != ktx_identifier(),
{
}

/// A container whose first byte is changed is refused for its identifier:
/// where `input` decodes and `byte` is not its first byte, `input` with
/// `byte` in the first place fails with [`ParseError::MagicMismatch`].
pub proof fn lemma_first_byte_changed(input: Seq<u8>, byte: u8)
    requires
        decode_outcome(input) is Ok,
        byte != input[0],
    ensures
        decode_outcome(input.update(0, byte)) == Err::<Header, ParseError>(
            ParseError::MagicMismatch,
        ),
{
    let changed = input.update(0, byte);
    assert(input.subrange(0, 12)[0] == ktx_identifier()[0]);
    assert(changed.subrange(0, 12)[0] == byte);
}

} // verus!
