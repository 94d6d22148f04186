//! The OpenGL enumerants that the decoders interpret or hand out.

use vstd::prelude::*;

verus! {

pub const RED: u32 = 0x1903;

pub const RG: u32 = 0x8227;

pub const RGB: u32 = 0x1907;

pub const BGR: u32 = 0x80E0;

pub const RGBA: u32 = 0x1908;

pub const BGRA: u32 = 0x80E1;

pub const TEXTURE_1D: u32 = 0x0DE0;

pub const TEXTURE_2D: u32 = 0x0DE1;

pub const TEXTURE_3D: u32 = 0x806F;

pub const TEXTURE_1D_ARRAY: u32 = 0x8C18;

pub const TEXTURE_2D_ARRAY: u32 = 0x8C1A;

pub const TEXTURE_CUBE_MAP: u32 = 0x8513;

pub const TEXTURE_CUBE_MAP_ARRAY: u32 = 0x9009;

pub const TRIANGLES: u32 = 0x0004;

} // verus!
