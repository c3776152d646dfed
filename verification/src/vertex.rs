//! The packed vertex layout: how normals, texture coordinates and colors
//! are packed into 32-bit words, and the vertex input the pipelines read.
use vstd::prelude::*;

use crate::vulkan;

verus! {

/// Bytes of one vertex: a position of three floats and a pad, then the
/// packed normal, texture coordinate, color and tangent.
pub const VERTEX_STRIDE: u32 = 32;

/// Packs three 10-bit unsigned normalized components into one word, `x` in
/// the low bits; the top two bits stay 0.
pub fn pack_unorm_10_10_10(x: u32, y: u32, z: u32) -> (r: u32)
    requires
        x < 1024,
        y < 1024,
        z < 1024,
    ensures
        r == x + y * 1024 + z * 1048576,
        r & 0x3ff == x,
        (r >> 10) & 0x3ff == y,
        (r >> 20) & 0x3ff == z,
        r >> 30 == 0,
{
    let r = x | (y << 10) | (z << 20);
    assert(r == x + y * 1024 + z * 1048576 && r & 0x3ff == x && (r >> 10) & 0x3ff == y && (r >> 20)
        & 0x3ff == z && r >> 30 == 0) by (bit_vector)
        requires
            x < 1024,
            y < 1024,
            z < 1024,
            r == x | (y << 10) | (z << 20),
    ;
    r
}

/// Packs two 16-bit unsigned normalized texture coordinates into one word,
/// keeping the low 16 bits of each, `u` in the low half.
pub fn pack_unorm_16_16(u: u32, v: u32) -> (r: u32)
    ensures
        r == u % 65536 + (v % 65536) * 65536,
        r & 0xffff == u % 65536,
        r >> 16 == v % 65536,
{
    let r = (u & 0xffff) | ((v & 0xffff) << 16);
    assert(r == u % 65536 + (v % 65536) * 65536 && r & 0xffff == u % 65536 && r >> 16 == v % 65536)
        by (bit_vector)
        requires
            r == (u & 0xffff) | ((v & 0xffff) << 16),
    ;
    r
}

/// Packs an opaque 8-bit color into one word: red in the low byte, then
/// green and blue, keeping the low 8 bits of each, and an alpha of 255.
pub fn pack_rgba8_opaque(red: u32, green: u32, blue: u32) -> (r: u32)
    ensures
        r == red % 256 + (green % 256) * 256 + (blue % 256) * 65536 + 255 * 16777216,
        r & 0xff == red % 256,
        (r >> 8) & 0xff == green % 256,
        (r >> 16) & 0xff == blue % 256,
        r >> 24 == 255,
{
    let r = (red & 0xff) | ((green & 0xff) << 8) | ((blue & 0xff) << 16) | (255u32 << 24);
    assert(r == red % 256 + (green % 256) * 256 + (blue % 256) * 65536 + 255 * 16777216 && r & 0xff == red
        % 256 && (r >> 8) & 0xff == green % 256 && (r >> 16) & 0xff == blue % 256 && r >> 24 == 255)
        by (bit_vector)
        requires
            r == (red & 0xff) | ((green & 0xff) << 8) | ((blue & 0xff) << 16) | (255u32 << 24),
    ;
    r
}

/// One attribute of the vertex input.
#[derive(Clone, Copy, Debug, PartialEq, Eq, Structural)]
pub struct VertexAttribute {
    pub location: u32,
    pub binding: u32,
    /// The raw `VkFormat`.
    pub format: i32,
    pub offset: u32,
}

/// The vertex attributes, all from binding 0: position (three floats at
/// 0), normal (10-10-10-2 at 16), texture coordinate (16-16 at 20), color
/// (8-8-8-8 at 24) and tangent (10-10-10-2 at 28).
pub fn vertex_attributes() -> (r: Vec<VertexAttribute>)
    ensures
        r@ == seq![
            VertexAttribute { location: 0, binding: 0, format: vulkan::FORMAT_R32G32B32_SFLOAT, offset: 0 },
            VertexAttribute { location: 1, binding: 0, format: vulkan::FORMAT_A2B10G10R10_UNORM_PACK32, offset: 16 },
            VertexAttribute { location: 2, binding: 0, format: vulkan::FORMAT_R16G16_UNORM, offset: 20 },
            VertexAttribute { location: 3, binding: 0, format: vulkan::FORMAT_R8G8B8A8_UNORM, offset: 24 },
            VertexAttribute { location: 4, binding: 0, format: vulkan::FORMAT_A2B10G10R10_UNORM_PACK32, offset: 28 },
        ],
{
    let mut r: Vec<VertexAttribute> = Vec::new();
    r.push(VertexAttribute { location: 0, binding: 0, format: vulkan::FORMAT_R32G32B32_SFLOAT, offset: 0 });
    r.push(VertexAttribute { location: 1, binding: 0, format: vulkan::FORMAT_A2B10G10R10_UNORM_PACK32, offset: 16 });
    r.push(VertexAttribute { location: 2, binding: 0, format: vulkan::FORMAT_R16G16_UNORM, offset: 20 });
    r.push(VertexAttribute { location: 3, binding: 0, format: vulkan::FORMAT_R8G8B8A8_UNORM, offset: 24 });
    r.push(VertexAttribute { location: 4, binding: 0, format: vulkan::FORMAT_A2B10G10R10_UNORM_PACK32, offset: 28 });
    r
}

} // verus!
