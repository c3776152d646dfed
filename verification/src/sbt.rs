//! The shader binding table of the ray tracing pipeline: how shader group
//! handles are aligned and laid out, one region per group kind.
use vstd::prelude::*;

verus! {

/// `value` rounded up with the usual mask trick for `alignment`: add
/// `alignment - 1`, then clear the bits below the alignment.
pub open spec fn mask_align(value: u64, alignment: u64) -> u64 {
    ((value + alignment - 1) as u64) & !((alignment - 1) as u64)
}

/// Rounds `value` up to `alignment` by the mask trick: the result keeps
/// none of the bits below the alignment (for a power-of-two alignment: it is
/// a multiple of it), is not below `value`, and is less than one alignment
/// above it.
pub fn align_up(value: u64, alignment: u64) -> (r: u64)
    requires
        alignment >= 1,
        value + alignment - 1 <= u64::MAX,
    ensures
        r == mask_align(value, alignment),
        r & ((alignment - 1) as u64) == 0,
        value <= r < value + alignment,
{
    let am1: u64 = alignment - 1;
    let sum: u64 = value + am1;
    let r = sum & !am1;
    assert(r & am1 == 0 && r <= sum && sum - r <= am1) by (bit_vector)
        requires
            r == sum & !am1,
    ;
    r
}

/// A strided region of the shader binding table.
#[derive(Clone, Copy, Debug, PartialEq, Eq, Structural)]
pub struct SbtRegion {
    pub device_address: u64,
    pub stride: u64,
    pub size: u64,
}

/// Where the ray generation, miss, hit and callable groups live in the
/// shader binding table.
#[derive(Clone, Copy, Debug, PartialEq, Eq, Structural)]
pub struct SbtLayout {
    /// A group handle's size rounded up to the handle alignment.
    pub handle_stride: u64,
    /// A region's size: the handle stride rounded up to the base alignment.
    pub region_size: u64,
    /// The size of the whole table: room for four regions.
    pub buffer_size: u64,
    pub raygen: SbtRegion,
    pub miss: SbtRegion,
    pub hit: SbtRegion,
    /// No callable shaders: an empty region.
    pub callable: SbtRegion,
}

/// Shader groups in the table: ray generation, miss and closest hit.
pub const SBT_GROUP_COUNT: u64 = 3;

/// The layout of a shader binding table at `address` for handles of
/// `handle_size` bytes, aligned to `handle_alignment`, with regions aligned
/// to `base_alignment`: one region per group, in the order ray generation,
/// miss, hit, each one region size apart.
pub fn sbt_layout(handle_size: u32, handle_alignment: u32, base_alignment: u32, address: u64) -> (r: SbtLayout)
    requires
        handle_alignment >= 1,
        base_alignment >= 1,
        handle_size + handle_alignment - 1 <= u32::MAX,
        address + 2 * mask_align(mask_align(handle_size as u64, handle_alignment as u64), base_alignment as u64)
            <= u64::MAX,
    ensures
        r.handle_stride == mask_align(handle_size as u64, handle_alignment as u64),
        r.region_size == mask_align(r.handle_stride, base_alignment as u64),
        r.buffer_size == 4 * r.region_size,
        r.raygen == (SbtRegion { device_address: address, stride: r.handle_stride, size: r.region_size }),
        r.miss == (SbtRegion { device_address: (address + r.region_size) as u64, stride: r.handle_stride, size: r.region_size }),
        r.hit == (SbtRegion { device_address: (address + 2 * r.region_size) as u64, stride: r.handle_stride, size: r.region_size }),
        r.callable == (SbtRegion { device_address: 0, stride: 0, size: 0 }),
        handle_size <= r.handle_stride <= r.region_size,
        r.handle_stride & ((handle_alignment - 1) as u64) == 0,
        r.region_size & ((base_alignment - 1) as u64) == 0,
{
    let stride = align_up(handle_size as u64, handle_alignment as u64);
    let region = align_up(stride, base_alignment as u64);
    SbtLayout {
        handle_stride: stride,
        region_size: region,
        buffer_size: 4 * region,
        raygen: SbtRegion { device_address: address, stride, size: region },
        miss: SbtRegion { device_address: address + region, stride, size: region },
        hit: SbtRegion { device_address: address + 2 * region, stride, size: region },
        callable: SbtRegion { device_address: 0, stride: 0, size: 0 },
    }
}

/// One copy of a shader group handle into the table.
#[derive(Clone, Copy, Debug, PartialEq, Eq, Structural)]
pub struct HandleCopy {
    /// Where the handle starts in the handles the driver returned.
    pub src_offset: u64,
    /// Where it goes in the table.
    pub dst_offset: u64,
    pub len: u64,
}

/// The copies that fill the table: the handle of group `i` (packed
/// `handle_size` bytes apart as the driver returns them) goes to the start
/// of region `i`. When a handle fits in a region, each copy stays inside its
/// own region.
pub fn sbt_handle_copies(handle_size: u32, region_size: u64) -> (r: Vec<HandleCopy>)
    requires
        SBT_GROUP_COUNT * region_size <= u64::MAX,
    ensures
        r.len() == SBT_GROUP_COUNT,
        forall|i: int|
            0 <= i < r.len() ==> #[trigger] r[i] == (HandleCopy {
                src_offset: (i * handle_size) as u64,
                dst_offset: (i * region_size) as u64,
                len: handle_size as u64,
            }),
        handle_size <= region_size ==> forall|i: int|
            0 <= i < r.len() ==> i * region_size <= (#[trigger] r[i]).dst_offset && r[i].dst_offset + r[i].len
                <= (i + 1) * region_size,
{
    let mut r: Vec<HandleCopy> = Vec::new();
    let mut i: u64 = 0;
    while i < SBT_GROUP_COUNT
        invariant
            i <= SBT_GROUP_COUNT,
            SBT_GROUP_COUNT * region_size <= u64::MAX,
            r.len() == i,
            forall|k: int|
                0 <= k < r.len() ==> #[trigger] r[k] == (HandleCopy {
                    src_offset: (k * handle_size) as u64,
                    dst_offset: (k * region_size) as u64,
                    len: handle_size as u64,
                }),
        decreases SBT_GROUP_COUNT - i,
    {
        assert(i * region_size <= SBT_GROUP_COUNT * region_size) by (nonlinear_arith)
            requires
                i < SBT_GROUP_COUNT,
        ;
        assert(i * handle_size <= SBT_GROUP_COUNT * 0xffff_ffff) by (nonlinear_arith)
            requires
                i < SBT_GROUP_COUNT,
                handle_size <= 0xffff_ffff,
        ;
        r.push(HandleCopy { src_offset: i * handle_size as u64, dst_offset: i * region_size, len: handle_size as u64 });
        i = i + 1;
    }
    proof {
        if handle_size <= region_size {
            assert forall|k: int| 0 <= k < r.len() implies k * region_size <= (#[trigger] r[k]).dst_offset
                && r[k].dst_offset + r[k].len <= (k + 1) * region_size by {
                assert(k * region_size <= SBT_GROUP_COUNT * region_size) by (nonlinear_arith)
                    requires
                        0 <= k < SBT_GROUP_COUNT,
                ;
                assert((k + 1) * region_size == k * region_size + region_size) by (nonlinear_arith);
            }
        }
    }
    r
}

} // verus!
