//! Per-frame resources: image layout tracking, buffer capacities, the
//! instance-buffer pool and the draw commands written for meshes.
use vstd::prelude::*;
use std::collections::HashMap;

use crate::names::str_eq;
use crate::vulkan;
use vstd::arithmetic::power2::pow2;
use vstd::arithmetic::power2::lemma_pow2_unfold;
use vstd::arithmetic::power2::lemma_pow2_strictly_increases;
use vstd::arithmetic::power2::lemma2_to64;
use vstd::arithmetic::power2::lemma2_to64_rest;

verus! {

broadcast use vstd::std_specs::hash::group_hash_axioms;

/// Number of frames the renderer keeps in flight at once.
pub const MAX_FRAMES_IN_FLIGHT: usize = 2;

/// The slice of the light-index list that one cluster owns.
#[derive(Debug, Clone, Copy, PartialEq, Eq, Structural)]
pub struct LightGrid {
    pub offset: u32,
    pub count: u32,
}

/// A pipeline barrier that moves one image from its tracked layout to a new one.
#[derive(Debug, Clone, Copy, PartialEq, Eq, Structural)]
pub struct ImageBarrier {
    pub image: u64,
    pub old_layout: i32,
    pub new_layout: i32,
    pub src_access: u32,
    pub dst_access: u32,
    pub src_stage: u32,
    pub dst_stage: u32,
    pub aspect: u32,
}

/// The layout an image is tracked in: the last one it was moved to, or
/// undefined for an image never moved.
pub open spec fn tracked_layout(m: Map<u64, i32>, image: u64) -> i32 {
    if m.contains_key(image) {
        m[image]
    } else {
        vulkan::LAYOUT_UNDEFINED
    }
}

/// Moving `image` to `layout` needs a barrier: it is tracked in another layout.
pub open spec fn needs_barrier(m: Map<u64, i32>, image: u64, layout: i32) -> bool {
    tracked_layout(m, image) != layout
}

/// The tracked layouts after moving `image` to `layout`.
pub open spec fn after_transition(m: Map<u64, i32>, image: u64, layout: i32) -> Map<u64, i32> {
    if needs_barrier(m, image, layout) {
        m.insert(image, layout)
    } else {
        m
    }
}

/// Tracks the layout of every image that render-graph passes move between layouts.
pub struct ResourceTracker {
    pub image_layouts: HashMap<u64, i32>,
}

impl ResourceTracker {
    /// A tracker that knows of no image.
    pub fn new() -> (r: Self)
        ensures
            r.image_layouts@ == Map::<u64, i32>::empty(),
    {
        ResourceTracker { image_layouts: HashMap::new() }
    }

    /// Moves `image` to `new_layout`. When the image is tracked in another
    /// layout (undefined if never moved), returns the barrier to record, from
    /// the tracked layout, and tracks the new layout; otherwise returns no
    /// barrier and changes nothing.
    pub fn transition_image(
        &mut self,
        image: u64,
        new_layout: i32,
        src_access: u32,
        dst_access: u32,
        src_stage: u32,
        dst_stage: u32,
        aspect_mask: u32,
    ) -> (r: Option<ImageBarrier>)
        ensures
            final(self).image_layouts@ == after_transition(old(self).image_layouts@, image, new_layout),
            r == if needs_barrier(old(self).image_layouts@, image, new_layout) {
                Some(
                    ImageBarrier {
                        image,
                        old_layout: tracked_layout(old(self).image_layouts@, image),
                        new_layout,
                        src_access,
                        dst_access,
                        src_stage,
                        dst_stage,
                        aspect: aspect_mask,
                    },
                )
            } else {
                None
            },
    {
        let old_layout = match self.image_layouts.get(&image) {
            Some(l) => *l,
            None => vulkan::LAYOUT_UNDEFINED,
        };
        if old_layout == new_layout {
            return None;
        }
        self.image_layouts.insert(image, new_layout);
        Some(
            ImageBarrier {
                image,
                old_layout,
                new_layout,
                src_access,
                dst_access,
                src_stage,
                dst_stage,
                aspect: aspect_mask,
            },
        )
    }
}

/// After a move to `layout`, the image is tracked in `layout`, so a second
/// move to the same layout records no barrier; no other image's tracked
/// layout changes.
pub proof fn lemma_transition_settles(m: Map<u64, i32>, image: u64, layout: i32, other: u64)
    ensures
        tracked_layout(after_transition(m, image, layout), image) == layout,
        !needs_barrier(after_transition(m, image, layout), image, layout),
        after_transition(after_transition(m, image, layout), image, layout) == after_transition(
            m,
            image,
            layout,
        ),
        other != image ==> tracked_layout(after_transition(m, image, layout), other) == tracked_layout(
            m,
            other,
        ),
{
}

/// A buffer of `current` bytes (none when `current` is `None`) is too small
/// for `required` bytes and must be replaced.
pub open spec fn must_replace(current: Option<u64>, required: u64) -> bool {
    match current {
        Some(size) => size < required,
        None => true,
    }
}

/// A buffer is kept exactly when there is one and it holds at least the
/// bytes required; a missing buffer, or one smaller than required, whatever
/// its size, is replaced.
pub proof fn lemma_replace_only_too_small(current: Option<u64>, required: u64)
    ensures
        !must_replace(current, required) <==> (current matches Some(size) && size >= required),
{
}

/// Whether a buffer of `current` bytes (`None`: no buffer yet) must be
/// replaced to hold `required` bytes.
pub fn needs_new_buffer(current: Option<u64>, required: u64) -> (r: bool)
    ensures
        r == must_replace(current, required),
        !r ==> (current matches Some(size) && size >= required),
        r ==> current is None || current.unwrap() < required,
{
    match current {
        Some(size) => size < required,
        None => true,
    }
}

/// The smallest size a grown indirect or object buffer gets.
pub const MIN_DRAW_BUFFER_SIZE: u64 = 1024;

/// The smallest size a texture staging buffer gets.
pub const MIN_STAGING_BUFFER_SIZE: u64 = 1048576;

/// The size of the draw-count buffer.
pub const DRAW_COUNT_BUFFER_SIZE: u64 = 4;

/// The size to create a buffer with that must hold `required` bytes and is
/// never smaller than `minimum`.
pub fn grown_size(required: u64, minimum: u64) -> (r: u64)
    ensures
        r == if required >= minimum {
            required
        } else {
            minimum
        },
        r >= required,
        r >= minimum,
{
    if required >= minimum {
        required
    } else {
        minimum
    }
}

/// `p` is a power of two.
pub open spec fn is_power_of_two(p: nat) -> bool {
    exists|e: nat| p == pow2(e)
}

/// `p` is the smallest power of two that is at least `n`.
pub open spec fn is_next_power_of_two(n: nat, p: nat) -> bool {
    &&& is_power_of_two(p)
    &&& p >= n
    &&& (p == 1 || p / 2 < n)
}

/// The smallest power of two that is at least `n` (1 for 0).
pub fn next_power_of_two(n: u64) -> (r: u64)
    requires
        n <= 0x8000_0000_0000_0000,
    ensures
        is_next_power_of_two(n as nat, r as nat),
{
    let mut p: u64 = 1;
    let ghost mut e: nat = 0;
    proof {
        lemma2_to64();
        lemma2_to64_rest();
    }
    while p < n
        invariant
            n <= 0x8000_0000_0000_0000,
            p == pow2(e),
            e <= 63,
            p == 1 || p / 2 < n,
            pow2(63) == 0x8000_0000_0000_0000,
        decreases 64 - e,
    {
        proof {
            if e >= 63 {
                if e > 63 {
                    lemma_pow2_strictly_increases(63, e);
                }
                assert(false);
            }
            lemma_pow2_unfold(e + 1);
            if e < 62 {
                lemma_pow2_strictly_increases(e + 1, 63);
            }
        }
        p = p * 2;
        proof {
            e = e + 1;
        }
    }
    assert(is_power_of_two(p as nat));
    p
}

/// The smallest number of vertices or of indices a UI buffer is made for.
pub const MIN_UI_BUFFER_ELEMENTS: u64 = 1024;

/// The capacity, in elements, of a new UI vertex or index buffer that must
/// hold `needed` elements, or `None` when the current one (if `allocated`,
/// with `capacity` elements) is big enough: the next power of two of
/// `needed`, and never under the minimum.
pub fn ui_buffer_capacity(allocated: bool, capacity: u64, needed: u64) -> (r: Option<u64>)
    requires
        needed <= 0x8000_0000_0000_0000,
    ensures
        r is None <==> (allocated && capacity >= needed),
        r matches Some(c) ==> if needed <= MIN_UI_BUFFER_ELEMENTS {
            c == MIN_UI_BUFFER_ELEMENTS
        } else {
            is_next_power_of_two(needed as nat, c as nat)
        },
{
    if allocated && capacity >= needed {
        None
    } else {
        let p = next_power_of_two(needed);
        proof {
            if needed <= MIN_UI_BUFFER_ELEMENTS && p > MIN_UI_BUFFER_ELEMENTS {
                let e = choose|e: nat| p == pow2(e);
                lemma2_to64();
                if e <= 10 {
                    if e < 10 {
                        lemma_pow2_strictly_increases(e, 10);
                    }
                } else {
                    lemma_pow2_unfold(e);
                    if e - 1 > 10 {
                        lemma_pow2_strictly_increases(10, (e - 1) as nat);
                    }
                }
            }
        }
        Some(grown_size(p, MIN_UI_BUFFER_ELEMENTS))
    }
}

/// Which per-frame draw buffers to (re)create, and with what size.
#[derive(Debug, Clone, Copy, PartialEq, Eq, Structural)]
pub struct DrawBuffersPlan {
    pub commands: Option<u64>,
    pub objects: Option<u64>,
    pub draw_count: Option<u64>,
}

/// The draw buffers to create so that a frame holds `cmd_size` bytes of
/// indirect commands and `obj_size` bytes of object data: with no commands
/// nothing changes; otherwise a buffer that is missing or too small is
/// replaced by one of at least the minimum draw buffer size, and a missing
/// draw-count buffer is created.
pub fn plan_draw_buffers(
    commands: Option<u64>,
    objects: Option<u64>,
    has_draw_count: bool,
    cmd_size: u64,
    obj_size: u64,
) -> (r: DrawBuffersPlan)
    ensures
        cmd_size == 0 ==> r == (DrawBuffersPlan { commands: None, objects: None, draw_count: None }),
        cmd_size > 0 ==> r.commands == if must_replace(commands, cmd_size) {
            Some(if cmd_size >= MIN_DRAW_BUFFER_SIZE {
                cmd_size
            } else {
                MIN_DRAW_BUFFER_SIZE
            })
        } else {
            None
        },
        cmd_size > 0 ==> r.objects == if must_replace(objects, obj_size) {
            Some(if obj_size >= MIN_DRAW_BUFFER_SIZE {
                obj_size
            } else {
                MIN_DRAW_BUFFER_SIZE
            })
        } else {
            None
        },
        cmd_size > 0 ==> r.draw_count == if has_draw_count {
            None
        } else {
            Some(DRAW_COUNT_BUFFER_SIZE)
        },
        cmd_size > 0 ==> match r.commands {
            Some(n) => n >= cmd_size && n >= MIN_DRAW_BUFFER_SIZE && (commands is None || commands.unwrap() < cmd_size),
            None => (commands matches Some(s) && s >= cmd_size),
        },
        cmd_size > 0 ==> match r.objects {
            Some(n) => n >= obj_size && n >= MIN_DRAW_BUFFER_SIZE && (objects is None || objects.unwrap() < obj_size),
            None => (objects matches Some(s) && s >= obj_size),
        },
{
    if cmd_size == 0 {
        return DrawBuffersPlan { commands: None, objects: None, draw_count: None };
    }
    let c = if needs_new_buffer(commands, cmd_size) {
        Some(grown_size(cmd_size, MIN_DRAW_BUFFER_SIZE))
    } else {
        None
    };
    let o = if needs_new_buffer(objects, obj_size) {
        Some(grown_size(obj_size, MIN_DRAW_BUFFER_SIZE))
    } else {
        None
    };
    let d = if has_draw_count {
        None
    } else {
        Some(DRAW_COUNT_BUFFER_SIZE)
    };
    DrawBuffersPlan { commands: c, objects: o, draw_count: d }
}

/// Bytes of one indexed indirect draw command (five 32-bit words).
pub const DRAW_INDEXED_INDIRECT_COMMAND_SIZE: u64 = 20;

/// Bytes of one object's record in the object-data buffer.
pub const OBJECT_DATA_SIZE: u64 = 80;

/// Bytes of one light's record in the light buffer.
pub const LIGHT_DATA_SIZE: u64 = 64;

/// Bytes that `count` indirect draw commands and their object records take.
pub fn draw_data_sizes(count: u32) -> (r: (u64, u64))
    ensures
        r.0 == count * DRAW_INDEXED_INDIRECT_COMMAND_SIZE,
        r.1 == count * OBJECT_DATA_SIZE,
{
    (count as u64 * DRAW_INDEXED_INDIRECT_COMMAND_SIZE, count as u64 * OBJECT_DATA_SIZE)
}

/// Bytes that the records of `count` lights take.
pub fn light_data_size(count: u32) -> (r: u64)
    ensures
        r == count * LIGHT_DATA_SIZE,
{
    count as u64 * LIGHT_DATA_SIZE
}

/// Why data cannot be copied into a buffer.
#[derive(Debug, Clone, Copy, PartialEq, Eq, Structural)]
pub enum UploadError {
    /// The buffer's memory is not mapped for the host.
    NotHostVisible,
    /// The data is larger than the buffer.
    DataTooLarge,
}

/// The checks an upload of `data_bytes` bytes into a buffer of
/// `buffer_size` bytes makes before it copies anything, in this order: the
/// buffer's memory must be mapped for the host (`mapped`), and the data must
/// fit. An upload whose check fails copies nothing and aborts the renderer
/// with the matching message; the error only names which check failed.
pub fn check_upload(mapped: bool, buffer_size: u64, data_bytes: u64) -> (r: Result<(), UploadError>)
    ensures
        r == if !mapped {
            Err(UploadError::NotHostVisible)
        } else if data_bytes > buffer_size {
            Err(UploadError::DataTooLarge)
        } else {
            Ok(())
        },
{
    if !mapped {
        Err(UploadError::NotHostVisible)
    } else if data_bytes > buffer_size {
        Err(UploadError::DataTooLarge)
    } else {
        Ok(())
    }
}

/// What to do with the pool slot handed out for an instance buffer.
#[derive(Debug, Clone, Copy, PartialEq, Eq, Structural)]
pub enum InstanceBufferAction {
    /// The buffer in the slot is large enough.
    Reuse,
    /// The buffer in the slot is too small: destroy it and create one of the
    /// requested size in its place.
    Replace,
    /// The slot is new: create a buffer of the requested size and append it.
    Append,
}

/// The sizes of a frame's instance buffers, and how many of them this frame
/// has handed out so far.
pub struct InstanceBufferPool {
    pub sizes: Vec<u64>,
    pub instance_index: usize,
}

impl InstanceBufferPool {
    /// Every slot handed out this frame exists.
    pub open spec fn wf(&self) -> bool {
        self.instance_index <= self.sizes@.len()
    }

    /// An empty pool.
    pub fn new() -> (r: Self)
        ensures
            r.sizes@.len() == 0,
            r.instance_index == 0,
            r.wf(),
    {
        InstanceBufferPool { sizes: Vec::new(), instance_index: 0 }
    }

    /// Hands out the next slot for an instance buffer of `size` bytes,
    /// reusing the buffer already in that slot when it is large enough.
    pub fn next_instance_buffer(&mut self, size: u64) -> (r: (usize, InstanceBufferAction))
        requires
            old(self).wf(),
            old(self).instance_index < usize::MAX,
        ensures
            final(self).wf(),
            r.0 == old(self).instance_index,
            final(self).instance_index == old(self).instance_index + 1,
            r.1 == if r.0 < old(self).sizes@.len() {
                if old(self).sizes@[r.0 as int] >= size {
                    InstanceBufferAction::Reuse
                } else {
                    InstanceBufferAction::Replace
                }
            } else {
                InstanceBufferAction::Append
            },
            final(self).sizes@ == match r.1 {
                InstanceBufferAction::Reuse => old(self).sizes@,
                InstanceBufferAction::Replace => old(self).sizes@.update(r.0 as int, size),
                InstanceBufferAction::Append => old(self).sizes@.push(size),
            },
            final(self).sizes@[r.0 as int] >= size,
    {
        let idx = self.instance_index;
        self.instance_index = idx + 1;
        if idx < self.sizes.len() {
            if self.sizes[idx] >= size {
                return (idx, InstanceBufferAction::Reuse);
            }
            self.sizes.set(idx, size);
            return (idx, InstanceBufferAction::Replace);
        }
        self.sizes.push(size);
        (idx, InstanceBufferAction::Append)
    }

    /// Adds a buffer of `size` bytes to the pool and returns its slot.
    pub fn add_instance_buffer(&mut self, size: u64) -> (r: u32)
        requires
            old(self).sizes@.len() < u32::MAX,
        ensures
            final(self).sizes@ == old(self).sizes@.push(size),
            final(self).instance_index == old(self).instance_index,
            r == old(self).sizes@.len(),
    {
        self.sizes.push(size);
        (self.sizes.len() - 1) as u32
    }

    /// Starts a new frame: every slot may be handed out again.
    pub fn clear_instance_buffers(&mut self)
        ensures
            final(self).sizes@ == old(self).sizes@,
            final(self).instance_index == 0,
            final(self).wf(),
    {
        self.instance_index = 0;
    }
}

/// What a mesh draw contributes to the indirect draw commands.
#[derive(Debug, Clone, Copy, PartialEq, Eq, Structural)]
pub struct MeshDrawRange {
    pub index_count: u32,
    pub first_index: u32,
    pub vertex_offset: i32,
    pub material_index: u32,
}

/// An indexed indirect draw command, as the GPU reads it.
#[derive(Debug, Clone, Copy, PartialEq, Eq, Structural)]
pub struct DrawIndexedIndirectCommand {
    pub index_count: u32,
    pub instance_count: u32,
    pub first_index: u32,
    pub vertex_offset: i32,
    pub first_instance: u32,
}

/// The command that draws mesh number `i` of a frame: one instance whose
/// instance index `i` selects the mesh's object record.
pub open spec fn draw_command_for(m: MeshDrawRange, i: int) -> DrawIndexedIndirectCommand {
    DrawIndexedIndirectCommand {
        index_count: m.index_count,
        instance_count: 1,
        first_index: m.first_index,
        vertex_offset: m.vertex_offset,
        first_instance: i as u32,
    }
}

/// The indirect draw commands for a frame's meshes, one per mesh, in order.
pub fn build_draw_commands(meshes: &Vec<MeshDrawRange>) -> (r: Vec<DrawIndexedIndirectCommand>)
    ensures
        r@.len() == meshes@.len(),
        forall|i: int| 0 <= i < meshes@.len() ==> #[trigger] r@[i] == draw_command_for(meshes@[i], i),
{
    let mut out: Vec<DrawIndexedIndirectCommand> = Vec::new();
    let mut i: usize = 0;
    while i < meshes.len()
        invariant
            i <= meshes@.len(),
            out@.len() == i,
            forall|q: int| 0 <= q < i ==> #[trigger] out@[q] == draw_command_for(meshes@[q], q),
        decreases meshes@.len() - i,
    {
        let m = meshes[i];
        out.push(
            DrawIndexedIndirectCommand {
                index_count: m.index_count,
                instance_count: 1,
                first_index: m.first_index,
                vertex_offset: m.vertex_offset,
                first_instance: i as u32,
            },
        );
        i += 1;
    }
    out
}

/// The number of triangles that indexed draws of these index counts make.
pub open spec fn triangles(index_counts: Seq<u32>) -> int
    decreases index_counts.len(),
{
    if index_counts.len() == 0 {
        0
    } else {
        triangles(index_counts.drop_last()) + index_counts.last() / 3
    }
}

proof fn lemma_triangles_nonneg(s: Seq<u32>)
    ensures
        triangles(s) >= 0,
    decreases s.len(),
{
    if s.len() > 0 {
        lemma_triangles_nonneg(s.drop_last());
    }
}

proof fn lemma_triangles_prefix(s: Seq<u32>, k: int)
    requires
        0 <= k <= s.len(),
    ensures
        triangles(s.take(k)) <= triangles(s),
    decreases s.len() - k,
{
    if k < s.len() {
        lemma_triangles_prefix(s, k + 1);
        assert(s.take(k + 1).drop_last() =~= s.take(k));
    } else {
        assert(s.take(k) =~= s);
    }
}

/// Triangles drawn for a frame: those of the opaque and of the transparent meshes.
pub fn triangle_count(opaque: &Vec<u32>, transparent: &Vec<u32>) -> (r: u32)
    requires
        triangles(opaque@) + triangles(transparent@) <= u32::MAX,
    ensures
        r == triangles(opaque@) + triangles(transparent@),
{
    proof {
        lemma_triangles_nonneg(opaque@);
        lemma_triangles_nonneg(transparent@);
    }
    let mut a: u32 = 0;
    let mut i: usize = 0;
    while i < opaque.len()
        invariant
            i <= opaque@.len(),
            a == triangles(opaque@.take(i as int)),
            triangles(opaque@) + triangles(transparent@) <= u32::MAX,
            triangles(transparent@) >= 0,
        decreases opaque@.len() - i,
    {
        proof {
            assert(opaque@.take(i + 1).drop_last() =~= opaque@.take(i as int));
            lemma_triangles_prefix(opaque@, i + 1);
        }
        a = a + opaque[i] / 3;
        i += 1;
    }
    proof {
        assert(opaque@.take(opaque@.len() as int) =~= opaque@);
    }
    let mut b: u32 = 0;
    let mut j: usize = 0;
    while j < transparent.len()
        invariant
            j <= transparent@.len(),
            a == triangles(opaque@),
            b == triangles(transparent@.take(j as int)),
            triangles(opaque@) + triangles(transparent@) <= u32::MAX,
            triangles(opaque@) >= 0,
        decreases transparent@.len() - j,
    {
        proof {
            assert(transparent@.take(j + 1).drop_last() =~= transparent@.take(j as int));
            lemma_triangles_prefix(transparent@, j + 1);
        }
        b = b + transparent[j] / 3;
        j += 1;
    }
    proof {
        assert(transparent@.take(transparent@.len() as int) =~= transparent@);
    }
    a + b
}

} // verus!

verus! {

/// A buffer the renderer owns that passes bind by name.
#[derive(Debug, Clone, Copy, PartialEq, Eq, Structural)]
pub enum RendererBuffer {
    /// The frame's light records.
    Lights,
    /// The frame's object records.
    ObjectData,
    /// The global vertex buffer.
    Vertices,
    /// The global index buffer.
    Indices,
    /// The global material buffer.
    Materials,
}

/// The renderer's own buffer that a binding named `name` refers to, if any;
/// other names are looked up among the passes.
pub fn renderer_buffer_for(name: &String) -> (r: Option<RendererBuffer>)
    ensures
        r == if name@ == "light_buffer"@ || name@ == "Lights"@ {
            Some(RendererBuffer::Lights)
        } else if name@ == "object_data_buffer"@ || name@ == "MeshData"@ {
            Some(RendererBuffer::ObjectData)
        } else if name@ == "Vertices"@ {
            Some(RendererBuffer::Vertices)
        } else if name@ == "Indices"@ {
            Some(RendererBuffer::Indices)
        } else if name@ == "Materials"@ {
            Some(RendererBuffer::Materials)
        } else {
            None::<RendererBuffer>
        },
{
    if str_eq(name, &"light_buffer".to_owned()) || str_eq(name, &"Lights".to_owned()) {
        Some(RendererBuffer::Lights)
    } else if str_eq(name, &"object_data_buffer".to_owned()) || str_eq(name, &"MeshData".to_owned()) {
        Some(RendererBuffer::ObjectData)
    } else if str_eq(name, &"Vertices".to_owned()) {
        Some(RendererBuffer::Vertices)
    } else if str_eq(name, &"Indices".to_owned()) {
        Some(RendererBuffer::Indices)
    } else if str_eq(name, &"Materials".to_owned()) {
        Some(RendererBuffer::Materials)
    } else {
        None
    }
}

} // verus!

verus! {

/// For each frame's light buffer (`None`: none yet), whether it must be
/// replaced to hold `count` lights, and whether any is, so that descriptor
/// sets must be written again. With no lights nothing changes.
pub fn plan_light_buffers(current: &Vec<Option<u64>>, count: u32) -> (r: (Vec<bool>, bool))
    ensures
        r.0@.len() == current@.len(),
        forall|i: int|
            0 <= i < current@.len() ==> #[trigger] r.0@[i] == (count > 0 && must_replace(
                current@[i],
                (count * LIGHT_DATA_SIZE) as u64,
            )),
        r.1 == exists|i: int| 0 <= i < current@.len() && #[trigger] r.0@[i],
{
    let size = light_data_size(count);
    let mut replace: Vec<bool> = Vec::new();
    let mut any = false;
    let mut i: usize = 0;
    while i < current.len()
        invariant
            i <= current@.len(),
            size == count * LIGHT_DATA_SIZE,
            replace@.len() == i,
            forall|k: int|
                0 <= k < i ==> #[trigger] replace@[k] == (count > 0 && must_replace(current@[k], size)),
            any == exists|k: int| 0 <= k < i && #[trigger] replace@[k],
        decreases current@.len() - i,
    {
        let b = count > 0 && needs_new_buffer(current[i], size);
        let ghost before = replace@;
        replace.push(b);
        proof {
            assert forall|k: int| 0 <= k < i implies replace@[k] == before[k] by {}
            if any {
                let k = choose|k: int| 0 <= k < i && #[trigger] before[k];
                assert(replace@[k]);
            }
            if b {
                assert(replace@[i as int]);
            }
            if !any && !b {
                assert forall|k: int| 0 <= k < i + 1 implies !#[trigger] replace@[k] by {
                    if k < i {
                        assert(!before[k]);
                    }
                }
            }
        }
        any = any || b;
        i = i + 1;
    }
    (replace, any)
}

} // verus!
