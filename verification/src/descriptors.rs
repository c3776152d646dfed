//! Descriptor writes for a pass's bindings, and when they must be redone.
use vstd::prelude::*;

use crate::names::str_eq;
use crate::vulkan;

verus! {

/// A resource a pass binds, with its binding number and resource name.
pub enum ResourceBinding {
    SampledImage(u32, String),
    InputAttachment(u32, String),
    StorageImage(u32, String),
    StorageBuffer(u32, String),
    UniformBuffer(u32, String),
    AccelerationStructure(u32, String),
}

impl ResourceBinding {
    /// The binding number.
    pub open spec fn index_spec(&self) -> u32 {
        match self {
            ResourceBinding::SampledImage(b, _) => *b,
            ResourceBinding::InputAttachment(b, _) => *b,
            ResourceBinding::StorageImage(b, _) => *b,
            ResourceBinding::StorageBuffer(b, _) => *b,
            ResourceBinding::UniformBuffer(b, _) => *b,
            ResourceBinding::AccelerationStructure(b, _) => *b,
        }
    }

    /// The name of the bound resource.
    pub open spec fn name_spec(&self) -> Seq<char> {
        match self {
            ResourceBinding::SampledImage(_, n) => n@,
            ResourceBinding::InputAttachment(_, n) => n@,
            ResourceBinding::StorageImage(_, n) => n@,
            ResourceBinding::StorageBuffer(_, n) => n@,
            ResourceBinding::UniformBuffer(_, n) => n@,
            ResourceBinding::AccelerationStructure(_, n) => n@,
        }
    }

    /// The name of the bound resource.
    pub fn resource_name(&self) -> (r: &String)
        ensures
            r@ == self.name_spec(),
    {
        match self {
            ResourceBinding::SampledImage(_, n) => n,
            ResourceBinding::InputAttachment(_, n) => n,
            ResourceBinding::StorageImage(_, n) => n,
            ResourceBinding::StorageBuffer(_, n) => n,
            ResourceBinding::UniformBuffer(_, n) => n,
            ResourceBinding::AccelerationStructure(_, n) => n,
        }
    }

    /// The binding binds an image.
    pub open spec fn is_image(&self) -> bool {
        self is SampledImage || self is InputAttachment || self is StorageImage
    }

    /// The binding binds a buffer.
    pub open spec fn is_buffer(&self) -> bool {
        self is StorageBuffer || self is UniformBuffer
    }
}

/// What a descriptor write points at: the `info`-th image info, buffer info
/// or acceleration structure gathered for the pass.
#[derive(Debug, Clone, Copy, PartialEq, Eq, Structural)]
pub enum WriteSource {
    Image { info: usize, layout: i32 },
    Buffer { info: usize },
    AccelerationStructure { info: usize },
}

/// One descriptor write of a pass's descriptor set.
#[derive(Debug, Clone, Copy, PartialEq, Eq, Structural)]
pub struct DescriptorWrite {
    pub binding: u32,
    pub descriptor_type: i32,
    pub source: WriteSource,
}

/// The writes for the first bindings, with the number of image infos,
/// buffer infos and acceleration structures they use.
pub struct WritePlan {
    pub writes: Seq<DescriptorWrite>,
    pub images: nat,
    pub buffers: nat,
    pub structures: nat,
}

/// The writes for the first `k` bindings: every image binding is written
/// (storage images in the general layout, the others read-only); a buffer
/// binding only when its buffer exists; an acceleration structure only when
/// the frame has one.
pub open spec fn plan_writes_upto(
    bindings: Seq<ResourceBinding>,
    buffer_available: Seq<bool>,
    tlas_available: bool,
    k: nat,
) -> WritePlan
    decreases k,
{
    if k == 0 {
        WritePlan { writes: Seq::empty(), images: 0, buffers: 0, structures: 0 }
    } else {
        let prev = plan_writes_upto(bindings, buffer_available, tlas_available, (k - 1) as nat);
        let b = bindings[k - 1];
        match b {
            ResourceBinding::SampledImage(i, _) => WritePlan {
                writes: prev.writes.push(
                    DescriptorWrite {
                        binding: i,
                        descriptor_type: vulkan::DESCRIPTOR_COMBINED_IMAGE_SAMPLER,
                        source: WriteSource::Image {
                            info: prev.images as usize,
                            layout: vulkan::LAYOUT_SHADER_READ_ONLY_OPTIMAL,
                        },
                    },
                ),
                images: prev.images + 1,
                ..prev
            },
            ResourceBinding::InputAttachment(i, _) => WritePlan {
                writes: prev.writes.push(
                    DescriptorWrite {
                        binding: i,
                        descriptor_type: vulkan::DESCRIPTOR_INPUT_ATTACHMENT,
                        source: WriteSource::Image {
                            info: prev.images as usize,
                            layout: vulkan::LAYOUT_SHADER_READ_ONLY_OPTIMAL,
                        },
                    },
                ),
                images: prev.images + 1,
                ..prev
            },
            ResourceBinding::StorageImage(i, _) => WritePlan {
                writes: prev.writes.push(
                    DescriptorWrite {
                        binding: i,
                        descriptor_type: vulkan::DESCRIPTOR_STORAGE_IMAGE,
                        source: WriteSource::Image { info: prev.images as usize, layout: vulkan::LAYOUT_GENERAL },
                    },
                ),
                images: prev.images + 1,
                ..prev
            },
            ResourceBinding::StorageBuffer(i, _) => if buffer_available[k - 1] {
                WritePlan {
                    writes: prev.writes.push(
                        DescriptorWrite {
                            binding: i,
                            descriptor_type: vulkan::DESCRIPTOR_STORAGE_BUFFER,
                            source: WriteSource::Buffer { info: prev.buffers as usize },
                        },
                    ),
                    buffers: prev.buffers + 1,
                    ..prev
                }
            } else {
                prev
            },
            ResourceBinding::UniformBuffer(i, _) => if buffer_available[k - 1] {
                WritePlan {
                    writes: prev.writes.push(
                        DescriptorWrite {
                            binding: i,
                            descriptor_type: vulkan::DESCRIPTOR_UNIFORM_BUFFER,
                            source: WriteSource::Buffer { info: prev.buffers as usize },
                        },
                    ),
                    buffers: prev.buffers + 1,
                    ..prev
                }
            } else {
                prev
            },
            ResourceBinding::AccelerationStructure(i, _) => if tlas_available {
                WritePlan {
                    writes: prev.writes.push(
                        DescriptorWrite {
                            binding: i,
                            descriptor_type: vulkan::DESCRIPTOR_ACCELERATION_STRUCTURE,
                            source: WriteSource::AccelerationStructure { info: prev.structures as usize },
                        },
                    ),
                    structures: prev.structures + 1,
                    ..prev
                }
            } else {
                prev
            },
        }
    }
}

proof fn lemma_plan_counts(bindings: Seq<ResourceBinding>, avail: Seq<bool>, tlas: bool, k: nat)
    ensures
        plan_writes_upto(bindings, avail, tlas, k).images <= k,
        plan_writes_upto(bindings, avail, tlas, k).buffers <= k,
        plan_writes_upto(bindings, avail, tlas, k).structures <= k,
    decreases k,
{
    if k > 0 {
        lemma_plan_counts(bindings, avail, tlas, (k - 1) as nat);
    }
}

/// The descriptor writes for a pass's bindings, in binding order: one per
/// image binding, pointing at the next image info; one per buffer binding
/// whose buffer exists (`buffer_available`), pointing at the next buffer
/// info; one per acceleration-structure binding when the frame has a
/// top-level structure.
pub fn plan_descriptor_writes(
    bindings: &Vec<ResourceBinding>,
    buffer_available: &Vec<bool>,
    tlas_available: bool,
) -> (r: Vec<DescriptorWrite>)
    requires
        buffer_available@.len() == bindings@.len(),
    ensures
        r@ == plan_writes_upto(bindings@, buffer_available@, tlas_available, bindings@.len()).writes,
{
    let mut writes: Vec<DescriptorWrite> = Vec::new();
    let mut img: usize = 0;
    let mut buf: usize = 0;
    let mut acc: usize = 0;
    let mut k: usize = 0;
    while k < bindings.len()
        invariant
            k <= bindings@.len(),
            buffer_available@.len() == bindings@.len(),
            ({
                let pl = plan_writes_upto(bindings@, buffer_available@, tlas_available, k as nat);
                &&& writes@ == pl.writes
                &&& img == pl.images
                &&& buf == pl.buffers
                &&& acc == pl.structures
            }),
        decreases bindings@.len() - k,
    {
        proof {
            lemma_plan_counts(bindings@, buffer_available@, tlas_available, k as nat);
        }
        match &bindings[k] {
            ResourceBinding::SampledImage(i, _) => {
                writes.push(
                    DescriptorWrite {
                        binding: *i,
                        descriptor_type: vulkan::DESCRIPTOR_COMBINED_IMAGE_SAMPLER,
                        source: WriteSource::Image { info: img, layout: vulkan::LAYOUT_SHADER_READ_ONLY_OPTIMAL },
                    },
                );
                img += 1;
            },
            ResourceBinding::InputAttachment(i, _) => {
                writes.push(
                    DescriptorWrite {
                        binding: *i,
                        descriptor_type: vulkan::DESCRIPTOR_INPUT_ATTACHMENT,
                        source: WriteSource::Image { info: img, layout: vulkan::LAYOUT_SHADER_READ_ONLY_OPTIMAL },
                    },
                );
                img += 1;
            },
            ResourceBinding::StorageImage(i, _) => {
                writes.push(
                    DescriptorWrite {
                        binding: *i,
                        descriptor_type: vulkan::DESCRIPTOR_STORAGE_IMAGE,
                        source: WriteSource::Image { info: img, layout: vulkan::LAYOUT_GENERAL },
                    },
                );
                img += 1;
            },
            ResourceBinding::StorageBuffer(i, _) => {
                if buffer_available[k] {
                    writes.push(
                        DescriptorWrite {
                            binding: *i,
                            descriptor_type: vulkan::DESCRIPTOR_STORAGE_BUFFER,
                            source: WriteSource::Buffer { info: buf },
                        },
                    );
                    buf += 1;
                }
            },
            ResourceBinding::UniformBuffer(i, _) => {
                if buffer_available[k] {
                    writes.push(
                        DescriptorWrite {
                            binding: *i,
                            descriptor_type: vulkan::DESCRIPTOR_UNIFORM_BUFFER,
                            source: WriteSource::Buffer { info: buf },
                        },
                    );
                    buf += 1;
                }
            },
            ResourceBinding::AccelerationStructure(i, _) => {
                if tlas_available {
                    writes.push(
                        DescriptorWrite {
                            binding: *i,
                            descriptor_type: vulkan::DESCRIPTOR_ACCELERATION_STRUCTURE,
                            source: WriteSource::AccelerationStructure { info: acc },
                        },
                    );
                    acc += 1;
                }
            },
        }
        k += 1;
    }
    writes
}

/// The version of a bound resource that a descriptor set was last written with.
pub struct ResourceVersion {
    pub name: String,
    pub version: u64,
}

/// The version recorded for `name` among the first `k` entries: the last one.
pub open spec fn version_before(v: Seq<ResourceVersion>, name: Seq<char>, k: nat) -> Option<u64>
    decreases k,
{
    if k == 0 {
        None
    } else if v[k - 1].name@ == name {
        Some(v[k - 1].version)
    } else {
        version_before(v, name, (k - 1) as nat)
    }
}

/// Some bound resource has a version other than the one recorded (or none
/// recorded), so the pass's descriptor set must be written again.
pub open spec fn versions_stale(stored: Seq<ResourceVersion>, current: Seq<ResourceVersion>) -> bool {
    exists|k: int|
        0 <= k < current.len() && version_before(stored, current[k].name@, stored.len()) != Some(
            #[trigger] current[k].version,
        )
}

/// A descriptor set must be written again exactly when some binding, at
/// any position, has a resource whose version differs from the one
/// recorded for it or has none recorded; when every binding's version
/// matches, nothing is written.
pub proof fn lemma_stale_iff_some_binding_changed(stored: Seq<ResourceVersion>, current: Seq<ResourceVersion>)
    ensures
        forall|k: int|
            0 <= k < current.len() && version_before(stored, current[k].name@, stored.len()) != Some(
                #[trigger] current[k].version,
            ) ==> versions_stale(stored, current),
        versions_stale(stored, current) ==> exists|k: int|
            0 <= k < current.len() && version_before(stored, current[k].name@, stored.len()) != Some(
                #[trigger] current[k].version,
            ),
        (forall|k: int|
            0 <= k < current.len() ==> version_before(stored, current[k].name@, stored.len()) == Some(
                #[trigger] current[k].version,
            )) ==> !versions_stale(stored, current),
{
}

/// The version recorded for `name` among the first `k` entries of `stored`
/// is that of the last entry with that name, and there is none when no
/// entry has it.
pub proof fn lemma_version_before_is_last(stored: Seq<ResourceVersion>, name: Seq<char>, k: nat)
    requires
        k <= stored.len(),
    ensures
        (version_before(stored, name, k) is None) ==> forall|j: int| 0 <= j < k ==> (#[trigger] stored[j]).name@ != name,
        (version_before(stored, name, k) is Some) ==> (exists|j: int|
            0 <= j < k && (#[trigger] stored[j]).name@ == name && Some(stored[j].version) == version_before(
                stored,
                name,
                k,
            ) && forall|l: int| j < l < k ==> stored[l].name@ != name),
    decreases k,
{
    if k > 0 {
        lemma_version_before_is_last(stored, name, (k - 1) as nat);
        if stored[k - 1].name@ != name {
            if (version_before(stored, name, (k - 1) as nat) is Some) {
                let j = choose|j: int|
                    0 <= j < k - 1 && (#[trigger] stored[j]).name@ == name && Some(stored[j].version) == version_before(
                        stored,
                        name,
                        (k - 1) as nat,
                    ) && forall|l: int| j < l < k - 1 ==> stored[l].name@ != name;
                assert forall|l: int| j < l < k implies stored[l].name@ != name by {}
            }
        } else {
            let j = k - 1;
            assert(stored[j].name@ == name);
        }
    }
}

/// The version recorded for resource `name`.
pub fn recorded_version(stored: &Vec<ResourceVersion>, name: &String) -> (r: Option<u64>)
    ensures
        r == version_before(stored@, name@, stored@.len()),
{
    let mut k: usize = stored.len();
    while k > 0
        invariant
            k <= stored@.len(),
            version_before(stored@, name@, stored@.len()) == version_before(stored@, name@, k as nat),
        decreases k,
    {
        if str_eq(&stored[k - 1].name, name) {
            return Some(stored[k - 1].version);
        }
        k -= 1;
    }
    None
}

/// Whether a pass's descriptor set must be written again: true when some
/// bound resource now has a version other than the one recorded for it.
pub fn descriptors_need_update(stored: &Vec<ResourceVersion>, current: &Vec<ResourceVersion>) -> (r: bool)
    ensures
        r == versions_stale(stored@, current@),
        forall|k: int|
            0 <= k < current@.len() && version_before(stored@, current@[k].name@, stored@.len()) != Some(
                #[trigger] current@[k].version,
            ) ==> r,
        r ==> exists|k: int|
            0 <= k < current@.len() && version_before(stored@, current@[k].name@, stored@.len()) != Some(
                #[trigger] current@[k].version,
            ),
{
    proof {
        lemma_stale_iff_some_binding_changed(stored@, current@);
    }
    let mut k: usize = 0;
    while k < current.len()
        invariant
            k <= current@.len(),
            forall|q: int|
                0 <= q < k ==> version_before(stored@, current@[q].name@, stored@.len()) == Some(
                    #[trigger] current@[q].version,
                ),
        decreases current@.len() - k,
    {
        let v = recorded_version(stored, &current[k].name);
        proof {
            let _ = current@[k as int].version;
        }
        match v {
            Some(x) => {
                if x != current[k].version {
                    assert(version_before(stored@, current@[k as int].name@, stored@.len()) != Some(current@[k as int].version));
                    return true;
                }
            },
            None => {
                assert(version_before(stored@, current@[k as int].name@, stored@.len()) != Some(current@[k as int].version));
                return true;
            },
        }
        k += 1;
    }
    false
}

} // verus!

verus! {

/// Whether the descriptors recorded for `name` in `stored` are out of date
/// for the resource now at `version`: nothing is recorded, or another
/// version is.
pub fn version_is_stale(stored: &Vec<ResourceVersion>, name: &String, version: u64) -> (r: bool)
    ensures
        r == (version_before(stored@, name@, stored@.len()) != Some(version)),
{
    match recorded_version(stored, name) {
        Some(v) => v != version,
        None => true,
    }
}

/// The passes whose descriptors are refreshed this frame, in pass order:
/// those that are enabled and report that they need it.
pub fn passes_to_update(enabled: &Vec<bool>, needs_update: &Vec<bool>) -> (r: Vec<usize>)
    requires
        enabled@.len() == needs_update@.len(),
    ensures
        forall|i: int| 0 <= i < enabled@.len() ==> (r@.contains(i as usize) <==> enabled@[i] && needs_update@[i]),
        forall|t: int| 0 <= t < r@.len() ==> #[trigger] r@[t] < enabled@.len(),
        forall|a: int, b: int| 0 <= a < b < r@.len() ==> #[trigger] r@[a] < #[trigger] r@[b],
{
    let mut r: Vec<usize> = Vec::new();
    let mut i: usize = 0;
    while i < enabled.len()
        invariant
            enabled@.len() == needs_update@.len(),
            i <= enabled@.len(),
            forall|m: int| 0 <= m < i ==> (r@.contains(m as usize) <==> enabled@[m] && needs_update@[m]),
            forall|t: int| 0 <= t < r@.len() ==> #[trigger] r@[t] < i,
            forall|a: int, b: int| 0 <= a < b < r@.len() ==> #[trigger] r@[a] < #[trigger] r@[b],
        decreases enabled@.len() - i,
    {
        let ghost old_r = r@;
        if enabled[i] && needs_update[i] {
            r.push(i);
        }
        proof {
            assert forall|m: int| 0 <= m < i + 1 implies (r@.contains(m as usize) <==> enabled@[m]
                && needs_update@[m]) by {
                if m < i {
                    if r@.contains(m as usize) && !old_r.contains(m as usize) {
                        assert(r@.last() == i);
                    }
                    if old_r.contains(m as usize) {
                        let t = choose|t: int| 0 <= t < old_r.len() && old_r[t] == m as usize;
                        assert(r@[t] == m as usize);
                    }
                } else {
                    if enabled@[m] && needs_update@[m] {
                        assert(r@[r@.len() - 1] == i);
                    } else {
                        assert(!old_r.contains(i));
                    }
                }
            }
        }
        i = i + 1;
    }
    r
}

} // verus!

verus! {

/// A name that occurs more than once in `v` carries the same version each
/// time, as the versions read for one resource in one frame do.
pub open spec fn versions_consistent(v: Seq<ResourceVersion>) -> bool {
    forall|i: int, j: int|
        0 <= i < v.len() && 0 <= j < v.len() && (#[trigger] v[i]).name@ == (#[trigger] v[j]).name@ ==> v[i].version
            == v[j].version
}

/// Checks a pass's recorded descriptor versions against the versions its
/// bindings have now: when some version differs or is missing, the
/// descriptors must be written again and the current versions are recorded
/// in place of the old ones; otherwise nothing changes. Returns whether the
/// descriptors must be written.
pub fn refresh_descriptor_versions(stored: &mut Vec<ResourceVersion>, current: Vec<ResourceVersion>) -> (r: bool)
    ensures
        r == versions_stale(old(stored)@, current@),
        r ==> final(stored)@ == current@,
        !r ==> final(stored)@ == old(stored)@,
        versions_consistent(current@) ==> !versions_stale(final(stored)@, current@),
{
    if descriptors_need_update(stored, &current) {
        proof {
            if versions_consistent(current@) {
                lemma_recorded_versions_fresh(current@);
            }
        }
        *stored = current;
        true
    } else {
        false
    }
}

proof fn lemma_version_found(v: Seq<ResourceVersion>, name: Seq<char>, n: nat, i: int)
    requires
        n <= v.len(),
        0 <= i < n,
        v[i].name@ == name,
    ensures
        exists|m: int| 0 <= m < n && (#[trigger] v[m]).name@ == name && version_before(v, name, n) == Some(v[m].version),
    decreases n,
{
    if v[n - 1].name@ == name {
        assert(v[n - 1].name@ == name && version_before(v, name, n) == Some(v[n - 1].version));
    } else {
        lemma_version_found(v, name, (n - 1) as nat, i);
        let m = choose|m: int|
            0 <= m < n - 1 && (#[trigger] v[m]).name@ == name && version_before(v, name, (n - 1) as nat) == Some(
                v[m].version,
            );
        assert(0 <= m < n && v[m].name@ == name && version_before(v, name, n) == Some(v[m].version));
    }
}

/// Versions just recorded are up to date: checking a pass again against the
/// same versions asks for no descriptor write.
pub proof fn lemma_recorded_versions_fresh(current: Seq<ResourceVersion>)
    requires
        versions_consistent(current),
    ensures
        !versions_stale(current, current),
{
    assert forall|k: int| 0 <= k < current.len() implies version_before(
        current,
        current[k].name@,
        current.len(),
    ) == Some(#[trigger] current[k].version) by {
        lemma_version_found(current, current[k].name@, current.len(), k);
        let m = choose|m: int|
            0 <= m < current.len() && (#[trigger] current[m]).name@ == current[k].name@ && version_before(
                current,
                current[k].name@,
                current.len(),
            ) == Some(current[m].version);
        assert(current[m].version == current[k].version);
    }
}

} // verus!
