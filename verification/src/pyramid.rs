//! Image pyramids: how many levels a full mip chain has, the size of each
//! level, and the order in which the mip chain, the depth pyramid and the
//! bloom chain are produced.
use vstd::prelude::*;

use vstd::arithmetic::logarithm::log;
use vstd::arithmetic::logarithm::lemma_log0;
use vstd::arithmetic::logarithm::lemma_log_s;
use vstd::arithmetic::logarithm::lemma_log_is_ordered;
use vstd::arithmetic::logarithm::lemma_log_nonnegative;
use vstd::arithmetic::power2::pow2;
use vstd::arithmetic::power2::lemma_pow2_unfold;
use vstd::arithmetic::power2::lemma2_to64;
use vstd::bits::lemma_u32_shr_is_div;

use crate::resource::MAX_FRAMES_IN_FLIGHT;

verus! {

/// The larger of two sides.
pub open spec fn larger(a: nat, b: nat) -> nat {
    if a >= b { a } else { b }
}

/// Halves a side, never going below one texel.
pub open spec fn halve(size: nat) -> nat {
    if size / 2 >= 1 { size / 2 } else { 1 }
}

/// The side of mip `level` of an image side `size`: halved once per level,
/// never below one texel.
pub open spec fn mip_side(size: nat, level: nat) -> nat
    decreases level,
{
    if level == 0 {
        size
    } else {
        halve(mip_side(size, (level - 1) as nat))
    }
}

/// The number of levels of a full mip chain: the integer base-2 logarithm of
/// the larger side, plus one.
pub open spec fn full_mip_levels(width: nat, height: nat) -> int {
    log(2, larger(width, height) as int) + 1
}

/// Work groups needed to cover `n` items with groups of `size` items.
pub open spec fn groups_for(n: nat, size: nat) -> int {
    (n + size - 1) / (size as int)
}

proof fn lemma_log_below(n: int, k: nat)
    requires
        1 <= n < pow2(k),
    ensures
        0 <= log(2, n) < k,
    decreases k,
{
    lemma_log_nonnegative(2, n);
    if n < 2 {
        lemma_log0(2, n);
        if k == 0 {
            lemma2_to64();
        }
    } else {
        lemma_log_s(2, n);
        if k == 0 {
            lemma2_to64();
        } else {
            lemma_pow2_unfold(k);
            if k == 1 {
                lemma2_to64();
            }
            lemma_log_below(n / 2, (k - 1) as nat);
        }
    }
}

/// The number of mip levels of a full chain for an image of the given size:
/// `floor(log2(max(width, height))) + 1`, and 1 for an empty image.
pub fn mip_level_count(width: u32, height: u32) -> (r: u32)
    ensures
        r == full_mip_levels(width as nat, height as nat),
        1 <= r <= 32,
{
    let m0: u32 = if width >= height { width } else { height };
    let mut m: u32 = m0;
    let mut levels: u32 = 1;
    proof {
        lemma_log_nonnegative(2, m0 as int);
        if m0 >= 1 {
            lemma2_to64();
            lemma_log_below(m0 as int, 32);
        } else {
            lemma_log0(2, 0);
        }
    }
    while m >= 2
        invariant
            1 <= levels,
            0 <= log(2, m as int),
            levels + log(2, m as int) == full_mip_levels(width as nat, height as nat),
            full_mip_levels(width as nat, height as nat) <= 32,
        decreases m,
    {
        proof {
            lemma_log_s(2, m as int);
            lemma_log_nonnegative(2, (m / 2) as int);
        }
        m = m / 2;
        levels = levels + 1;
    }
    proof {
        lemma_log0(2, m as int);
    }
    levels
}

/// Work groups needed to cover `n` items with groups of `size` items
/// (rounding up).
pub fn group_count(n: u32, size: u32) -> (r: u32)
    requires
        size > 0,
    ensures
        r == groups_for(n as nat, size as nat),
{
    let q = n / size;
    let rem = n % size;
    proof {
        assert(n == q * size + rem) by (nonlinear_arith)
            requires
                size > 0,
                q == n / size,
                rem == n % size,
        ;
        assert((n + size - 1) / (size as int) == q + (if rem > 0 { 1int } else { 0int })) by (nonlinear_arith)
            requires
                size > 0,
                q == n / size,
                rem == n % size,
                n == q * size + rem,
        {
            if rem > 0 {
                assert(n + size - 1 == (q + 1) * size + (rem - 1));
            } else {
                assert(n + size - 1 == q * size + (size - 1));
            }
        }
    }
    if rem > 0 {
        assert(q < u32::MAX) by (nonlinear_arith)
            requires
                0 < rem < size,
                q * size + rem == n,
                n <= u32::MAX,
        {
            assert(q * size >= q * 2);
        }
        q + 1
    } else {
        q
    }
}

proof fn lemma_mip_side_of_one(k: nat)
    ensures
        mip_side(1, k) == 1,
    decreases k,
{
    if k > 0 {
        lemma_mip_side_of_one((k - 1) as nat);
    }
}

proof fn lemma_mip_side_shift(n: nat, k: nat)
    ensures
        mip_side(n, k + 1) == mip_side(halve(n), k),
    decreases k,
{
    if k > 0 {
        let k1 = (k - 1) as nat;
        lemma_mip_side_shift(n, k1);
        assert(k1 + 1 == k);
        assert(mip_side(n, k + 1) == halve(mip_side(n, k)));
        assert(mip_side(halve(n), k) == halve(mip_side(halve(n), k1)));
    } else {
        assert(mip_side(n, 0) == n);
        assert(mip_side(n, 1) == halve(mip_side(n, 0)));
    }
}

proof fn lemma_mip_side_log(n: nat, k: nat)
    requires
        n >= 1,
    ensures
        k >= log(2, n as int) ==> mip_side(n, k) == 1,
        k < log(2, n as int) ==> mip_side(n, k) >= 2,
    decreases n,
{
    if n == 1 {
        lemma_log0(2, 1);
        lemma_mip_side_of_one(k);
    } else {
        lemma_log_s(2, n as int);
        assert(halve(n) == n / 2);
        lemma_log_nonnegative(2, (n / 2) as int);
        if k > 0 {
            let k1 = (k - 1) as nat;
            lemma_mip_side_shift(n, k1);
            assert(k1 + 1 == k);
            assert(mip_side(n, k) == mip_side(n / 2, k1));
            lemma_mip_side_log(n / 2, k1);
        }
    }
}

/// A full mip chain ends at a single texel: at its last level both sides
/// are 1, and at every earlier level at least one side is larger than 1, so
/// no level of the chain is redundant.
pub proof fn lemma_full_chain_ends_at_one_texel(width: nat, height: nat)
    requires
        width >= 1,
        height >= 1,
    ensures
        mip_side(width, (full_mip_levels(width, height) - 1) as nat) == 1,
        mip_side(height, (full_mip_levels(width, height) - 1) as nat) == 1,
        forall|level: nat|
            level < full_mip_levels(width, height) - 1 ==> mip_side(width, level) >= 2
                || mip_side(height, level) >= 2,
{
    let big = larger(width, height);
    lemma_log_nonnegative(2, big as int);
    let last = log(2, big as int) as nat;
    lemma_log_is_ordered(2, width as int, big as int);
    lemma_log_is_ordered(2, height as int, big as int);
    lemma_mip_side_log(width, last);
    lemma_mip_side_log(height, last);
    assert forall|level: nat| level < full_mip_levels(width, height) - 1 implies mip_side(
        width,
        level,
    ) >= 2 || mip_side(height, level) >= 2 by {
        lemma_mip_side_log(big, level);
    }
}

/// One blit of the mip chain: level `dst_level` is filtered down from the
/// whole of level `src_level`.
#[derive(Clone, Copy, Debug, PartialEq, Eq, Structural)]
pub struct MipBlit {
    pub src_level: u32,
    pub dst_level: u32,
    pub src_width: u32,
    pub src_height: u32,
    pub dst_width: u32,
    pub dst_height: u32,
}

/// Blit `b` produces level `i + 1` of the chain of a `width` x `height`
/// image from level `i`.
pub open spec fn is_mip_blit(b: MipBlit, width: nat, height: nat, i: nat) -> bool {
    &&& b.src_level == i
    &&& b.dst_level == i + 1
    &&& b.src_width == mip_side(width, i)
    &&& b.src_height == mip_side(height, i)
    &&& b.dst_width == mip_side(width, i + 1)
    &&& b.dst_height == mip_side(height, i + 1)
}

/// The blits that fill levels 1 to `levels - 1` of a mip chain, each from
/// the level above it, in order.
pub fn plan_mip_blits(width: u32, height: u32, levels: u32) -> (r: Vec<MipBlit>)
    ensures
        r.len() == (if levels == 0 { 0 } else { levels - 1 }),
        forall|i: int| 0 <= i < r.len() ==> is_mip_blit(#[trigger] r[i], width as nat, height as nat, i as nat),
{
    let mut r: Vec<MipBlit> = Vec::new();
    let mut w: u32 = width;
    let mut h: u32 = height;
    let mut j: u32 = 1;
    while j < levels
        invariant
            1 <= j,
            j == 1 || j <= levels,
            r.len() == j - 1,
            w == mip_side(width as nat, (j - 1) as nat),
            h == mip_side(height as nat, (j - 1) as nat),
            forall|i: int| 0 <= i < r.len() ==> is_mip_blit(#[trigger] r[i], width as nat, height as nat, i as nat),
        decreases levels - j,
    {
        let nw: u32 = if w / 2 >= 1 { w / 2 } else { 1 };
        let nh: u32 = if h / 2 >= 1 { h / 2 } else { 1 };
        r.push(MipBlit { src_level: j - 1, dst_level: j, src_width: w, src_height: h, dst_width: nw, dst_height: nh });
        w = nw;
        h = nh;
        j = j + 1;
    }
    r
}

/// Where a step of the depth pyramid reads from.
#[derive(Clone, Copy, Debug, PartialEq, Eq, Structural)]
pub enum PyramidSource {
    /// The depth buffer of the previous frame.
    Depth,
    /// A level of the pyramid itself.
    Level(u32),
}

/// One compute dispatch of the depth pyramid.
#[derive(Clone, Copy, Debug, PartialEq, Eq, Structural)]
pub struct PyramidStep {
    pub source: PyramidSource,
    pub target_level: u32,
    pub descriptor_set: usize,
    pub width: u32,
    pub height: u32,
    pub groups_x: u32,
    pub groups_y: u32,
}

/// Threads per side of a depth pyramid work group.
pub const PYRAMID_GROUP_SIZE: u32 = 16;

/// Step `s` is dispatch `i` of the depth pyramid of frame slot `frame`.
pub open spec fn is_pyramid_step(
    s: PyramidStep,
    frame: nat,
    levels: nat,
    width: nat,
    height: nat,
    i: nat,
) -> bool {
    &&& s.source == (if i == 0 { PyramidSource::Depth } else { PyramidSource::Level(i as u32) })
    &&& s.target_level == i + 1
    &&& s.descriptor_set == frame * (levels - 1) + i
    &&& s.width == mip_side(width, i + 1)
    &&& s.height == mip_side(height, i + 1)
    &&& s.groups_x == groups_for(mip_side(width, i + 1), PYRAMID_GROUP_SIZE as nat)
    &&& s.groups_y == groups_for(mip_side(height, i + 1), PYRAMID_GROUP_SIZE as nat)
}

/// The dispatches that build the depth pyramid of frame slot `frame`: the
/// first reads the depth buffer and writes level 1, each later one reads the
/// level the one before it wrote. Frame slot `frame` uses the descriptor sets
/// `frame * (levels - 1)` up to `(frame + 1) * (levels - 1)`, one per step.
pub fn plan_depth_pyramid(frame: usize, width: u32, height: u32, levels: u32) -> (r: Vec<PyramidStep>)
    requires
        levels >= 1,
        frame * (levels - 1) + levels <= usize::MAX,
    ensures
        r.len() == levels - 1,
        forall|i: int|
            0 <= i < r.len() ==> is_pyramid_step(
                #[trigger] r[i],
                frame as nat,
                levels as nat,
                width as nat,
                height as nat,
                i as nat,
            ),
        forall|i: int| 1 <= i < r.len() ==> (#[trigger] r[i]).source == PyramidSource::Level(r[i - 1].target_level),
        forall|i: int|
            0 <= i < r.len() ==> frame * (levels - 1) <= (#[trigger] r[i]).descriptor_set < (frame + 1) * (levels - 1),
{
    let n: usize = (levels - 1) as usize;
    assert(frame * n <= usize::MAX) by (nonlinear_arith)
        requires
            frame * n + n + 1 <= usize::MAX,
            n >= 0,
    ;
    let base: usize = frame * n;
    let mut r: Vec<PyramidStep> = Vec::new();
    let mut w: u32 = width;
    let mut h: u32 = height;
    let mut i: u32 = 0;
    while i < levels - 1
        invariant
            n == levels - 1,
            base == frame * n,
            base + n < usize::MAX,
            i <= levels - 1,
            r.len() == i,
            w == mip_side(width as nat, i as nat),
            h == mip_side(height as nat, i as nat),
            forall|k: int|
                0 <= k < r.len() ==> is_pyramid_step(
                    #[trigger] r[k],
                    frame as nat,
                    levels as nat,
                    width as nat,
                    height as nat,
                    k as nat,
                ),
        decreases levels - 1 - i,
    {
        w = if w / 2 >= 1 { w / 2 } else { 1 };
        h = if h / 2 >= 1 { h / 2 } else { 1 };
        let source = if i == 0 { PyramidSource::Depth } else { PyramidSource::Level(i) };
        let gx = group_count(w, PYRAMID_GROUP_SIZE);
        let gy = group_count(h, PYRAMID_GROUP_SIZE);
        r.push(PyramidStep {
            source,
            target_level: i + 1,
            descriptor_set: base + i as usize,
            width: w,
            height: h,
            groups_x: gx,
            groups_y: gy,
        });
        i = i + 1;
    }
    assert forall|k: int|
        0 <= k < r.len() implies frame * (levels - 1) <= (#[trigger] r[k]).descriptor_set < (frame + 1) * (levels - 1) by {
        assert(is_pyramid_step(r[k], frame as nat, levels as nat, width as nat, height as nat, k as nat));
        assert((frame + 1) * n == frame * n + n) by (nonlinear_arith);
    }
    r
}

/// Frames in flight never share a descriptor set: when each frame slot uses
/// `per_frame` consecutive sets starting at `frame * per_frame`, the sets of
/// two different slots are different.
pub proof fn lemma_frame_sets_disjoint(f1: nat, f2: nat, per_frame: nat, i: nat, j: nat)
    requires
        f1 != f2,
        i < per_frame,
        j < per_frame,
    ensures
        f1 * per_frame + i != f2 * per_frame + j,
{
    if f1 < f2 {
        assert(f1 * per_frame + per_frame <= f2 * per_frame) by (nonlinear_arith)
            requires
                f1 < f2,
        ;
    } else {
        assert(f2 * per_frame + per_frame <= f1 * per_frame) by (nonlinear_arith)
            requires
                f2 < f1,
        ;
    }
}

/// Levels of the bloom chain.
pub const BLOOM_MIP_COUNT: usize = 6;

/// A side of bloom level `i` (counted from 1 at half the scene's size): the
/// scene's side divided by `2^i`, at least one texel.
pub open spec fn bloom_side(size: nat, i: nat) -> nat {
    if size / pow2(i) >= 1 {
        size / pow2(i)
    } else {
        1
    }
}

/// The sizes of the bloom levels of a scene of the given size: level `i`
/// (from 0) is the scene shifted right by `i + 1`, at least 1 x 1.
pub fn bloom_mip_extents(width: u32, height: u32) -> (r: Vec<(u32, u32)>)
    ensures
        r.len() == BLOOM_MIP_COUNT,
        forall|i: int|
            0 <= i < r.len() ==> (#[trigger] r[i]).0 == bloom_side(width as nat, (i + 1) as nat) && r[i].1
                == bloom_side(height as nat, (i + 1) as nat),
{
    let mut r: Vec<(u32, u32)> = Vec::new();
    let mut i: u32 = 1;
    while i <= 6
        invariant
            1 <= i <= 7,
            r.len() == i - 1,
            forall|k: int|
                0 <= k < r.len() ==> (#[trigger] r[k]).0 == bloom_side(width as nat, (k + 1) as nat) && r[k].1
                    == bloom_side(height as nat, (k + 1) as nat),
        decreases 7 - i,
    {
        let w = width >> i;
        let h = height >> i;
        proof {
            lemma_u32_shr_is_div(width, i);
            lemma_u32_shr_is_div(height, i);
        }
        r.push((if w >= 1 { w } else { 1 }, if h >= 1 { h } else { 1 }));
        i = i + 1;
    }
    r
}

/// What a bloom step reads.
#[derive(Clone, Copy, Debug, PartialEq, Eq, Structural)]
pub enum BloomSource {
    /// The lit scene.
    Scene,
    /// A level of the bloom chain.
    Mip(usize),
}

/// One draw of the bloom chain. A downsampling step clears its target and
/// writes a filtered copy of the source; an upsampling step adds the source
/// to what its target holds.
#[derive(Clone, Copy, Debug, PartialEq, Eq, Structural)]
pub struct BloomStep {
    pub upsample: bool,
    pub source: BloomSource,
    pub target: usize,
    pub descriptor_set: usize,
    pub source_width: u32,
    pub source_height: u32,
}

/// Downsampling step `i` of frame slot `frame`: it reads the scene (for the
/// first step) or the level the step before wrote, and writes level `i`.
pub open spec fn bloom_down_step(frame: nat, scene: (u32, u32), mips: Seq<(u32, u32)>, i: nat) -> BloomStep {
    BloomStep {
        upsample: false,
        source: if i == 0 { BloomSource::Scene } else { BloomSource::Mip((i - 1) as usize) },
        target: i as usize,
        descriptor_set: (frame * mips.len() + i) as usize,
        source_width: if i == 0 { scene.0 } else { mips[i - 1].0 },
        source_height: if i == 0 { scene.1 } else { mips[i - 1].1 },
    }
}

/// Upsampling step `k` of frame slot `frame`: from the smallest level up, it
/// adds level `n - 1 - k` into level `n - 2 - k`, reusing the descriptor set of
/// the level it reads.
pub open spec fn bloom_up_step(frame: nat, mips: Seq<(u32, u32)>, k: nat) -> BloomStep {
    let src = (mips.len() - 1 - k) as nat;
    BloomStep {
        upsample: true,
        source: BloomSource::Mip(src as usize),
        target: (src - 1) as usize,
        descriptor_set: (frame * mips.len() + src) as usize,
        source_width: mips[src as int].0,
        source_height: mips[src as int].1,
    }
}

/// The bloom chain of frame slot `frame`: first every level is written from
/// the one above it (the scene for level 0), then from the smallest level up
/// each level is added into the one above it. Frame slot `frame` uses the
/// descriptor sets `frame * n` up to `(frame + 1) * n` for `n` levels.
pub fn plan_bloom(frame: usize, scene_width: u32, scene_height: u32, mips: &Vec<(u32, u32)>) -> (r: Vec<BloomStep>)
    requires
        mips.len() >= 1,
        frame * mips.len() + mips.len() <= usize::MAX,
    ensures
        r.len() == 2 * mips.len() - 1,
        forall|i: int|
            0 <= i < mips.len() ==> #[trigger] r[i] == bloom_down_step(
                frame as nat,
                (scene_width, scene_height),
                mips@,
                i as nat,
            ),
        forall|k: int|
            0 <= k < mips.len() - 1 ==> #[trigger] r[mips.len() + k] == bloom_up_step(frame as nat, mips@, k as nat),
        forall|i: int|
            0 <= i < r.len() ==> frame * mips.len() <= (#[trigger] r[i]).descriptor_set < (frame + 1) * mips.len(),
{
    let n = mips.len();
    assert(frame * n <= usize::MAX) by (nonlinear_arith)
        requires
            frame * n + n <= usize::MAX,
            n >= 1,
    ;
    let base: usize = frame * n;
    assert((frame + 1) * n == frame * n + n) by (nonlinear_arith);
    let mut r: Vec<BloomStep> = Vec::new();
    let mut src_w: u32 = scene_width;
    let mut src_h: u32 = scene_height;
    let mut i: usize = 0;
    while i < n
        invariant
            n == mips.len(),
            base == frame * n,
            base + n <= usize::MAX,
            i <= n,
            r.len() == i,
            src_w == (if i == 0 { scene_width } else { mips[i - 1].0 }),
            src_h == (if i == 0 { scene_height } else { mips[i - 1].1 }),
            forall|j: int|
                0 <= j < i ==> #[trigger] r[j] == bloom_down_step(
                    frame as nat,
                    (scene_width, scene_height),
                    mips@,
                    j as nat,
                ),
        decreases n - i,
    {
        let source = if i == 0 { BloomSource::Scene } else { BloomSource::Mip(i - 1) };
        r.push(
            BloomStep {
                upsample: false,
                source,
                target: i,
                descriptor_set: base + i,
                source_width: src_w,
                source_height: src_h,
            },
        );
        src_w = mips[i].0;
        src_h = mips[i].1;
        i = i + 1;
    }
    let mut k: usize = 0;
    while k + 1 < n
        invariant
            n == mips.len(),
            n >= 1,
            base == frame * n,
            base + n <= usize::MAX,
            k + 1 <= n,
            r.len() == n + k,
            forall|j: int|
                0 <= j < n ==> #[trigger] r[j] == bloom_down_step(
                    frame as nat,
                    (scene_width, scene_height),
                    mips@,
                    j as nat,
                ),
            forall|j: int| 0 <= j < k ==> #[trigger] r[n + j] == bloom_up_step(frame as nat, mips@, j as nat),
        decreases n - k,
    {
        let src = n - 1 - k;
        r.push(
            BloomStep {
                upsample: true,
                source: BloomSource::Mip(src),
                target: src - 1,
                descriptor_set: base + src,
                source_width: mips[src].0,
                source_height: mips[src].1,
            },
        );
        proof {
            assert(r[n + k as int] == bloom_up_step(frame as nat, mips@, k as nat));
        }
        k = k + 1;
    }
    assert forall|j: int| 0 <= j < r.len() implies frame * n <= (#[trigger] r[j]).descriptor_set < (frame + 1) * n by {
        if j < n {
            assert(r[j] == bloom_down_step(frame as nat, (scene_width, scene_height), mips@, j as nat));
        } else {
            assert(r[n + (j - n)] == bloom_up_step(frame as nat, mips@, (j - n) as nat));
        }
    }
    r
}

/// Combined image samplers the post-processing pool reserves for each
/// frame's final set.
pub const POST_PROCESS_SAMPLERS_PER_FRAME: u32 = 6;

/// The post-processing descriptor pool: one final set per frame in flight,
/// one bloom set per bloom level and frame in flight.
#[derive(Clone, Copy, Debug, PartialEq, Eq, Structural)]
pub struct PostProcessPool {
    pub image_samplers: u32,
    pub storage_buffers: u32,
    pub max_sets: u32,
    pub bloom_sets: u32,
}

/// The sizes of the post-processing descriptor pool.
pub fn post_process_pool() -> (r: PostProcessPool)
    ensures
        r.image_samplers == MAX_FRAMES_IN_FLIGHT * POST_PROCESS_SAMPLERS_PER_FRAME + BLOOM_MIP_COUNT * MAX_FRAMES_IN_FLIGHT,
        r.storage_buffers == MAX_FRAMES_IN_FLIGHT,
        r.max_sets == MAX_FRAMES_IN_FLIGHT + BLOOM_MIP_COUNT * MAX_FRAMES_IN_FLIGHT,
        r.bloom_sets == BLOOM_MIP_COUNT * MAX_FRAMES_IN_FLIGHT,
{
    let frames = MAX_FRAMES_IN_FLIGHT as u32;
    let bloom = BLOOM_MIP_COUNT as u32;
    PostProcessPool {
        image_samplers: frames * POST_PROCESS_SAMPLERS_PER_FRAME + bloom * frames,
        storage_buffers: frames,
        max_sets: frames + bloom * frames,
        bloom_sets: bloom * frames,
    }
}

/// The descriptor sets the depth pyramid needs: one per dispatch and frame
/// in flight, none for a single-level pyramid.
pub fn pyramid_descriptor_sets(levels: u32) -> (r: u32)
    requires
        levels <= 1 || (levels - 1) * MAX_FRAMES_IN_FLIGHT <= u32::MAX,
    ensures
        r == if levels > 1 {
            (levels - 1) * MAX_FRAMES_IN_FLIGHT
        } else {
            0
        },
{
    if levels > 1 {
        (levels - 1) * MAX_FRAMES_IN_FLIGHT as u32
    } else {
        0
    }
}

} // verus!
