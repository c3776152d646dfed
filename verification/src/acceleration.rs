//! Ray tracing acceleration structures: the cache of bottom-level structures
//! keyed by mesh, their eviction, and the instances of the top-level
//! structure built each frame.
use vstd::prelude::*;

use crate::vulkan;

verus! {

/// Identifies a bottom-level acceleration structure: the mesh and where its
/// vertices and indices start in the global buffers.
#[derive(Clone, Copy, Debug, PartialEq, Eq, Hash, Structural)]
pub struct BlasKey {
    pub mesh_id: u32,
    pub vertex_offset: i32,
    pub first_index: u32,
}

/// A cached bottom-level structure: its key, device address and the last
/// frame that used it.
#[derive(Clone, Copy, Debug, PartialEq, Eq, Structural)]
pub struct CachedBlas {
    pub key: BlasKey,
    pub address: u64,
    pub last_used: u64,
}

/// Frames a bottom-level structure may go unused before it is evicted.
pub const BLAS_EVICTION_AGE: u64 = 100;

/// A structure last used in frame `last_used` is stale in frame `current`
/// when more than the eviction age of frames have passed.
pub open spec fn is_stale(last_used: u64, current: u64) -> bool {
    current > last_used + BLAS_EVICTION_AGE
}

/// No two entries have the same key.
pub open spec fn keys_distinct(s: Seq<CachedBlas>) -> bool {
    forall|i: int, j: int| 0 <= i < j < s.len() ==> (#[trigger] s[i]).key != (#[trigger] s[j]).key
}

/// Some entry has key `k`.
pub open spec fn has_key(s: Seq<CachedBlas>, k: BlasKey) -> bool {
    exists|i: int| 0 <= i < s.len() && (#[trigger] s[i]).key == k
}

/// The entries as a map from key to (address, last frame used).
pub open spec fn entry_map(s: Seq<CachedBlas>) -> Map<BlasKey, (u64, u64)> {
    Map::new(
        |k: BlasKey| has_key(s, k),
        |k: BlasKey|
            {
                let i = choose|i: int| 0 <= i < s.len() && (#[trigger] s[i]).key == k;
                (s[i].address, s[i].last_used)
            },
    )
}

proof fn lemma_entry_map_at(s: Seq<CachedBlas>, i: int)
    requires
        keys_distinct(s),
        0 <= i < s.len(),
    ensures
        entry_map(s).dom().contains(s[i].key),
        entry_map(s)[s[i].key] == (s[i].address, s[i].last_used),
{
    let k = s[i].key;
    assert(has_key(s, k));
    let j = choose|j: int| 0 <= j < s.len() && (#[trigger] s[j]).key == k;
    if j != i {
        if j < i {
            assert(s[j].key != s[i].key);
        } else {
            assert(s[i].key != s[j].key);
        }
    }
}

proof fn lemma_entry_map_push(s: Seq<CachedBlas>, e: CachedBlas)
    requires
        keys_distinct(s),
        !has_key(s, e.key),
    ensures
        keys_distinct(s.push(e)),
        entry_map(s.push(e)) == entry_map(s).insert(e.key, (e.address, e.last_used)),
{
    let t = s.push(e);
    assert(keys_distinct(t)) by {
        assert forall|i: int, j: int| 0 <= i < j < t.len() implies (#[trigger] t[i]).key != (
        #[trigger] t[j]).key by {
            if j == s.len() {
                assert(t[i] == s[i]);
            } else {
                assert(t[i] == s[i] && t[j] == s[j]);
            }
        }
    }
    let m = entry_map(s).insert(e.key, (e.address, e.last_used));
    assert forall|k: BlasKey| #[trigger] entry_map(t).dom().contains(k) <==> m.dom().contains(k) by {
        if has_key(t, k) && k != e.key {
            let i = choose|i: int| 0 <= i < t.len() && (#[trigger] t[i]).key == k;
            assert(t[i] == s[i]);
        }
        if has_key(s, k) {
            let i = choose|i: int| 0 <= i < s.len() && (#[trigger] s[i]).key == k;
            assert(t[i] == s[i]);
        }
        if k == e.key {
            assert(t[s.len() as int] == e);
        }
    }
    assert forall|k: BlasKey| #[trigger] m.dom().contains(k) implies entry_map(t)[k] == m[k] by {
        if k == e.key {
            lemma_entry_map_at(t, s.len() as int);
        } else {
            let i = choose|i: int| 0 <= i < s.len() && (#[trigger] s[i]).key == k;
            assert(t[i] == s[i]);
            lemma_entry_map_at(t, i);
            lemma_entry_map_at(s, i);
        }
    }
    assert(entry_map(t) =~= m);
}

proof fn lemma_entry_map_update(s: Seq<CachedBlas>, i: int, e: CachedBlas)
    requires
        keys_distinct(s),
        0 <= i < s.len(),
        e.key == s[i].key,
    ensures
        keys_distinct(s.update(i, e)),
        entry_map(s.update(i, e)) == entry_map(s).insert(e.key, (e.address, e.last_used)),
{
    let t = s.update(i, e);
    assert(keys_distinct(t)) by {
        assert forall|a: int, b: int| 0 <= a < b < t.len() implies (#[trigger] t[a]).key != (
        #[trigger] t[b]).key by {
            assert(s[a].key != s[b].key);
        }
    }
    let m = entry_map(s).insert(e.key, (e.address, e.last_used));
    assert forall|k: BlasKey| #[trigger] entry_map(t).dom().contains(k) <==> m.dom().contains(k) by {
        if has_key(t, k) {
            let j = choose|j: int| 0 <= j < t.len() && (#[trigger] t[j]).key == k;
            assert(s[j].key == k);
        }
        if has_key(s, k) {
            let j = choose|j: int| 0 <= j < s.len() && (#[trigger] s[j]).key == k;
            assert(t[j].key == k);
        }
        if k == e.key {
            assert(s[i].key == k);
        }
    }
    assert forall|k: BlasKey| #[trigger] m.dom().contains(k) implies entry_map(t)[k] == m[k] by {
        if k == e.key {
            lemma_entry_map_at(t, i);
        } else {
            let j = choose|j: int| 0 <= j < s.len() && (#[trigger] s[j]).key == k;
            assert(t[j] == s[j]);
            lemma_entry_map_at(t, j);
            lemma_entry_map_at(s, j);
        }
    }
    assert(entry_map(t) =~= m);
}

/// The cache of bottom-level acceleration structures, one per key.
pub struct BlasCache {
    entries: Vec<CachedBlas>,
}

impl View for BlasCache {
    type V = Map<BlasKey, (u64, u64)>;

    /// Each cached key with its structure's device address and the last
    /// frame that used it.
    closed spec fn view(&self) -> Map<BlasKey, (u64, u64)> {
        entry_map(self.entries@)
    }
}

impl BlasCache {
    /// The cache holds each key once.
    #[verifier::type_invariant]
    spec fn wf(&self) -> bool {
        keys_distinct(self.entries@)
    }

    /// An empty cache.
    pub fn new() -> (r: Self)
        ensures
            r@ == Map::<BlasKey, (u64, u64)>::empty(),
    {
        let r = BlasCache { entries: Vec::new() };
        assert(r@ =~= Map::<BlasKey, (u64, u64)>::empty());
        r
    }

    /// The number of cached structures.
    pub fn len(&self) -> (r: usize)
        ensures
            r == self@.len(),
    {
        proof {
            use_type_invariant(self);
        }
        proof {
            self.lemma_len();
        }
        self.entries.len()
    }

    proof fn lemma_len(&self)
        requires
            self.wf(),
        ensures
            self.entries.len() == self@.len(),
    {
        let s = self.entries@;
        let keys = s.map_values(|e: CachedBlas| e.key);
        assert(keys.no_duplicates()) by {
            assert forall|i: int, j: int| 0 <= i < keys.len() && 0 <= j < keys.len() && i != j implies keys[i]
                != keys[j] by {
                if i < j {
                    assert(s[i].key != s[j].key);
                } else {
                    assert(s[j].key != s[i].key);
                }
            }
        }
        keys.unique_seq_to_set();
        assert(keys.to_set() =~= self@.dom()) by {
            assert forall|k: BlasKey| keys.to_set().contains(k) <==> self@.dom().contains(k) by {
                if keys.to_set().contains(k) {
                    let i = choose|i: int| 0 <= i < keys.len() && keys[i] == k;
                    assert(s[i].key == k);
                }
                if self@.dom().contains(k) {
                    let i = choose|i: int| 0 <= i < s.len() && (#[trigger] s[i]).key == k;
                    assert(keys[i] == k);
                }
            }
        }
    }

    fn position(&self, key: BlasKey) -> (r: Option<usize>)
        requires
            self.wf(),
        ensures
            r matches Some(i) ==> i < self.entries.len() && self.entries@[i as int].key == key,
            r is None ==> !has_key(self.entries@, key),
    {
        let mut i: usize = 0;
        while i < self.entries.len()
            invariant
                i <= self.entries.len(),
                forall|j: int| 0 <= j < i ==> (#[trigger] self.entries@[j]).key != key,
            decreases self.entries.len() - i,
        {
            if self.entries[i].key == key {
                return Some(i);
            }
            i = i + 1;
        }
        None
    }

    /// The device address of the structure cached for `key`, if any.
    pub fn lookup(&self, key: BlasKey) -> (r: Option<u64>)
        ensures
            r == if self@.dom().contains(key) {
                Some(self@[key].0)
            } else {
                None::<u64>
            },
    {
        proof {
            use_type_invariant(self);
        }
        match self.position(key) {
            Some(i) => {
                proof {
                    lemma_entry_map_at(self.entries@, i as int);
                }
                Some(self.entries[i].address)
            },
            None => None,
        }
    }

    /// Caches the structure built for `key` at `address`, as used in frame
    /// `frame`.
    pub fn insert(&mut self, key: BlasKey, address: u64, frame: u64)
        ensures
            final(self)@ == old(self)@.insert(key, (address, frame)),
    {
        proof {
            use_type_invariant(&*self);
        }
        let e = CachedBlas { key, address, last_used: frame };
        let pos = self.position(key);
        let mut entries: Vec<CachedBlas> = Vec::new();
        std::mem::swap(&mut entries, &mut self.entries);
        match pos {
            Some(i) => {
                proof {
                    lemma_entry_map_update(entries@, i as int, e);
                }
                entries.set(i, e);
            },
            None => {
                proof {
                    lemma_entry_map_push(entries@, e);
                }
                entries.push(e);
            },
        }
        self.entries = entries;
    }

    /// Records that the structure cached for `key`, if any, is used in
    /// frame `frame`.
    pub fn mark_used(&mut self, key: BlasKey, frame: u64)
        ensures
            final(self)@ == if old(self)@.dom().contains(key) {
                old(self)@.insert(key, (old(self)@[key].0, frame))
            } else {
                old(self)@
            },
    {
        proof {
            use_type_invariant(&*self);
        }
        match self.position(key) {
            Some(i) => {
                let old_e = self.entries[i];
                let e = CachedBlas { key, address: old_e.address, last_used: frame };
                let mut entries: Vec<CachedBlas> = Vec::new();
                std::mem::swap(&mut entries, &mut self.entries);
                proof {
                    lemma_entry_map_at(entries@, i as int);
                    lemma_entry_map_update(entries@, i as int, e);
                }
                entries.set(i, e);
                self.entries = entries;
            },
            None => {},
        }
    }

    /// Evicts every structure that is stale in frame `current`, and returns
    /// the keys evicted, each once. All other structures stay as they were.
    pub fn evict_unused(&mut self, current: u64) -> (r: Vec<BlasKey>)
        ensures
            final(self)@ == old(self)@.restrict(
                Set::new(|k: BlasKey| old(self)@.dom().contains(k) && !is_stale(old(self)@[k].1, current)),
            ),
            forall|k: BlasKey|
                r@.contains(k) <==> old(self)@.dom().contains(k) && is_stale(old(self)@[k].1, current),
            r@.no_duplicates(),
    {
        proof {
            use_type_invariant(&*self);
        }
        let ghost s = self.entries@;
        let mut kept: Vec<CachedBlas> = Vec::new();
        let mut evicted: Vec<BlasKey> = Vec::new();
        let ghost mut idx: Seq<int> = Seq::empty();
        let ghost mut eidx: Seq<int> = Seq::empty();
        let mut i: usize = 0;
        while i < self.entries.len()
            invariant
                s == self.entries@,
                keys_distinct(s),
                i <= s.len(),
                idx.len() == kept.len(),
                eidx.len() == evicted.len(),
                forall|t: int| 0 <= t < idx.len() ==> 0 <= #[trigger] idx[t] < i,
                forall|t: int| 0 <= t < eidx.len() ==> 0 <= #[trigger] eidx[t] < i,
                forall|a: int, b: int| 0 <= a < b < idx.len() ==> #[trigger] idx[a] < #[trigger] idx[b],
                forall|a: int, b: int| 0 <= a < b < eidx.len() ==> #[trigger] eidx[a] < #[trigger] eidx[b],
                forall|t: int| 0 <= t < kept.len() ==> #[trigger] kept@[t] == s[idx[t]],
                forall|t: int| 0 <= t < evicted.len() ==> #[trigger] evicted@[t] == s[eidx[t]].key,
                forall|t: int| 0 <= t < kept.len() ==> !is_stale((#[trigger] kept@[t]).last_used, current),
                forall|t: int| 0 <= t < evicted.len() ==> is_stale(s[#[trigger] eidx[t]].last_used, current),
                forall|m: int|
                    0 <= m < i && !is_stale((#[trigger] s[m]).last_used, current) ==> exists|t: int|
                        0 <= t < idx.len() && idx[t] == m,
                forall|m: int|
                    0 <= m < i && is_stale((#[trigger] s[m]).last_used, current) ==> exists|t: int|
                        0 <= t < eidx.len() && eidx[t] == m,
            decreases s.len() - i,
        {
            let e = self.entries[i];
            let stale = current > BLAS_EVICTION_AGE && current - BLAS_EVICTION_AGE > e.last_used;
            assert(stale == is_stale(s[i as int].last_used, current));
            let ghost old_idx = idx;
            let ghost old_eidx = eidx;
            if stale {
                evicted.push(e.key);
                proof {
                    eidx = eidx.push(i as int);
                }
            } else {
                kept.push(e);
                proof {
                    idx = idx.push(i as int);
                }
            }
            proof {
                assert forall|m: int|
                    0 <= m < i + 1 && !is_stale((#[trigger] s[m]).last_used, current) implies exists|t: int|
                        0 <= t < idx.len() && idx[t] == m by {
                    if m == i {
                        assert(idx[idx.len() - 1] == m);
                    } else {
                        let t = choose|t: int| 0 <= t < old_idx.len() && old_idx[t] == m;
                        assert(idx[t] == m);
                    }
                }
                assert forall|m: int|
                    0 <= m < i + 1 && is_stale((#[trigger] s[m]).last_used, current) implies exists|t: int|
                        0 <= t < eidx.len() && eidx[t] == m by {
                    if m == i {
                        assert(eidx[eidx.len() - 1] == m);
                    } else {
                        let t = choose|t: int| 0 <= t < old_eidx.len() && old_eidx[t] == m;
                        assert(eidx[t] == m);
                    }
                }
            }
            i = i + 1;
        }
        let ghost old_map = entry_map(s);
        proof {
            assert(keys_distinct(kept@)) by {
                assert forall|a: int, b: int| 0 <= a < b < kept@.len() implies (#[trigger] kept@[a]).key != (
                #[trigger] kept@[b]).key by {
                    assert(idx[a] < idx[b]);
                }
            }
            assert forall|k: BlasKey| #[trigger] entry_map(kept@).dom().contains(k) <==> (old_map.dom().contains(k)
                && !is_stale(old_map[k].1, current)) by {
                if has_key(kept@, k) {
                    let t = choose|t: int| 0 <= t < kept@.len() && (#[trigger] kept@[t]).key == k;
                    lemma_entry_map_at(s, idx[t]);
                }
                if old_map.dom().contains(k) && !is_stale(old_map[k].1, current) {
                    let m = choose|m: int| 0 <= m < s.len() && (#[trigger] s[m]).key == k;
                    lemma_entry_map_at(s, m);
                    let t = choose|t: int| 0 <= t < idx.len() && idx[t] == m;
                    assert(kept@[t].key == k);
                }
            }
            assert forall|k: BlasKey| #[trigger] entry_map(kept@).dom().contains(k) implies entry_map(kept@)[k]
                == old_map[k] by {
                let t = choose|t: int| 0 <= t < kept@.len() && (#[trigger] kept@[t]).key == k;
                lemma_entry_map_at(kept@, t);
                lemma_entry_map_at(s, idx[t]);
            }
            assert(entry_map(kept@) =~= old_map.restrict(
                Set::new(|k: BlasKey| old_map.dom().contains(k) && !is_stale(old_map[k].1, current)),
            ));
            assert forall|k: BlasKey| evicted@.contains(k) <==> old_map.dom().contains(k) && is_stale(
                old_map[k].1,
                current,
            ) by {
                if evicted@.contains(k) {
                    let t = choose|t: int| 0 <= t < evicted@.len() && evicted@[t] == k;
                    lemma_entry_map_at(s, eidx[t]);
                }
                if old_map.dom().contains(k) && is_stale(old_map[k].1, current) {
                    let m = choose|m: int| 0 <= m < s.len() && (#[trigger] s[m]).key == k;
                    lemma_entry_map_at(s, m);
                    let t = choose|t: int| 0 <= t < eidx.len() && eidx[t] == m;
                    assert(evicted@[t] == k);
                }
            }
            assert(evicted@.no_duplicates()) by {
                assert forall|a: int, b: int| 0 <= a < evicted@.len() && 0 <= b < evicted@.len() && a != b implies evicted@[a]
                    != evicted@[b] by {
                    if a < b {
                        assert(eidx[a] < eidx[b]);
                        assert(s[eidx[a]].key != s[eidx[b]].key);
                    } else {
                        assert(eidx[b] < eidx[a]);
                        assert(s[eidx[b]].key != s[eidx[a]].key);
                    }
                }
            }
        }
        self.entries = kept;
        evicted
    }

    /// Which meshes need a bottom-level structure built before this frame's
    /// top-level structure: each mesh whose key is not cached and that is the
    /// first mesh with its key, in mesh order.
    pub fn blas_builds_needed(&self, meshes: &Vec<BlasKey>) -> (r: Vec<usize>)
        ensures
            forall|i: int| 0 <= i < meshes.len() ==> (r@.contains(i as usize) <==> needs_build(self@, meshes@, i)),
            forall|t: int| 0 <= t < r.len() ==> #[trigger] r[t] < meshes.len(),
            forall|a: int, b: int| 0 <= a < b < r.len() ==> #[trigger] r[a] < #[trigger] r[b],
    {
        proof {
            use_type_invariant(self);
        }
        let mut r: Vec<usize> = Vec::new();
        let mut i: usize = 0;
        while i < meshes.len()
            invariant
                i <= meshes.len(),
                forall|m: int| 0 <= m < i ==> (r@.contains(m as usize) <==> needs_build(self@, meshes@, m)),
                forall|t: int| 0 <= t < r.len() ==> #[trigger] r[t] < i,
                forall|a: int, b: int| 0 <= a < b < r.len() ==> #[trigger] r[a] < #[trigger] r[b],
            decreases meshes.len() - i,
        {
            let key = meshes[i];
            let cached = self.lookup(key).is_some();
            let mut seen = false;
            let mut j: usize = 0;
            while j < i
                invariant
                    i < meshes.len(),
                    j <= i,
                    key == meshes@[i as int],
                    seen <==> exists|k: int| 0 <= k < j && meshes@[k] == key,
                decreases i - j,
            {
                if meshes[j] == key {
                    seen = true;
                }
                j = j + 1;
            }
            let ghost old_r = r@;
            if !cached && !seen {
                r.push(i);
            }
            proof {
                assert forall|m: int| 0 <= m < i + 1 implies (r@.contains(m as usize) <==> needs_build(
                    self@,
                    meshes@,
                    m,
                )) by {
                    if m < i {
                        if r@.contains(m as usize) && !old_r.contains(m as usize) {
                            assert(r@.last() == i);
                        }
                        if old_r.contains(m as usize) {
                            let t = choose|t: int| 0 <= t < old_r.len() && old_r[t] == m as usize;
                            assert(r@[t] == m as usize);
                        }
                    } else {
                        if !cached && !seen {
                            assert(r@[r@.len() - 1] == i);
                        } else {
                            assert(!old_r.contains(i));
                        }
                    }
                }
            }
            i = i + 1;
        }
        r
    }

    /// The instances of this frame's top-level structure, one per mesh and in
    /// mesh order, each pointing at its mesh's cached structure; every
    /// structure a mesh uses is marked as used in `frame`.
    pub fn build_tlas_instances(&mut self, meshes: &Vec<BlasKey>, frame: u64) -> (r: Vec<TlasInstance>)
        requires
            meshes.len() <= u32::MAX,
            forall|i: int| 0 <= i < meshes.len() ==> old(self)@.dom().contains(#[trigger] meshes@[i]),
        ensures
            r.len() == meshes.len(),
            forall|i: int| 0 <= i < meshes.len() ==> #[trigger] r[i] == tlas_instance_for(i, old(self)@[meshes@[i]].0),
            final(self)@ == marked_used(old(self)@, meshes@, frame),
    {
        proof {
            use_type_invariant(&*self);
        }
        let ghost m0 = self@;
        let mut r: Vec<TlasInstance> = Vec::new();
        let mut i: usize = 0;
        while i < meshes.len()
            invariant
                meshes.len() <= u32::MAX,
                i <= meshes.len(),
                forall|k: int| 0 <= k < meshes.len() ==> m0.dom().contains(#[trigger] meshes@[k]),
                self@ == marked_used(m0, meshes@.take(i as int), frame),
                r.len() == i,
                forall|k: int| 0 <= k < i ==> #[trigger] r[k] == tlas_instance_for(k, m0[meshes@[k]].0),
            decreases meshes.len() - i,
        {
            let key = meshes[i];
            let address = match self.lookup(key) {
                Some(a) => a,
                None => {
                    assert(false);
                    0
                },
            };
            self.mark_used(key, frame);
            r.push(tlas_instance(i as u32, address));
            proof {
                let t0 = meshes@.take(i as int);
                let t1 = meshes@.take(i + 1);
                assert(t1 == t0.push(key));
                assert forall|k: BlasKey| t1.contains(k) <==> (t0.contains(k) || k == key) by {
                    if t1.contains(k) {
                        let idx = choose|idx: int| 0 <= idx < t1.len() && t1[idx] == k;
                        if idx < t0.len() {
                            assert(t0[idx] == k);
                        }
                    }
                    if t0.contains(k) {
                        let idx = choose|idx: int| 0 <= idx < t0.len() && t0[idx] == k;
                        assert(t1[idx] == k);
                    }
                    if k == key {
                        assert(t1[t0.len() as int] == k);
                    }
                }
                assert(self@ =~= marked_used(m0, t1, frame));
            }
            i = i + 1;
        }
        proof {
            assert(meshes@.take(meshes.len() as int) == meshes@);
        }
        r
    }
}

/// The cache `m` after the structures built for the first `k` planned meshes
/// are cached: the structure for mesh `planned[t]` at address `built[t]`,
/// as used in `frame`.
pub open spec fn with_built(
    m: Map<BlasKey, (u64, u64)>,
    meshes: Seq<BlasKey>,
    planned: Seq<usize>,
    built: Seq<u64>,
    frame: u64,
    k: nat,
) -> Map<BlasKey, (u64, u64)>
    decreases k,
{
    if k == 0 {
        m
    } else {
        with_built(m, meshes, planned, built, frame, (k - 1) as nat).insert(
            meshes[planned[k - 1] as int],
            (built[k - 1], frame),
        )
    }
}

proof fn lemma_with_built_covers(
    m: Map<BlasKey, (u64, u64)>,
    meshes: Seq<BlasKey>,
    planned: Seq<usize>,
    built: Seq<u64>,
    frame: u64,
    k: nat,
)
    ensures
        m.dom().subset_of(with_built(m, meshes, planned, built, frame, k).dom()),
        forall|t: int| 0 <= t < k ==> with_built(m, meshes, planned, built, frame, k).dom().contains(
            meshes[#[trigger] planned[t] as int],
        ),
    decreases k,
{
    if k > 0 {
        lemma_with_built_covers(m, meshes, planned, built, frame, (k - 1) as nat);
    }
}

impl BlasCache {
    /// Caches the bottom-level structures built for this frame, the one for
    /// mesh `planned[t]` at address `built[t]`, where `planned` lists the
    /// meshes that needed one; then lays out the frame's top-level instances
    /// over the cache, as `build_tlas_instances` does.
    pub fn cache_built_and_build_tlas(
        &mut self,
        meshes: &Vec<BlasKey>,
        planned: &Vec<usize>,
        built: &Vec<u64>,
        frame: u64,
    ) -> (r: Vec<TlasInstance>)
        requires
            meshes.len() <= u32::MAX,
            built.len() == planned.len(),
            forall|t: int| 0 <= t < planned.len() ==> #[trigger] planned[t] < meshes.len(),
            forall|i: int| 0 <= i < meshes.len() && needs_build(old(self)@, meshes@, i) ==> planned@.contains(i as usize),
        ensures
            ({
                let cached = with_built(old(self)@, meshes@, planned@, built@, frame, planned@.len());
                &&& r.len() == meshes.len()
                &&& forall|i: int| 0 <= i < meshes.len() ==> #[trigger] r[i] == tlas_instance_for(i, cached[meshes@[i]].0)
                &&& final(self)@ == marked_used(cached, meshes@, frame)
            }),
    {
        proof {
            use_type_invariant(&*self);
        }
        let ghost m0 = self@;
        let mut t: usize = 0;
        while t < planned.len()
            invariant
                t <= planned.len(),
                built.len() == planned.len(),
                forall|q: int| 0 <= q < planned.len() ==> #[trigger] planned[q] < meshes.len(),
                self@ == with_built(m0, meshes@, planned@, built@, frame, t as nat),
            decreases planned.len() - t,
        {
            self.insert(meshes[planned[t]], built[t], frame);
            t = t + 1;
        }
        proof {
            let after = with_built(m0, meshes@, planned@, built@, frame, planned@.len());
            lemma_with_built_covers(m0, meshes@, planned@, built@, frame, planned@.len());
            assert forall|i: int| 0 <= i < meshes.len() && needs_build(m0, meshes@, i) implies after.dom().contains(
                #[trigger] meshes@[i],
            ) by {
                let q = choose|q: int| 0 <= q < planned@.len() && planned@[q] == i as usize;
                assert(after.dom().contains(meshes@[planned[q] as int]));
            }
            lemma_planned_builds_cover(m0, after, meshes@);
        }
        self.build_tlas_instances(meshes, frame)
    }
}

/// Mesh `i` of `meshes` needs its structure built: its key is not in the
/// cache `m` and no earlier mesh has the same key.
pub open spec fn needs_build(m: Map<BlasKey, (u64, u64)>, meshes: Seq<BlasKey>, i: int) -> bool {
    &&& !m.dom().contains(meshes[i])
    &&& forall|j: int| 0 <= j < i ==> meshes[j] != meshes[i]
}

/// The cache `m` after each structure that a key of `keys` names is marked
/// as used in `frame`.
pub open spec fn marked_used(m: Map<BlasKey, (u64, u64)>, keys: Seq<BlasKey>, frame: u64) -> Map<
    BlasKey,
    (u64, u64),
> {
    Map::new(
        |k: BlasKey| m.dom().contains(k),
        |k: BlasKey|
            if keys.contains(k) {
                (m[k].0, frame)
            } else {
                m[k]
            },
    )
}

/// One instance of the top-level acceleration structure, with the packed
/// fields as Vulkan reads them.
#[derive(Clone, Copy, Debug, PartialEq, Eq, Structural)]
pub struct TlasInstance {
    /// The 24-bit custom index the shaders read: the mesh's position.
    pub custom_index: u32,
    /// The 8-bit visibility mask.
    pub mask: u8,
    /// The 24-bit shader binding table record offset.
    pub sbt_record_offset: u32,
    /// The 8-bit instance flags.
    pub flags: u8,
    /// The device address of the instance's bottom-level structure.
    pub blas_address: u64,
}

/// The visibility mask of every instance: visible to all rays.
pub const TLAS_INSTANCE_MASK: u8 = 0xff;

/// The instance of mesh `i` whose structure is at `address`: custom index
/// `i` (in 24 bits), full mask, the first hit group, and back-face culling
/// off.
pub open spec fn tlas_instance_for(i: int, address: u64) -> TlasInstance {
    TlasInstance {
        custom_index: (i % 0x100_0000) as u32,
        mask: TLAS_INSTANCE_MASK,
        sbt_record_offset: 0,
        flags: vulkan::GEOMETRY_INSTANCE_TRIANGLE_FACING_CULL_DISABLE as u8,
        blas_address: address,
    }
}

/// The instance record of mesh `index` whose bottom-level structure is at
/// `address`, its index and mask packed as Vulkan packs them.
pub fn tlas_instance(index: u32, address: u64) -> (r: TlasInstance)
    ensures
        r == tlas_instance_for(index as int, address),
{
    let (custom_index, mask) = packed_24_8(index, TLAS_INSTANCE_MASK);
    let (sbt_record_offset, flags) = packed_24_8(0, vulkan::GEOMETRY_INSTANCE_TRIANGLE_FACING_CULL_DISABLE as u8);
    TlasInstance { custom_index, mask, sbt_record_offset, flags, blas_address: address }
}

/// `ash::vk::Packed24_8::new(low_24, high_8)` read back through its
/// `low_24` and `high_8` accessors: ash keeps the low 24 bits of `low_24`
/// and all of `high_8`.
#[verifier::external_body]
fn packed_24_8(low_24: u32, high_8: u8) -> (r: (u32, u8))
    ensures
        r.0 == low_24 % 0x100_0000,
        r.1 == high_8,
{
    let p = ash::vk::Packed24_8::new(low_24, high_8);
    (p.low_24(), p.high_8())
}

/// A structure used in frame `used` survives every eviction up to the
/// frame `used + BLAS_EVICTION_AGE`, unchanged.
pub proof fn lemma_recently_used_survives(m: Map<BlasKey, (u64, u64)>, key: BlasKey, used: u64, current: u64)
    requires
        m.dom().contains(key),
        m[key].1 == used,
        current <= used + BLAS_EVICTION_AGE,
    ensures
        ({
            let kept = m.restrict(Set::new(|k: BlasKey| m.dom().contains(k) && !is_stale(m[k].1, current)));
            kept.dom().contains(key) && kept[key] == m[key]
        }),
{
}

/// Once the structures of the meshes that need one are built and cached,
/// every mesh has a cached structure.
pub proof fn lemma_planned_builds_cover(
    before: Map<BlasKey, (u64, u64)>,
    after: Map<BlasKey, (u64, u64)>,
    meshes: Seq<BlasKey>,
)
    requires
        before.dom().subset_of(after.dom()),
        forall|i: int| 0 <= i < meshes.len() && needs_build(before, meshes, i) ==> after.dom().contains(
            #[trigger] meshes[i],
        ),
    ensures
        forall|i: int| 0 <= i < meshes.len() ==> after.dom().contains(#[trigger] meshes[i]),
{
    assert forall|i: int| 0 <= i < meshes.len() implies after.dom().contains(#[trigger] meshes[i]) by {
        if !before.dom().contains(meshes[i]) {
            // The first mesh with this key is one that needed a build.
            let first = first_occurrence(meshes, i);
            assert(needs_build(before, meshes, first));
        }
    }
}

proof fn first_occurrence(s: Seq<BlasKey>, i: int) -> (j: int)
    requires
        0 <= i < s.len(),
    ensures
        0 <= j <= i,
        s[j] == s[i],
        forall|l: int| 0 <= l < j ==> s[l] != s[i],
    decreases i,
{
    if exists|l: int| 0 <= l < i && s[l] == s[i] {
        let l = choose|l: int| 0 <= l < i && s[l] == s[i];
        first_occurrence(s, l)
    } else {
        i
    }
}

/// Where a bottom-level structure reads its triangles.
#[derive(Clone, Copy, Debug, PartialEq, Eq, Structural)]
pub struct BlasGeometry {
    pub vertex_address: u64,
    pub index_address: u64,
    pub max_vertex: u32,
    pub primitive_count: u32,
}

/// Bytes of one 32-bit index.
pub const INDEX_SIZE: u64 = 4;

/// The triangle input of a mesh's bottom-level structure: its vertices start
/// `vertex_offset` vertices into the global vertex buffer (the offset read as
/// an unsigned 64-bit number, as Vulkan addresses are), its indices
/// `first_index` 32-bit indices into the global index buffer, and every
/// three indices make one triangle.
pub fn blas_geometry(
    vertex_buffer_address: u64,
    index_buffer_address: u64,
    vertex_stride: u64,
    vertex_offset: i32,
    first_index: u32,
    vertex_count: u32,
    index_count: u32,
) -> (r: BlasGeometry)
    requires
        (vertex_offset as u64) * vertex_stride <= u64::MAX,
        vertex_buffer_address + (vertex_offset as u64) * vertex_stride <= u64::MAX,
        index_buffer_address + first_index * INDEX_SIZE <= u64::MAX,
    ensures
        r.vertex_address == vertex_buffer_address + (vertex_offset as u64) * vertex_stride,
        r.index_address == index_buffer_address + first_index * INDEX_SIZE,
        r.max_vertex == vertex_count,
        r.primitive_count == index_count / 3,
{
    let offset = vertex_offset as u64;
    BlasGeometry {
        vertex_address: vertex_buffer_address + offset * vertex_stride,
        index_address: index_buffer_address + first_index as u64 * INDEX_SIZE,
        max_vertex: vertex_count,
        primitive_count: index_count / 3,
    }
}

/// Bytes of one top-level instance record.
pub const TLAS_INSTANCE_SIZE: u64 = 64;

/// Bytes of the buffer that holds `count` instance records.
pub fn tlas_instance_buffer_size(count: usize) -> (r: u64)
    requires
        count * TLAS_INSTANCE_SIZE <= u64::MAX,
    ensures
        r == count * TLAS_INSTANCE_SIZE,
{
    count as u64 * TLAS_INSTANCE_SIZE
}

} // verus!
