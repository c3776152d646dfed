//! Slot allocation in the global bindless texture array.
use vstd::prelude::*;

verus! {

/// The model of the bindless slot allocator: the next never-used slot, the
/// freed slots in the order they were returned, and the number of slots.
pub struct BindlessView {
    pub next_index: nat,
    pub free_indices: Seq<u32>,
    pub max_descriptors: u32,
}

impl BindlessView {
    /// Slots handed out and not returned.
    pub open spec fn live(self) -> Set<u32> {
        Set::new(|i: u32| i < self.next_index && !self.free_indices.contains(i))
    }

    /// The freed slots are distinct slots handed out before, and no slot past
    /// the end of the array was ever handed out.
    pub open spec fn wf(self) -> bool {
        &&& self.next_index <= self.max_descriptors
        &&& self.free_indices.no_duplicates()
        &&& forall|k: int| 0 <= k < self.free_indices.len() ==> #[trigger] self.free_indices[k] < self.next_index
    }

    /// A slot can be handed out without running past the array.
    pub open spec fn can_allocate(self) -> bool {
        self.free_indices.len() > 0 || self.next_index < self.max_descriptors
    }
}

/// Hands out indices into the global bindless descriptor array, recycling
/// returned indices first.
pub struct BindlessManager {
    next_index: u32,
    free_indices: Vec<u32>,
    max_descriptors: u32,
}

impl View for BindlessManager {
    type V = BindlessView;

    closed spec fn view(&self) -> BindlessView {
        BindlessView {
            next_index: self.next_index as nat,
            free_indices: self.free_indices@,
            max_descriptors: self.max_descriptors,
        }
    }
}

impl BindlessManager {
    /// An allocator for an array of `max_descriptors` slots, none handed out.
    pub fn new(max_descriptors: u32) -> (r: Self)
        ensures
            r@ == (BindlessView { next_index: 0, free_indices: Seq::empty(), max_descriptors }),
            r@.wf(),
            r@.live() == Set::<u32>::empty(),
    {
        let r = BindlessManager { next_index: 0, free_indices: Vec::new(), max_descriptors };
        proof {
            assert(r@.live() =~= Set::<u32>::empty());
        }
        r
    }

    /// The number of slots in the array.
    pub fn max_descriptors(&self) -> (r: u32)
        ensures
            r == self@.max_descriptors,
    {
        self.max_descriptors
    }

    /// Whether a slot can be handed out: a returned slot is waiting, or the
    /// array has a slot never used.
    pub fn can_allocate(&self) -> (r: bool)
        ensures
            r == self@.can_allocate(),
    {
        self.free_indices.len() > 0 || self.next_index < self.max_descriptors
    }

    /// Hands out a slot: the most recently returned one, else the next slot
    /// never used. Under a well-formed state the slot is not live, and
    /// becomes live.
    pub fn allocate_index(&mut self) -> (r: u32)
        requires
            old(self)@.can_allocate(),
        ensures
            old(self)@.free_indices.len() > 0 ==> {
                &&& r == old(self)@.free_indices.last()
                &&& final(self)@ == (BindlessView {
                    free_indices: old(self)@.free_indices.drop_last(),
                    ..old(self)@
                })
            },
            old(self)@.free_indices.len() == 0 ==> {
                &&& r == old(self)@.next_index
                &&& final(self)@ == (BindlessView { next_index: old(self)@.next_index + 1, ..old(self)@ })
            },
            old(self)@.wf() ==> {
                &&& final(self)@.wf()
                &&& r < old(self)@.max_descriptors
                &&& !old(self)@.live().contains(r)
                &&& final(self)@.live() == old(self)@.live().insert(r)
            },
    {
        let ghost v = self@;
        match self.free_indices.pop() {
            Some(idx) => {
                proof {
                    if v.wf() {
                        let f = v.free_indices;
                        assert(f.last() == idx);
                        assert(!f.drop_last().contains(idx)) by {
                            if f.drop_last().contains(idx) {
                                let q = choose|q: int| 0 <= q < f.drop_last().len() && f.drop_last()[q] == idx;
                                assert(f[q] == f[f.len() - 1]);
                            }
                        }
                        assert(self@.live() =~= v.live().insert(idx)) by {
                            assert forall|i: u32| #[trigger] self@.live().contains(i) == v.live().insert(idx).contains(i) by {
                                if i != idx {
                                    if f.contains(i) {
                                        let q = choose|q: int| 0 <= q < f.len() && f[q] == i;
                                        assert(q < f.len() - 1);
                                        assert(f.drop_last()[q] == i);
                                    }
                                    if f.drop_last().contains(i) {
                                        let q = choose|q: int| 0 <= q < f.drop_last().len() && f.drop_last()[q] == i;
                                        assert(f[q] == i);
                                    }
                                }
                            }
                        }
                        assert(f.contains(idx)) by {
                            assert(f[f.len() - 1] == idx);
                        }
                        assert(idx < v.next_index) by {
                            assert(f[f.len() - 1] < v.next_index);
                        }
                    }
                }
                idx
            },
            None => {
                let idx = self.next_index;
                self.next_index = idx + 1;
                proof {
                    if v.wf() {
                        assert(self@.live() =~= v.live().insert(idx));
                    }
                }
                idx
            },
        }
    }

    /// Returns slot `index` for reuse. Under a well-formed state, returning
    /// a live slot keeps the state well-formed and the slot stops being live.
    pub fn deallocate_index(&mut self, index: u32)
        ensures
            final(self)@ == (BindlessView {
                free_indices: old(self)@.free_indices.push(index),
                ..old(self)@
            }),
            old(self)@.wf() && old(self)@.live().contains(index) ==> {
                &&& final(self)@.wf()
                &&& final(self)@.live() == old(self)@.live().remove(index)
            },
    {
        let ghost v = self@;
        self.free_indices.push(index);
        proof {
            if v.wf() && v.live().contains(index) {
                let f2 = v.free_indices.push(index);
                assert(self@.free_indices == f2);
                assert forall|a: int, b: int| 0 <= a < f2.len() && 0 <= b < f2.len() && a != b implies f2[a] != f2[b] by {
                    if a == f2.len() - 1 {
                        assert(v.free_indices[b] != index);
                    } else if b == f2.len() - 1 {
                        assert(v.free_indices[a] != index);
                    }
                }
                assert(self@.live() =~= v.live().remove(index)) by {
                    assert forall|i: u32| #[trigger] self@.live().contains(i) == v.live().remove(index).contains(i) by {
                        if f2.contains(i) && i != index {
                            let q = choose|q: int| 0 <= q < f2.len() && f2[q] == i;
                            assert(v.free_indices[q] == i);
                        }
                        if v.free_indices.contains(i) {
                            let q = choose|q: int| 0 <= q < v.free_indices.len() && v.free_indices[q] == i;
                            assert(f2[q] == i);
                        }
                        assert(f2[f2.len() - 1] == index);
                    }
                }
            }
        }
    }
}

} // verus!
