//! Giving slots to places of the window and taking them back.
use vstd::prelude::*;
use vstd::set_lib::{lemma_int_range, lemma_len_subset, lemma_map_size, set_int_range};
use crate::scene::terrain::{Terrain, CHUNKS_ARRAY_SIZE};

verus! {

impl Terrain {
    /// The place of the window that slot `s` holds, if it holds one.
    pub open spec fn place_of(self, s: int) -> int {
        choose|i: int| 0 <= i < CHUNKS_ARRAY_SIZE && #[trigger] self.chunk_indices@[i] == Some(s as usize)
    }

    /// No two places of the window are held by the same slot.
    pub proof fn lemma_places_differ(self, i: int, j: int)
        requires
            self.wf(),
            0 <= i < CHUNKS_ARRAY_SIZE,
            0 <= j < CHUNKS_ARRAY_SIZE,
            self.chunk_indices@[i] is Some,
            self.chunk_indices@[i] == self.chunk_indices@[j],
        ensures
            i == j,
    {
        let s = self.chunk_indices@[i]->0;
        let a = self.spec_chunk_offset(i);
        let b = self.spec_chunk_offset(j);
        assert(self.chunks@[s as int].offset == a);
        assert(self.chunks@[s as int].offset == b);
        assert(a[0] == b[0] && a[2] == b[2]);
    }

    /// While a place of the window holds no chunk, a slot is free: the
    /// window never asks for more chunks than there are slots.
    pub proof fn lemma_free_slot_exists(self, i: int)
        requires
            self.wf(),
            0 <= i < CHUNKS_ARRAY_SIZE,
            self.chunk_indices@[i] is None,
        ensures
            self.free_chunk_indices@.len() > 0,
    {
        if self.free_chunk_indices@.len() == 0 {
            let n = CHUNKS_ARRAY_SIZE as int;
            let slots = set_int_range(0, n);
            let place = |s: int| self.place_of(s);
            assert forall|s: int| slots.contains(s) implies 0 <= #[trigger] place(s) < n
                && self.chunk_indices@[place(s)] == Some(s as usize) by {
                assert(!self.is_free(s));
                assert(self.is_mapped(s));
            }
            assert forall|s: int, t: int|
                slots.contains(s) && slots.contains(t) && #[trigger] place(s) == #[trigger] place(
                    t,
                ) implies s == t by {
                assert(self.chunk_indices@[place(s)] == Some(s as usize));
                assert(self.chunk_indices@[place(t)] == Some(t as usize));
            }
            lemma_int_range(0, n);
            let places = slots.map(place);
            lemma_map_size(slots, places, place);
            let others = set_int_range(0, n).remove(i);
            assert forall|p: int| places.contains(p) implies others.contains(p) by {
                let s = choose|s: int| slots.contains(s) && p == place(s);
                assert(0 <= place(s) < n);
                assert(self.chunk_indices@[place(s)] == Some(s as usize));
            }
            lemma_len_subset(places, others);
            assert(false);
        }
    }

    /// When every place of the window holds a chunk, no slot is free: the
    /// window fills the slots to the last.
    pub proof fn lemma_full_window_has_no_free_slot(self)
        requires
            self.wf(),
            forall|i: int| 0 <= i < CHUNKS_ARRAY_SIZE ==> #[trigger] self.chunk_indices@[i] is Some,
        ensures
            self.free_chunk_indices@.len() == 0,
    {
        if self.free_chunk_indices@.len() > 0 {
            let n = CHUNKS_ARRAY_SIZE as int;
            let s = self.free_chunk_indices@[0];
            assert(self.is_free(s as int));
            assert(!self.is_mapped(s as int));
            let places = set_int_range(0, n);
            let slot = |i: int| self.chunk_indices@[i]->0 as int;
            assert forall|i: int, j: int|
                places.contains(i) && places.contains(j) && #[trigger] slot(i) == #[trigger] slot(
                    j,
                ) implies i == j by {
                assert(self.chunk_indices@[i] is Some && self.chunk_indices@[j] is Some);
                self.lemma_places_differ(i, j);
            }
            lemma_int_range(0, n);
            let slots = places.map(slot);
            lemma_map_size(places, slots, slot);
            let others = set_int_range(0, n).remove(s as int);
            assert forall|t: int| slots.contains(t) implies others.contains(t) by {
                let i = choose|i: int| places.contains(i) && t == slot(i);
                assert(self.chunk_indices@[i] == Some(t as usize));
                assert(self.is_mapped(t));
            }
            lemma_len_subset(slots, others);
            assert(false);
        }
    }

    /// Gives the place `window_index` of the window, which holds no chunk,
    /// the slot that has waited longest in the free list, and tells the
    /// chunk in that slot where it now lies. The blocks of the chunk are
    /// left as they are.
    ///
    /// Returns the slot, or `None` without any change if no slot is free.
    pub fn acquire_slot(&mut self, window_index: usize) -> (slot: Option<usize>)
        requires
            old(self).wf(),
            window_index < CHUNKS_ARRAY_SIZE,
            old(self).chunk_indices@[window_index as int] is None,
        ensures
            final(self).wf(),
            slot is None <==> old(self).free_chunk_indices@.len() == 0,
            slot is None ==> final(self).same_as(*old(self)),
            slot matches Some(s) ==> {
                &&& s == old(self).free_chunk_indices@[0]
                &&& final(self).free_chunk_indices@ == old(self).free_chunk_indices@.skip(1)
                &&& final(self).chunk_indices@ == old(self).chunk_indices@.update(
                    window_index as int,
                    Some(s),
                )
                &&& final(self).updated_indices@ == old(self).updated_indices@
                &&& final(self).center_offset == old(self).center_offset
                &&& final(self).chunks_origin == old(self).chunks_origin
                &&& final(self).chunks@.len() == old(self).chunks@.len()
                &&& forall|t: int|
                    0 <= t < CHUNKS_ARRAY_SIZE && t != s ==> #[trigger] final(self).chunks@[t]
                        == old(self).chunks@[t]
                &&& final(self).chunks@[s as int].offset == old(self).spec_chunk_offset(
                    window_index as int,
                )
                &&& final(self).chunks@[s as int].blocks == old(self).chunks@[s as int].blocks
                &&& final(self).chunks@[s as int].mesh == old(self).chunks@[s as int].mesh
                &&& final(self).chunks@[s as int].updated == old(self).chunks@[s as int].updated
            },
    {
        let ghost before = *self;
        let chunk_offset = self.get_chunk_offset(window_index);
        match self.free_chunk_indices.pop_front() {
            Some(s) => {
                assert(s == before.free_chunk_indices@[0]);
                assert(s < CHUNKS_ARRAY_SIZE);
                self.chunks[s].offset = chunk_offset;
                self.chunk_indices[window_index] = Some(s);
                proof {
                    let after = *self;
                    assert(after.free_chunk_indices@ =~= before.free_chunk_indices@.skip(1));
                    assert forall|t: int| 0 <= t < CHUNKS_ARRAY_SIZE implies (
                    #[trigger] after.chunks@[t]).wf() by {
                        assert(before.chunks@[t].wf());
                    }
                    assert forall|i: int| 0 <= i < CHUNKS_ARRAY_SIZE implies (
                    #[trigger] after.chunk_indices@[i] matches Some(t) ==> {
                        &&& t < CHUNKS_ARRAY_SIZE
                        &&& after.chunks@[t as int].offset == after.spec_chunk_offset(i)
                    }) by {
                        if i != window_index {
                            if let Some(t) = before.chunk_indices@[i] {
                                assert(before.is_mapped(t as int));
                                assert(before.is_free(s as int));
                                assert(t != s);
                            }
                        }
                    }
                    assert forall|t: int| 0 <= t < CHUNKS_ARRAY_SIZE implies (
                    #[trigger] after.is_free(t) <==> !after.is_mapped(t)) by {
                        assert(before.is_free(t) <==> !before.is_mapped(t));
                        if t == s {
                            assert(after.chunk_indices@[window_index as int] == Some(s));
                            assert(after.is_mapped(t));
                            if after.is_free(t) {
                                let k = choose|k: int|
                                    0 <= k < after.free_chunk_indices@.len()
                                        && #[trigger] after.free_chunk_indices@[k] == t;
                                assert(before.free_chunk_indices@[k + 1] == t);
                                assert(before.free_chunk_indices@[0] == t);
                            }
                        } else {
                            if before.is_free(t) {
                                let k = choose|k: int|
                                    0 <= k < before.free_chunk_indices@.len()
                                        && #[trigger] before.free_chunk_indices@[k] == t;
                                assert(k > 0);
                                assert(after.free_chunk_indices@[k - 1] == t);
                                assert(after.is_free(t));
                            }
                            if after.is_free(t) {
                                let k = choose|k: int|
                                    0 <= k < after.free_chunk_indices@.len()
                                        && #[trigger] after.free_chunk_indices@[k] == t;
                                assert(before.free_chunk_indices@[k + 1] == t);
                                assert(before.is_free(t));
                            }
                            if before.is_mapped(t) {
                                let i = choose|i: int|
                                    0 <= i < CHUNKS_ARRAY_SIZE
                                        && #[trigger] before.chunk_indices@[i] == Some(t as usize);
                                assert(after.chunk_indices@[i] == Some(t as usize));
                                assert(after.is_mapped(t));
                            }
                            if after.is_mapped(t) {
                                let i = choose|i: int|
                                    0 <= i < CHUNKS_ARRAY_SIZE && #[trigger] after.chunk_indices@[i]
                                        == Some(t as usize);
                                assert(before.chunk_indices@[i] == Some(t as usize));
                                assert(before.is_mapped(t));
                            }
                        }
                    }
                    assert forall|k: int, l: int|
                        0 <= k < l < after.free_chunk_indices@.len() implies #[trigger] after.free_chunk_indices@[k]
                        != #[trigger] after.free_chunk_indices@[l] by {
                        assert(before.free_chunk_indices@[k + 1] != before.free_chunk_indices@[l + 1]);
                    }
                    assert forall|k: int| 0 <= k < after.free_chunk_indices@.len() implies #[trigger] after.free_chunk_indices@[k] < CHUNKS_ARRAY_SIZE by {
                        assert(before.free_chunk_indices@[k + 1] < CHUNKS_ARRAY_SIZE);
                    }
                    assert(after.wf());
                }
                Some(s)
            },
            None => {
                proof {
                    let after = *self;
                    assert forall|t: int| 0 <= t < CHUNKS_ARRAY_SIZE implies (
                    #[trigger] after.is_free(t) <==> !after.is_mapped(t)) by {
                        assert(before.is_free(t) <==> !before.is_mapped(t));
                        assert(!after.is_free(t));
                    }
                    assert(after.wf());
                }
                None
            },
        }
    }

    /// Takes the chunk out of the place `window_index` of the window and
    /// puts its slot at the end of the free list.
    ///
    /// Returns the slot, or `None` without any change if the place held no
    /// chunk.
    pub fn release_slot(&mut self, window_index: usize) -> (slot: Option<usize>)
        requires
            old(self).wf(),
            window_index < CHUNKS_ARRAY_SIZE,
        ensures
            final(self).wf(),
            slot == old(self).chunk_indices@[window_index as int],
            slot is None ==> final(self).same_as(*old(self)),
            slot matches Some(s) ==> {
                &&& final(self).free_chunk_indices@ == old(self).free_chunk_indices@.push(s)
                &&& final(self).chunk_indices@ == old(self).chunk_indices@.update(
                    window_index as int,
                    None,
                )
                &&& final(self).chunks@ == old(self).chunks@
                &&& final(self).updated_indices@ == old(self).updated_indices@
                &&& final(self).center_offset == old(self).center_offset
                &&& final(self).chunks_origin == old(self).chunks_origin
            },
    {
        let ghost before = *self;
        match self.chunk_indices[window_index] {
            Some(s) => {
                self.chunk_indices[window_index] = None;
                self.free_chunk_indices.push_back(s);
                proof {
                    let after = *self;
                    assert(before.is_mapped(s as int));
                    assert(!before.is_free(s as int));
                    assert forall|k: int, l: int|
                        0 <= k < l < after.free_chunk_indices@.len() implies #[trigger] after.free_chunk_indices@[k]
                        != #[trigger] after.free_chunk_indices@[l] by {
                        if l == before.free_chunk_indices@.len() {
                            assert(before.free_chunk_indices@[k] != s);
                        }
                    }
                    assert forall|t: int| 0 <= t < CHUNKS_ARRAY_SIZE implies (
                    #[trigger] after.is_free(t) <==> !after.is_mapped(t)) by {
                        assert(before.is_free(t) <==> !before.is_mapped(t));
                        if t == s {
                            assert(after.free_chunk_indices@[before.free_chunk_indices@.len() as int]
                                == s);
                            assert(after.is_free(t));
                            if after.is_mapped(t) {
                                let i = after.place_of(t);
                                assert(after.chunk_indices@[i] == Some(s));
                                assert(i != window_index);
                                assert(before.chunk_indices@[i] == Some(s));
                                before.lemma_places_differ(i, window_index as int);
                            }
                        } else {
                            if before.is_free(t) {
                                let k = choose|k: int|
                                    0 <= k < before.free_chunk_indices@.len()
                                        && #[trigger] before.free_chunk_indices@[k] == t;
                                assert(after.free_chunk_indices@[k] == t);
                                assert(after.is_free(t));
                            }
                            if after.is_free(t) {
                                let k = choose|k: int|
                                    0 <= k < after.free_chunk_indices@.len()
                                        && #[trigger] after.free_chunk_indices@[k] == t;
                                assert(before.free_chunk_indices@[k] == t);
                                assert(before.is_free(t));
                            }
                            if before.is_mapped(t) {
                                let i = before.place_of(t);
                                assert(after.chunk_indices@[i] == Some(t as usize));
                                assert(after.is_mapped(t));
                            }
                            if after.is_mapped(t) {
                                let i = after.place_of(t);
                                assert(before.chunk_indices@[i] == Some(t as usize));
                                assert(before.is_mapped(t));
                            }
                        }
                    }
                    assert(after.wf());
                }
                Some(s)
            },
            None => {
                proof {
                    let after = *self;
                    assert forall|t: int| 0 <= t < CHUNKS_ARRAY_SIZE implies (
                    #[trigger] after.is_free(t) <==> !after.is_mapped(t)) by {
                        assert(before.is_free(t) <==> !before.is_mapped(t));
                    }
                }
                None
            },
        }
    }
}

} // verus!
