//! The invariant of a region's state and what each operation does to that state.
use vstd::prelude::*;

use crate::region::{layout_fits, region_model, SlotModel, INVALID, TRAILER_MAGIC};

verus! {

/// A region whose layout fits its buffer and whose state satisfies the invariant.
pub open spec fn well_formed(b: Seq<u8>) -> bool {
    &&& layout_fits(b)
    &&& region_model(b).inv()
}

impl SlotModel {
    /// Every id is either live (mapped both ways to a dense index below `len`) or on the
    /// free stack, and the counts add up to the capacity.
    pub open spec fn inv(self) -> bool {
        &&& self.capacity > 0
        &&& self.len + self.free_top == self.capacity
        &&& self.magic == TRAILER_MAGIC
        &&& self.element_size_echo == self.element_size
        &&& self.id_to_index.len() == self.capacity
        &&& self.index_to_id.len() == self.capacity
        &&& self.generation.len() == self.capacity
        &&& self.free_stack.len() == self.capacity
        &&& self.values.len() == self.capacity
        &&& self.dense_consistent()
        &&& self.free_consistent()
    }

    /// Slots below `len` hold distinct live ids, slots from `len` on hold `INVALID`,
    /// and `id_to_index` is the inverse of `index_to_id` on live ids.
    pub open spec fn dense_consistent(self) -> bool {
        &&& forall|i: int|
            0 <= i < self.len ==> {
                &&& #[trigger] self.index_to_id[i] < self.capacity
                &&& self.id_to_index[self.index_to_id[i] as int] == i
            }
        &&& forall|i: int| self.len <= i < self.capacity ==> #[trigger] self.index_to_id[i] == INVALID
        &&& forall|id: int|
            0 <= id < self.capacity && #[trigger] self.id_to_index[id] != INVALID ==> {
                &&& self.id_to_index[id] < self.len
                &&& self.index_to_id[self.id_to_index[id] as int] == id
            }
    }

    /// The free stack holds `free_top` distinct ids, none of them live.
    pub open spec fn free_consistent(self) -> bool {
        &&& forall|k: int|
            0 <= k < self.free_top ==> {
                &&& #[trigger] self.free_stack[k] < self.capacity
                &&& self.id_to_index[self.free_stack[k] as int] == INVALID
            }
        &&& forall|j: int, k: int|
            0 <= j < k < self.free_top ==> #[trigger] self.free_stack[j]
                != #[trigger] self.free_stack[k]
    }

    /// Dense index of handle `(id, generation)`, or `None` when the handle is not valid.
    pub open spec fn handle_index(self, id: u16, generation: u16) -> Option<u16> {
        if id < self.capacity && self.generation[id as int] == generation
            && self.id_to_index[id as int] != INVALID {
            Some(self.id_to_index[id as int])
        } else {
            None
        }
    }

    /// Whether handle `(id, generation)` is valid.
    pub open spec fn is_alive(self, id: u16, generation: u16) -> bool {
        self.handle_index(id, generation) is Some
    }

    /// The id that the next allocation takes: the top of the free stack.
    pub open spec fn next_free_id(self) -> u16 {
        self.free_stack[self.free_top - 1]
    }

    /// The handle that allocation hands out, or `None` when no id is free.
    pub open spec fn allocated(self) -> Option<(u16, u16)> {
        if self.free_top == 0 {
            None
        } else {
            Some((self.next_free_id(), self.generation[self.next_free_id() as int]))
        }
    }

    /// State after allocation: the top free id is appended to the dense array.
    pub open spec fn after_allocate(self) -> SlotModel {
        if self.free_top == 0 {
            self
        } else {
            let id = self.next_free_id();
            SlotModel {
                len: (self.len + 1) as u16,
                free_top: (self.free_top - 1) as u16,
                id_to_index: self.id_to_index.update(id as int, self.len),
                index_to_id: self.index_to_id.update(self.len as int, id),
                ..self
            }
        }
    }

    /// State after storing `bytes` in dense slot `index`.
    pub open spec fn after_insert(self, index: u16, bytes: Seq<u8>) -> SlotModel {
        SlotModel { values: self.values.update(index as int, bytes), ..self }
    }

    /// State after removing live id `id`: its slot and the last slot swap bytes, the id
    /// that was last takes the freed slot, and `id` is retired with its generation advanced
    /// and pushed on the free stack.
    pub open spec fn after_remove(self, id: u16) -> SlotModel {
        let index = self.id_to_index[id as int];
        let last = (self.len - 1) as u16;
        let moved = self.index_to_id[last as int];
        SlotModel {
            len: last,
            free_top: (self.free_top + 1) as u16,
            values: self.values.update(index as int, self.values[last as int]).update(
                last as int,
                self.values[index as int],
            ),
            index_to_id: self.index_to_id.update(index as int, moved).update(last as int, INVALID),
            id_to_index: self.id_to_index.update(moved as int, index).update(id as int, INVALID),
            generation: self.generation.update(
                id as int,
                self.generation[id as int].wrapping_add(1),
            ),
            free_stack: self.free_stack.update(self.free_top as int, id),
            ..self
        }
    }

    /// State after clearing: no live ids, all ids free in ascending order, generations kept.
    pub open spec fn after_clear(self) -> SlotModel {
        SlotModel {
            len: 0,
            free_top: self.capacity,
            id_to_index: Seq::new(self.capacity as nat, |i: int| INVALID),
            index_to_id: Seq::new(self.capacity as nat, |i: int| INVALID),
            free_stack: Seq::new(self.capacity as nat, |i: int| i as u16),
            ..self
        }
    }

    /// A freshly initialised state; the value slots hold whatever bytes they held before.
    pub open spec fn initial(capacity: u16, element_size: u32, values: Seq<Seq<u8>>) -> SlotModel {
        SlotModel {
            capacity,
            len: 0,
            element_size,
            magic: TRAILER_MAGIC,
            element_size_echo: element_size,
            free_top: capacity,
            id_to_index: Seq::new(capacity as nat, |i: int| INVALID),
            index_to_id: Seq::new(capacity as nat, |i: int| INVALID),
            generation: Seq::new(capacity as nat, |i: int| 1u16),
            free_stack: Seq::new(capacity as nat, |i: int| i as u16),
            values,
        }
    }
}

/// Initialisation establishes the invariant.
pub proof fn lemma_initial_inv(capacity: u16, element_size: u32, values: Seq<Seq<u8>>)
    requires
        capacity > 0,
        values.len() == capacity,
    ensures
        SlotModel::initial(capacity, element_size, values).inv(),
{
}

/// Clearing preserves the invariant.
pub proof fn lemma_clear_inv(m: SlotModel)
    requires
        m.inv(),
    ensures
        m.after_clear().inv(),
{
}

/// Storing bytes in a slot preserves the invariant.
pub proof fn lemma_insert_inv(m: SlotModel, index: u16, bytes: Seq<u8>)
    requires
        m.inv(),
        index < m.capacity,
    ensures
        m.after_insert(index, bytes).inv(),
{
}

/// Allocation preserves the invariant.
pub proof fn lemma_allocate_inv(m: SlotModel)
    requires
        m.inv(),
    ensures
        m.after_allocate().inv(),
{
    if m.free_top > 0 {
        let id = m.next_free_id();
        let n = m.after_allocate();
        assert(m.id_to_index[id as int] == INVALID);
        assert(m.index_to_id[m.len as int] == INVALID);
        assert forall|i: int| 0 <= i < n.len implies {
            &&& #[trigger] n.index_to_id[i] < n.capacity
            &&& n.id_to_index[n.index_to_id[i] as int] == i
        } by {
            if i < m.len {
                assert(m.index_to_id[i] != id);
            }
        }
        assert forall|k: int| 0 <= k < n.free_top implies {
            &&& #[trigger] n.free_stack[k] < n.capacity
            &&& n.id_to_index[n.free_stack[k] as int] == INVALID
        } by {
            assert(m.free_stack[k] != m.free_stack[m.free_top - 1]);
        }
    }
}

/// Removing a live id preserves the invariant.
pub proof fn lemma_remove_inv(m: SlotModel, id: u16, generation: u16)
    requires
        m.inv(),
        m.is_alive(id, generation),
    ensures
        m.after_remove(id).inv(),
{
    let index = m.id_to_index[id as int];
    let last = (m.len - 1) as u16;
    let moved = m.index_to_id[last as int];
    let n = m.after_remove(id);
    assert(index < m.len);
    assert(m.id_to_index[moved as int] == last);
    assert(index != last ==> moved != id);
    assert forall|i: int| 0 <= i < n.len implies {
        &&& #[trigger] n.index_to_id[i] < n.capacity
        &&& n.id_to_index[n.index_to_id[i] as int] == i
    } by {
        if i != index {
            let x = m.index_to_id[i];
            assert(m.id_to_index[x as int] == i);
            assert(x != id);
            assert(x != moved);
        }
    }
    assert forall|x: int| 0 <= x < n.capacity && #[trigger] n.id_to_index[x] != INVALID implies {
        &&& n.id_to_index[x] < n.len
        &&& n.index_to_id[n.id_to_index[x] as int] == x
    } by {
        if x != moved {
            let j = m.id_to_index[x];
            assert(m.index_to_id[j as int] == x);
        }
    }
    assert forall|k: int| 0 <= k < n.free_top implies {
        &&& #[trigger] n.free_stack[k] < n.capacity
        &&& n.id_to_index[n.free_stack[k] as int] == INVALID
    } by {
        if k < m.free_top {
            assert(m.id_to_index[m.free_stack[k] as int] == INVALID);
        }
    }
    assert forall|j: int, k: int| 0 <= j < k < n.free_top implies #[trigger] n.free_stack[j]
        != #[trigger] n.free_stack[k] by {
        if k == m.free_top {
            assert(m.id_to_index[m.free_stack[j] as int] == INVALID);
        }
    }
}

} // verus!
