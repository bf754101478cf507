//! Properties that hold across operations, stated over the abstract state.
use vstd::prelude::*;

use crate::layout::{array_offset_spec, layout_size_spec, VALUES_OFFSET};
use crate::model::{well_formed, lemma_remove_inv};
use crate::region::{lemma_model_lengths, lemma_value_slot_bytes, region_model, SlotModel, INVALID};

verus! {

/// In every well-formed region the live elements and the free ids add up to the capacity.
pub proof fn lemma_counts_add_up(b: Seq<u8>)
    requires
        well_formed(b),
    ensures
        region_model(b).len + region_model(b).free_top == region_model(b).capacity,
{
}

/// In every well-formed region the dense array has no gaps: each slot below `len` holds a
/// live id that maps back to it, and each slot from `len` on holds `INVALID`.
pub proof fn lemma_dense_contiguity(b: Seq<u8>)
    requires
        well_formed(b),
    ensures
        forall|i: int|
            0 <= i < region_model(b).len ==> {
                &&& #[trigger] region_model(b).index_to_id[i] < region_model(b).capacity
                &&& region_model(b).id_to_index[region_model(b).index_to_id[i] as int] == i
            },
        forall|i: int|
            region_model(b).len <= i < region_model(b).capacity ==> #[trigger] region_model(
                b,
            ).index_to_id[i] == INVALID,
{
}

/// Only removal changes a generation, and it advances the removed id's generation by one,
/// wrapping at 2^16.
pub proof fn lemma_generation_changes_only_on_remove(
    m: SlotModel,
    id: u16,
    removed: u16,
    index: u16,
    bytes: Seq<u8>,
)
    requires
        m.inv(),
        id < m.capacity,
        removed < m.capacity,
    ensures
        m.after_allocate().generation[id as int] == m.generation[id as int],
        m.after_insert(index, bytes).generation[id as int] == m.generation[id as int],
        m.after_clear().generation[id as int] == m.generation[id as int],
        m.after_remove(removed).generation[id as int] == if removed == id {
            m.generation[id as int].wrapping_add(1)
        } else {
            m.generation[id as int]
        },
{
}

/// Removing a live handle `(id, generation)` makes it invalid, and the next allocation
/// reissues `id` with the next generation (mod 2^16); the old handle stays invalid.
pub proof fn lemma_reissue_advances_generation(m: SlotModel, id: u16, generation: u16)
    requires
        m.inv(),
        m.is_alive(id, generation),
    ensures
        !m.after_remove(id).is_alive(id, generation),
        m.after_remove(id).allocated() == Some((id, generation.wrapping_add(1))),
        m.after_remove(id).after_allocate().is_alive(id, generation.wrapping_add(1)),
        !m.after_remove(id).after_allocate().is_alive(id, generation),
{
    lemma_remove_inv(m, id, generation);
    let n = m.after_remove(id);
    assert(n.next_free_id() == id);
    assert(generation.wrapping_add(1) != generation);
}

/// A removed handle is no longer valid, so removing it again fails and changes nothing.
pub proof fn lemma_remove_twice_fails(m: SlotModel, id: u16, generation: u16)
    requires
        m.inv(),
        m.is_alive(id, generation),
    ensures
        m.after_remove(id).handle_index(id, generation) is None,
{
}

/// Clearing invalidates every handle, while keeping each id's generation.
pub proof fn lemma_clear_invalidates_handles(m: SlotModel, id: u16, generation: u16)
    requires
        m.inv(),
    ensures
        !m.after_clear().is_alive(id, generation),
        m.after_clear().generation == m.generation,
{
}

/// Removing a live handle keeps every other live handle valid, at the same value.
pub proof fn lemma_remove_keeps_others(m: SlotModel, id: u16, generation: u16, other: u16, g: u16)
    requires
        m.inv(),
        m.is_alive(id, generation),
        m.is_alive(other, g),
        other != id,
    ensures
        m.after_remove(id).is_alive(other, g),
        m.after_remove(id).values[m.after_remove(id).id_to_index[other as int] as int]
            == m.values[m.id_to_index[other as int] as int],
{
    let last = (m.len - 1) as u16;
    let moved = m.index_to_id[last as int];
    assert(m.id_to_index[moved as int] == last);
    let j = m.id_to_index[other as int];
    assert(m.index_to_id[j as int] == other);
}

/// Swap-remove of a live element that is not last: the formerly last element's bytes and
/// id move into the freed slot, and no other slot or mapping of a live id changes.
pub proof fn lemma_swap_remove(m: SlotModel, id: u16, generation: u16)
    requires
        m.inv(),
        m.is_alive(id, generation),
        m.id_to_index[id as int] != m.len - 1,
    ensures
        ({
            let index = m.id_to_index[id as int] as int;
            let last = m.len - 1;
            let moved = m.index_to_id[last];
            let n = m.after_remove(id);
            &&& n.values[index] == m.values[last]
            &&& n.index_to_id[index] == moved
            &&& n.id_to_index[moved as int] == index
            &&& n.len == last
            &&& forall|i: int|
                0 <= i < n.len && i != index ==> #[trigger] n.values[i] == m.values[i]
                    && n.index_to_id[i] == m.index_to_id[i]
            &&& forall|x: int|
                0 <= x < m.capacity && x != id && x != moved ==> #[trigger] n.id_to_index[x]
                    == m.id_to_index[x]
        }),
{
}

/// Removing ids `a`, `b`, `c` in that order and then allocating three times hands the ids
/// out again in the order `c`, `b`, `a`.
pub proof fn lemma_lifo_reuse(
    m: SlotModel,
    a: u16,
    ga: u16,
    b: u16,
    gb: u16,
    c: u16,
    gc: u16,
)
    requires
        m.inv(),
        m.is_alive(a, ga),
        m.is_alive(b, gb),
        m.is_alive(c, gc),
        a != b,
        b != c,
        a != c,
    ensures
        ({
            let r = m.after_remove(a).after_remove(b).after_remove(c);
            &&& r.allocated() matches Some(h) && h.0 == c
            &&& r.after_allocate().allocated() matches Some(h) && h.0 == b
            &&& r.after_allocate().after_allocate().allocated() matches Some(h) && h.0 == a
        }),
{
    lemma_remove_keeps_others(m, a, ga, b, gb);
    lemma_remove_keeps_others(m, a, ga, c, gc);
    let m1 = m.after_remove(a);
    lemma_remove_inv(m, a, ga);
    lemma_remove_keeps_others(m1, b, gb, c, gc);
    let m2 = m1.after_remove(b);
    lemma_remove_inv(m1, b, gb);
    lemma_remove_inv(m2, c, gc);
}

/// Reading back the bytes of a handle's value after inserting into it yields exactly the
/// inserted bytes.
pub proof fn lemma_insert_read_back(b1: Seq<u8>, b2: Seq<u8>, id: u16, generation: u16, src: Seq<u8>)
    requires
        well_formed(b1),
        region_model(b1).is_alive(id, generation),
        src.len() == region_model(b1).element_size,
        well_formed(b2),
        region_model(b2) == region_model(b1).after_insert(
            region_model(b1).id_to_index[id as int],
            src,
        ),
    ensures
        ({
            let index = region_model(b2).id_to_index[id as int];
            let es = region_model(b2).element_size;
            &&& region_model(b2).handle_index(id, generation) == Some(index)
            &&& b2.subrange(VALUES_OFFSET + index * es, VALUES_OFFSET + index * es + es) == src
        }),
{
    lemma_model_lengths(b1);
    lemma_value_slot_bytes(b2, region_model(b1).id_to_index[id as int] as int);
}

/// The last bookkeeping array ends exactly at `layout_size`: the layout has no slack.
pub proof fn lemma_layout_size_exact(capacity: int, element_size: int)
    ensures
        array_offset_spec(capacity, element_size, 3) + 2 * capacity == layout_size_spec(
            capacity,
            element_size,
        ),
{
    assert(3 * 2 * capacity == 6 * capacity) by (nonlinear_arith);
}

} // verus!
