//! The operations on a region: initialise, allocate, insert, remove, query and clear.
use vstd::prelude::*;

use crate::layout::{
    array_offset, array_offset_spec, layout_size_spec, layout_size_u64, HEADER_SIZE, VALUES_OFFSET,
};
use crate::model::{
    lemma_allocate_inv, lemma_clear_inv, lemma_initial_inv, lemma_insert_inv, lemma_remove_inv,
    well_formed,
};
use crate::region::{
    get_entry, layout_fits_and_len, lemma_len_fits, lemma_model_lengths, lemma_value_slot_bytes,
    read_free_top, read_header, read_trailer, region_model, set_entry, set_free_top, set_len,
    swap_slots, value_slots, write_header, write_slot, write_trailer_header, SlotModel,
    FREE_STACK, GENERATION, ID_TO_INDEX, INDEX_TO_ID, INVALID, MAX_ELEMENT_SIZE, TRAILER_MAGIC,
};

verus! {

/// Why a region failed the self-check.
#[derive(Debug, Clone, Copy, PartialEq, Eq)]
pub enum RegionError {
    /// The buffer is shorter than the header, or than the layout the header describes.
    BufferTooSmall,
    /// The capacity is zero: the region was never initialised.
    CapacityZero,
    /// The element count exceeds the capacity.
    LenExceedsCapacity,
    /// The element size is zero: the region was never initialised.
    ElementSizeZero,
    /// The element size is implausibly large.
    ElementSizeTooLarge,
    /// The trailer does not start with the magic number.
    TrailerMagicMismatch,
    /// The trailer's copy of the element size differs from the header's.
    ElementSizeMismatch,
    /// The free-stack top exceeds the capacity.
    FreeTopExceedsCapacity,
    /// The element count and the free-stack top do not add up to the capacity.
    CountsMismatch,
}

/// Outcome of the self-check on the bytes `b`: the first check that fails, in order.
pub open spec fn validation_result(b: Seq<u8>) -> Result<(), RegionError> {
    let m = region_model(b);
    if b.len() < HEADER_SIZE {
        Err(RegionError::BufferTooSmall)
    } else if m.capacity == 0 {
        Err(RegionError::CapacityZero)
    } else if m.len > m.capacity {
        Err(RegionError::LenExceedsCapacity)
    } else if m.element_size == 0 {
        Err(RegionError::ElementSizeZero)
    } else if m.element_size > MAX_ELEMENT_SIZE {
        Err(RegionError::ElementSizeTooLarge)
    } else if b.len() < layout_size_spec(m.capacity as int, m.element_size as int) {
        Err(RegionError::BufferTooSmall)
    } else if m.magic != TRAILER_MAGIC {
        Err(RegionError::TrailerMagicMismatch)
    } else if m.element_size_echo != m.element_size {
        Err(RegionError::ElementSizeMismatch)
    } else if m.free_top > m.capacity {
        Err(RegionError::FreeTopExceedsCapacity)
    } else if m.len + m.free_top != m.capacity {
        Err(RegionError::CountsMismatch)
    } else {
        Ok(())
    }
}

/// Self-check of a region's header and trailer, for catching corrupted or uninitialised
/// memory: checks the capacity, the element count, the element size, the buffer length,
/// the trailer magic and echo, and that the element count and free-stack top add up to the
/// capacity.
pub fn debug_validate_slotmap(region: &[u8]) -> (r: Result<(), RegionError>)
    ensures
        r == validation_result(region@),
{
    let n = region.len();
    if n < HEADER_SIZE {
        return Err(RegionError::BufferTooSmall);
    }
    let (capacity, len, element_size) = read_header(region);
    if capacity == 0 {
        return Err(RegionError::CapacityZero);
    }
    if len > capacity {
        return Err(RegionError::LenExceedsCapacity);
    }
    if element_size == 0 {
        return Err(RegionError::ElementSizeZero);
    }
    if element_size > MAX_ELEMENT_SIZE {
        return Err(RegionError::ElementSizeTooLarge);
    }
    if (n as u64) < layout_size_u64(capacity, element_size) {
        return Err(RegionError::BufferTooSmall);
    }
    let (magic, echo) = read_trailer(region, capacity, element_size);
    if magic != TRAILER_MAGIC {
        return Err(RegionError::TrailerMagicMismatch);
    }
    if echo != element_size {
        return Err(RegionError::ElementSizeMismatch);
    }
    let free_top = read_free_top(region, capacity, element_size);
    if free_top > capacity {
        return Err(RegionError::FreeTopExceedsCapacity);
    }
    if len as u32 + free_top as u32 != capacity as u32 {
        return Err(RegionError::CountsMismatch);
    }
    Ok(())
}

/// A well-formed region with a plausible element size passes the self-check.
pub proof fn lemma_well_formed_passes_validation(b: Seq<u8>)
    requires
        well_formed(b),
        0 < region_model(b).element_size <= MAX_ELEMENT_SIZE,
    ensures
        validation_result(b) == Ok::<(), RegionError>(()),
{
}

/// Initialises a region of `capacity` slots of `element_size` bytes: no live elements,
/// every id free (popped in descending order first), every generation 1. The value slots
/// are left as they were.
pub fn init(region: &mut [u8], capacity: u16, element_size: u32)
    requires
        capacity > 0,
        layout_size_spec(capacity as int, element_size as int) <= old(region)@.len(),
    ensures
        final(region)@.len() == old(region)@.len(),
        well_formed(final(region)@),
        region_model(final(region)@) == SlotModel::initial(
            capacity,
            element_size,
            value_slots(old(region)@, capacity as int, element_size as int),
        ),
{
    let ghost b0 = region@;
    let ghost slots = value_slots(b0, capacity as int, element_size as int);
    proof {
        lemma_len_fits(&*region);
    }
    write_header(region, capacity, element_size);
    write_trailer_header(region, capacity, element_size);
    let ghost m0 = region_model(region@);
    for i in 0..capacity
        invariant
            layout_fits_and_len(region@, b0.len() as int),
            region_model(region@).capacity == capacity,
            region_model(region@).element_size == element_size,
            region_model(region@) == (SlotModel {
                id_to_index: region_model(region@).id_to_index,
                index_to_id: region_model(region@).index_to_id,
                generation: region_model(region@).generation,
                free_stack: region_model(region@).free_stack,
                ..m0
            }),
            m0 == (SlotModel {
                id_to_index: m0.id_to_index,
                index_to_id: m0.index_to_id,
                generation: m0.generation,
                free_stack: m0.free_stack,
                ..SlotModel::initial(capacity, element_size, slots)
            }),
            forall|j: int| 0 <= j < i ==> #[trigger] region_model(region@).id_to_index[j] == INVALID,
            forall|j: int| 0 <= j < i ==> #[trigger] region_model(region@).index_to_id[j] == INVALID,
            forall|j: int| 0 <= j < i ==> #[trigger] region_model(region@).generation[j] == 1,
            forall|j: int| 0 <= j < i ==> #[trigger] region_model(region@).free_stack[j] == j as u16,
    {
        proof {
            lemma_model_lengths(region@);
        }
        set_entry(region, capacity, element_size, ID_TO_INDEX, i, INVALID);
        set_entry(region, capacity, element_size, INDEX_TO_ID, i, INVALID);
        set_entry(region, capacity, element_size, GENERATION, i, 1);
        set_entry(region, capacity, element_size, FREE_STACK, i, i);
    }
    proof {
        let m = region_model(region@);
        let target = SlotModel::initial(capacity, element_size, slots);
        lemma_model_lengths(region@);
        assert(m.id_to_index =~= target.id_to_index);
        assert(m.index_to_id =~= target.index_to_id);
        assert(m.generation =~= target.generation);
        assert(m.free_stack =~= target.free_stack);
        assert(m =~~= target);
        lemma_initial_inv(capacity, element_size, slots);
    }
}

/// Dense index of handle `(id, generation)`, or `None` when the handle is not valid.
fn validate_handle(region: &[u8], id: u16, generation: u16) -> (r: Option<u16>)
    requires
        well_formed(region@),
    ensures
        r == region_model(region@).handle_index(id, generation),
{
    let (capacity, _, element_size) = read_header(region);
    if id >= capacity {
        return None;
    }
    if get_entry(region, capacity, element_size, GENERATION, id) != generation {
        return None;
    }
    let index = get_entry(region, capacity, element_size, ID_TO_INDEX, id);
    if index == INVALID {
        return None;
    }
    Some(index)
}

/// Number of live elements.
pub fn element_count(region: &[u8]) -> (r: u16)
    requires
        HEADER_SIZE <= region@.len(),
    ensures
        r == region_model(region@).len,
{
    let (_, len, _) = read_header(region);
    len
}

/// Size in bytes of one element, as recorded in the header.
pub fn element_size(region: &[u8]) -> (r: u32)
    requires
        HEADER_SIZE <= region@.len(),
    ensures
        r == region_model(region@).element_size,
{
    let (_, _, size) = read_header(region);
    size
}

/// Allocates a handle: pops the top id of the free stack and appends it to the dense array.
/// Returns `None`, changing nothing, when every id is in use.
pub fn allocate(region: &mut [u8]) -> (r: Option<(u16, u16)>)
    requires
        well_formed(old(region)@),
    ensures
        final(region)@.len() == old(region)@.len(),
        well_formed(final(region)@),
        r == region_model(old(region)@).allocated(),
        region_model(final(region)@) == region_model(old(region)@).after_allocate(),
{
    let ghost m = region_model(region@);
    let (capacity, len, element_size) = read_header(region);
    let free_top = read_free_top(region, capacity, element_size);
    if free_top == 0 {
        return None;
    }
    proof {
        lemma_model_lengths(region@);
    }
    let new_free_top = free_top - 1;
    set_free_top(region, capacity, element_size, new_free_top);
    let id = get_entry(region, capacity, element_size, FREE_STACK, new_free_top);
    let index = len;
    set_len(region, len + 1);
    set_entry(region, capacity, element_size, ID_TO_INDEX, id, index);
    set_entry(region, capacity, element_size, INDEX_TO_ID, index, id);
    let generation = get_entry(region, capacity, element_size, GENERATION, id);
    proof {
        lemma_allocate_inv(m);
        assert(region_model(region@) =~~= m.after_allocate());
    }
    Some((id, generation))
}

/// Copies `src` into the slot of handle `(id, generation)`. Returns `false`, writing
/// nothing, when the handle is not valid.
pub fn insert(region: &mut [u8], id: u16, generation: u16, src: &[u8]) -> (r: bool)
    requires
        well_formed(old(region)@),
        src@.len() == region_model(old(region)@).element_size,
    ensures
        final(region)@.len() == old(region)@.len(),
        well_formed(final(region)@),
        r == region_model(old(region)@).is_alive(id, generation),
        region_model(old(region)@).handle_index(id, generation) matches Some(index)
            ==> region_model(final(region)@) == region_model(old(region)@).after_insert(
            index,
            src@,
        ),
        !r ==> final(region)@ == old(region)@,
{
    let ghost m = region_model(region@);
    let (capacity, _, element_size) = read_header(region);
    let index = match validate_handle(region, id, generation) {
        Some(index) => index,
        None => return false,
    };
    write_slot(region, capacity, element_size, index, src);
    proof {
        lemma_insert_inv(m, index, src@);
    }
    true
}

/// Same as `insert`, with the validity of the handle checked first.
pub fn insert_if_alive(region: &mut [u8], id: u16, generation: u16, src: &[u8]) -> (r: bool)
    requires
        well_formed(old(region)@),
        src@.len() == region_model(old(region)@).element_size,
    ensures
        final(region)@.len() == old(region)@.len(),
        well_formed(final(region)@),
        r == region_model(old(region)@).is_alive(id, generation),
        region_model(old(region)@).handle_index(id, generation) matches Some(index)
            ==> region_model(final(region)@) == region_model(old(region)@).after_insert(
            index,
            src@,
        ),
        !r ==> final(region)@ == old(region)@,
{
    if is_alive(region, id, generation) {
        insert(region, id, generation, src)
    } else {
        false
    }
}

/// Removes the element of handle `(id, generation)` by swap-remove: the last element moves
/// into its slot, the id's generation advances (wrapping) and the id goes on the free
/// stack. Returns `false`, changing nothing, when the handle is not valid.
pub fn remove(region: &mut [u8], id: u16, generation: u16) -> (r: bool)
    requires
        well_formed(old(region)@),
    ensures
        final(region)@.len() == old(region)@.len(),
        well_formed(final(region)@),
        r == region_model(old(region)@).is_alive(id, generation),
        r ==> region_model(final(region)@) == region_model(old(region)@).after_remove(id),
        !r ==> final(region)@ == old(region)@,
{
    let ghost m = region_model(region@);
    let (capacity, len, element_size) = read_header(region);
    let index = match validate_handle(region, id, generation) {
        Some(index) => index,
        None => return false,
    };
    proof {
        lemma_model_lengths(region@);
    }
    let last = len - 1;
    if index != last {
        swap_slots(region, capacity, element_size, index, last);
        let moved_id = get_entry(region, capacity, element_size, INDEX_TO_ID, last);
        set_entry(region, capacity, element_size, INDEX_TO_ID, index, moved_id);
        set_entry(region, capacity, element_size, ID_TO_INDEX, moved_id, index);
    }
    set_entry(region, capacity, element_size, INDEX_TO_ID, last, INVALID);
    set_entry(region, capacity, element_size, ID_TO_INDEX, id, INVALID);
    set_len(region, last);
    let old_generation = get_entry(region, capacity, element_size, GENERATION, id);
    set_entry(region, capacity, element_size, GENERATION, id, old_generation.wrapping_add(1));
    let free_top = read_free_top(region, capacity, element_size);
    set_entry(region, capacity, element_size, FREE_STACK, free_top, id);
    set_free_top(region, capacity, element_size, free_top + 1);
    proof {
        lemma_remove_inv(m, id, generation);
        let n = m.after_remove(id);
        let c = region_model(region@);
        assert(c.index_to_id =~= n.index_to_id);
        assert(c.id_to_index =~= n.id_to_index);
        assert(c.values =~~= n.values);
        assert(c =~~= n);
    }
    true
}

/// Whether handle `(id, generation)` is valid.
pub fn is_alive(region: &[u8], id: u16, generation: u16) -> (r: bool)
    requires
        well_formed(region@),
    ensures
        r == region_model(region@).is_alive(id, generation),
{
    validate_handle(region, id, generation).is_some()
}

/// Removes every element at once: no live ids, every id free in ascending order.
/// Generations are kept, so every handle issued before stays invalid.
pub fn clear(region: &mut [u8])
    requires
        well_formed(old(region)@),
    ensures
        final(region)@.len() == old(region)@.len(),
        well_formed(final(region)@),
        region_model(final(region)@) == region_model(old(region)@).after_clear(),
{
    let ghost m = region_model(region@);
    let ghost n0 = region@.len();
    proof {
        lemma_len_fits(&*region);
    }
    let (capacity, _, element_size) = read_header(region);
    set_len(region, 0);
    set_free_top(region, capacity, element_size, capacity);
    let ghost m1 = region_model(region@);
    for i in 0..capacity
        invariant
            layout_fits_and_len(region@, n0 as int),
            region_model(region@).capacity == capacity,
            region_model(region@).element_size == element_size,
            region_model(region@) == (SlotModel {
                id_to_index: region_model(region@).id_to_index,
                index_to_id: region_model(region@).index_to_id,
                free_stack: region_model(region@).free_stack,
                ..m1
            }),
            m1 == (SlotModel {
                id_to_index: m1.id_to_index,
                index_to_id: m1.index_to_id,
                free_stack: m1.free_stack,
                ..m.after_clear()
            }),
            forall|j: int| 0 <= j < i ==> #[trigger] region_model(region@).id_to_index[j] == INVALID,
            forall|j: int| 0 <= j < i ==> #[trigger] region_model(region@).index_to_id[j] == INVALID,
            forall|j: int| 0 <= j < i ==> #[trigger] region_model(region@).free_stack[j] == j as u16,
    {
        proof {
            lemma_model_lengths(region@);
        }
        set_entry(region, capacity, element_size, ID_TO_INDEX, i, INVALID);
        set_entry(region, capacity, element_size, INDEX_TO_ID, i, INVALID);
        set_entry(region, capacity, element_size, FREE_STACK, i, i);
    }
    proof {
        let c = region_model(region@);
        let target = m.after_clear();
        lemma_model_lengths(region@);
        assert(c.id_to_index =~= target.id_to_index);
        assert(c.index_to_id =~= target.index_to_id);
        assert(c.free_stack =~= target.free_stack);
        assert(c =~~= target);
        lemma_clear_inv(m);
    }
}

/// Byte offset of the value of handle `(id, generation)`, or `None` when the handle is not
/// valid. The `element_size` bytes from there are that element's value.
pub fn get_value_ptr(region: &[u8], id: u16, generation: u16) -> (r: Option<usize>)
    requires
        well_formed(region@),
    ensures
        r == match region_model(region@).handle_index(id, generation) {
            Some(index) => Some(
                (VALUES_OFFSET + index * region_model(region@).element_size) as usize,
            ),
            None => None::<usize>,
        },
        region_model(region@).handle_index(id, generation) matches Some(index) ==> region@.subrange(
            VALUES_OFFSET + index * region_model(region@).element_size,
            VALUES_OFFSET + index * region_model(region@).element_size + region_model(
                region@,
            ).element_size,
        ) == region_model(region@).values[index as int],
{
    proof {
        lemma_len_fits(region);
    }
    let (_, _, element_size) = read_header(region);
    let index = match validate_handle(region, id, generation) {
        Some(index) => index,
        None => return None,
    };
    proof {
        lemma_value_slot_bytes(region@, index as int);
    }
    Some(VALUES_OFFSET + index as usize * element_size as usize)
}

/// Generation of the element in dense slot `index`, or `None` when `index` is not below
/// the element count.
pub fn get_generation_for_index(region: &[u8], index: u16) -> (r: Option<u16>)
    requires
        well_formed(region@),
    ensures
        r == if index < region_model(region@).len {
            Some(
                region_model(region@).generation[region_model(
                    region@,
                ).index_to_id[index as int] as int],
            )
        } else {
            None::<u16>
        },
{
    let (capacity, len, element_size) = read_header(region);
    if index >= len {
        return None;
    }
    let id = get_entry(region, capacity, element_size, INDEX_TO_ID, index);
    Some(get_entry(region, capacity, element_size, GENERATION, id))
}

/// Byte offset of the `generation` array, indexed by id.
pub fn id_to_generation_ptr_pub(region: &[u8]) -> (r: usize)
    requires
        well_formed(region@),
    ensures
        r == array_offset_spec(
            region_model(region@).capacity as int,
            region_model(region@).element_size as int,
            GENERATION as int,
        ),
{
    proof {
        lemma_len_fits(region);
    }
    let (capacity, _, element_size) = read_header(region);
    array_offset(capacity, element_size, GENERATION)
}

/// Byte offset of the `index_to_id` array, indexed by dense index.
pub fn index_to_id_ptr_pub(region: &[u8]) -> (r: usize)
    requires
        well_formed(region@),
    ensures
        r == array_offset_spec(
            region_model(region@).capacity as int,
            region_model(region@).element_size as int,
            INDEX_TO_ID as int,
        ),
{
    proof {
        lemma_len_fits(region);
    }
    let (capacity, _, element_size) = read_header(region);
    array_offset(capacity, element_size, INDEX_TO_ID)
}

/// Byte offset of the `id_to_index` array, indexed by id.
pub fn id_to_index_ptr_pub(region: &[u8]) -> (r: usize)
    requires
        well_formed(region@),
    ensures
        r == array_offset_spec(
            region_model(region@).capacity as int,
            region_model(region@).element_size as int,
            ID_TO_INDEX as int,
        ),
{
    proof {
        lemma_len_fits(region);
    }
    let (capacity, _, element_size) = read_header(region);
    array_offset(capacity, element_size, ID_TO_INDEX)
}

} // verus!
