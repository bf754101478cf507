//! Byte offsets of the parts of a region, computed from its capacity and element size.
use vstd::prelude::*;

verus! {

/// Size of the region header: capacity (u16), len (u16), element size (u32).
pub const HEADER_SIZE: usize = 8;

/// Offset of the dense value array.
pub const VALUES_OFFSET: usize = 8;

/// Size of the trailer header: magic (u32), element size echo (u32), free top (u16), pad (u16).
pub const TRAILER_HEADER_SIZE: usize = 12;

/// Rounds `x` up to a multiple of four.
pub open spec fn align4_spec(x: int) -> int {
    (x + 3) / 4 * 4
}

/// Offset of the trailer header: the end of the value array, rounded up to four.
pub open spec fn trailer_offset_spec(capacity: int, element_size: int) -> int {
    align4_spec(VALUES_OFFSET + capacity * element_size)
}

/// Offset of the first bookkeeping array (`id_to_index`).
pub open spec fn arrays_offset_spec(capacity: int, element_size: int) -> int {
    align4_spec(trailer_offset_spec(capacity, element_size) + TRAILER_HEADER_SIZE)
}

/// Offset of bookkeeping array number `k` (0: id_to_index, 1: index_to_id,
/// 2: generation, 3: free_stack).
pub open spec fn array_offset_spec(capacity: int, element_size: int, k: int) -> int {
    arrays_offset_spec(capacity, element_size) + k * 2 * capacity
}

/// Total number of bytes a region with this capacity and element size occupies.
pub open spec fn layout_size_spec(capacity: int, element_size: int) -> int {
    arrays_offset_spec(capacity, element_size) + 8 * capacity
}

/// Offsets grow in layout order, and the value array ends before the trailer.
pub proof fn lemma_layout_order(capacity: int, element_size: int)
    requires
        0 <= capacity,
        0 <= element_size,
    ensures
        0 <= capacity * element_size,
        VALUES_OFFSET + capacity * element_size <= trailer_offset_spec(capacity, element_size),
        trailer_offset_spec(capacity, element_size) + TRAILER_HEADER_SIZE == arrays_offset_spec(
            capacity,
            element_size,
        ),
        trailer_offset_spec(capacity, element_size) % 4 == 0,
        arrays_offset_spec(capacity, element_size) <= layout_size_spec(capacity, element_size),
{
    assert(0 <= capacity * element_size) by (nonlinear_arith)
        requires
            0 <= capacity,
            0 <= element_size,
    ;
}

/// Rounds `x` up to a multiple of four.
pub fn align4(x: usize) -> (r: usize)
    requires
        align4_spec(x as int) <= usize::MAX,
    ensures
        r == align4_spec(x as int),
        r % 4 == 0,
        x <= r < x + 4,
{
    let rem = x % 4;
    if rem == 0 {
        x
    } else {
        x + (4 - rem)
    }
}

/// Offset of the trailer header within a region.
pub fn trailer_offset(capacity: u16, element_size: u32) -> (r: usize)
    requires
        trailer_offset_spec(capacity as int, element_size as int) <= usize::MAX,
    ensures
        r == trailer_offset_spec(capacity as int, element_size as int),
{
    proof {
        lemma_layout_order(capacity as int, element_size as int);
    }
    align4(VALUES_OFFSET + capacity as usize * element_size as usize)
}

/// Offset of the first bookkeeping array within a region.
fn arrays_offset(capacity: u16, element_size: u32) -> (r: usize)
    requires
        arrays_offset_spec(capacity as int, element_size as int) <= usize::MAX,
    ensures
        r == arrays_offset_spec(capacity as int, element_size as int),
{
    proof {
        lemma_layout_order(capacity as int, element_size as int);
    }
    align4(trailer_offset(capacity, element_size) + TRAILER_HEADER_SIZE)
}

/// Number of bytes a region needs for `capacity` elements of `element_size` bytes each.
pub fn layout_size(capacity: u16, element_size: u32) -> (r: usize)
    requires
        layout_size_spec(capacity as int, element_size as int) <= usize::MAX,
    ensures
        r == layout_size_spec(capacity as int, element_size as int),
{
    proof {
        lemma_layout_order(capacity as int, element_size as int);
    }
    arrays_offset(capacity, element_size) + 4 * (capacity as usize) * 2
}

/// Number of bytes a region needs, computed in 64 bits so that it cannot overflow.
pub(crate) fn layout_size_u64(capacity: u16, element_size: u32) -> (r: u64)
    ensures
        r == layout_size_spec(capacity as int, element_size as int),
{
    proof {
        lemma_layout_order(capacity as int, element_size as int);
        assert(capacity as int * element_size as int <= 65535 * 4294967295) by (nonlinear_arith)
            requires
                capacity <= 65535,
                element_size <= 4294967295,
        ;
    }
    let values_end = VALUES_OFFSET as u64 + capacity as u64 * element_size as u64;
    let trailer = (values_end + 3) / 4 * 4;
    let arrays = (trailer + TRAILER_HEADER_SIZE as u64 + 3) / 4 * 4;
    arrays + 8 * capacity as u64
}

/// Alignment that the layout is designed for.
pub fn alignment() -> (r: usize)
    ensures
        r == 4,
{
    4
}

/// Offset of the dense value array; the same for every region.
pub fn values_offset(_region: &[u8]) -> (r: usize)
    ensures
        r == VALUES_OFFSET,
{
    VALUES_OFFSET
}

/// Offset of bookkeeping array number `k` within a region.
pub(crate) fn array_offset(capacity: u16, element_size: u32, k: usize) -> (r: usize)
    requires
        k < 4,
        layout_size_spec(capacity as int, element_size as int) <= usize::MAX,
    ensures
        r == array_offset_spec(capacity as int, element_size as int, k as int),
        r + 2 * capacity <= layout_size_spec(capacity as int, element_size as int),
{
    proof {
        lemma_layout_order(capacity as int, element_size as int);
        assert(k * 2 * capacity <= 6 * capacity) by (nonlinear_arith)
            requires
                k < 4,
                0 <= capacity,
        ;
    }
    arrays_offset(capacity, element_size) + k * 2 * (capacity as usize)
}

/// Offset of the free-stack top within the trailer header.
pub(crate) fn free_top_offset(capacity: u16, element_size: u32) -> (r: usize)
    requires
        layout_size_spec(capacity as int, element_size as int) <= usize::MAX,
    ensures
        r == trailer_offset_spec(capacity as int, element_size as int) + 8,
{
    proof {
        lemma_layout_order(capacity as int, element_size as int);
    }
    trailer_offset(capacity, element_size) + 8
}

} // verus!
