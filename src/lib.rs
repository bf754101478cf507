//! Generation-tracked dense slot map stored entirely inside a caller-supplied byte buffer.
//!
//! The buffer holds an 8-byte header (capacity, len, element size), the dense value array,
//! a 12-byte trailer header (magic, element-size echo, free-stack top, padding) at a 4-byte
//! boundary, and four `u16[capacity]` bookkeeping arrays: `id_to_index`, `index_to_id`,
//! `generation` and `free_stack`. Multi-byte fields are little-endian.
//!
//! Handles are `(id, generation)` pairs. A handle is valid when `id < capacity`,
//! `id_to_index[id] != 0xFFFF` and `generation[id]` equals the handle's generation.
pub mod layout;
pub mod region;
pub mod model;
pub mod slotmap;
pub mod laws;

pub use layout::{align4, alignment, layout_size, trailer_offset, values_offset};
pub use slotmap::{
    allocate, clear, debug_validate_slotmap, element_count, element_size,
    get_generation_for_index, get_value_ptr, id_to_generation_ptr_pub, id_to_index_ptr_pub,
    index_to_id_ptr_pub, init, insert, insert_if_alive, is_alive, remove, RegionError,
};
