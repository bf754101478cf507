//! The bytes of a region and the abstract state they encode.
use vstd::prelude::*;

use crate::layout::{
    array_offset, array_offset_spec, free_top_offset, layout_size_spec, lemma_layout_order,
    trailer_offset, trailer_offset_spec, HEADER_SIZE, VALUES_OFFSET,
};

verus! {

/// Sentinel for an unused entry of `id_to_index` or `index_to_id`.
pub const INVALID: u16 = 0xFFFF;

/// Magic number at the start of the trailer header.
pub const TRAILER_MAGIC: u32 = 0x5356_4543;

/// Largest element size that the self-check accepts.
pub const MAX_ELEMENT_SIZE: u32 = 1024 * 1024;

/// Bookkeeping array numbers, in layout order.
pub const ID_TO_INDEX: usize = 0;
pub const INDEX_TO_ID: usize = 1;
pub const GENERATION: usize = 2;
pub const FREE_STACK: usize = 3;

/// Little-endian `u16` stored at byte offset `o`.
pub open spec fn u16_at(b: Seq<u8>, o: int) -> u16 {
    (b[o] as int + 256 * b[o + 1] as int) as u16
}

/// Little-endian `u32` stored at byte offset `o`.
pub open spec fn u32_at(b: Seq<u8>, o: int) -> u32 {
    (u16_at(b, o) as int + 65536 * u16_at(b, o + 2) as int) as u32
}

/// `b` with the little-endian encoding of `v` stored at byte offset `o`.
pub open spec fn put_u16(b: Seq<u8>, o: int, v: u16) -> Seq<u8> {
    b.update(o, (v % 256) as u8).update(o + 1, (v / 256) as u8)
}

/// `b` with the little-endian encoding of `v` stored at byte offset `o`.
pub open spec fn put_u32(b: Seq<u8>, o: int, v: u32) -> Seq<u8> {
    put_u16(put_u16(b, o, (v % 65536) as u16), o + 2, (v / 65536) as u16)
}

/// The `n` little-endian `u16` values stored from byte offset `start` on.
pub open spec fn u16_array(b: Seq<u8>, start: int, n: int) -> Seq<u16> {
    Seq::new(n as nat, |i: int| u16_at(b, start + 2 * i))
}

/// The bytes of dense slot `i`.
pub open spec fn value_slot(b: Seq<u8>, element_size: int, i: int) -> Seq<u8> {
    b.subrange(VALUES_OFFSET + i * element_size, VALUES_OFFSET + i * element_size + element_size)
}

/// The bytes of every dense slot, live or not.
pub open spec fn value_slots(b: Seq<u8>, capacity: int, element_size: int) -> Seq<Seq<u8>> {
    Seq::new(capacity as nat, |i: int| value_slot(b, element_size, i))
}

/// Everything a region records, decoded from its bytes.
#[verifier::ext_equal]
pub struct SlotModel {
    pub capacity: u16,
    pub len: u16,
    pub element_size: u32,
    pub magic: u32,
    pub element_size_echo: u32,
    pub free_top: u16,
    /// Dense index of each id, or `INVALID`.
    pub id_to_index: Seq<u16>,
    /// Id held by each dense slot, or `INVALID`.
    pub index_to_id: Seq<u16>,
    /// Current generation of each id.
    pub generation: Seq<u16>,
    /// Ids available for reuse; the first `free_top` entries are meaningful.
    pub free_stack: Seq<u16>,
    /// Bytes of each dense slot; the first `len` slots are live.
    pub values: Seq<Seq<u8>>,
}

/// The state that the bytes of a region encode.
pub closed spec fn region_model(b: Seq<u8>) -> SlotModel {
    let capacity = u16_at(b, 0);
    let element_size = u32_at(b, 4);
    let trailer = trailer_offset_spec(capacity as int, element_size as int);
    SlotModel {
        capacity,
        len: u16_at(b, 2),
        element_size,
        magic: u32_at(b, trailer),
        element_size_echo: u32_at(b, trailer + 4),
        free_top: u16_at(b, trailer + 8),
        id_to_index: u16_array(
            b,
            array_offset_spec(capacity as int, element_size as int, ID_TO_INDEX as int),
            capacity as int,
        ),
        index_to_id: u16_array(
            b,
            array_offset_spec(capacity as int, element_size as int, INDEX_TO_ID as int),
            capacity as int,
        ),
        generation: u16_array(
            b,
            array_offset_spec(capacity as int, element_size as int, GENERATION as int),
            capacity as int,
        ),
        free_stack: u16_array(
            b,
            array_offset_spec(capacity as int, element_size as int, FREE_STACK as int),
            capacity as int,
        ),
        values: value_slots(b, capacity as int, element_size as int),
    }
}

/// The header can be read and the whole layout it describes lies inside the buffer.
pub open spec fn layout_fits(b: Seq<u8>) -> bool {
    &&& HEADER_SIZE <= b.len()
    &&& layout_size_spec(
        region_model(b).capacity as int,
        region_model(b).element_size as int,
    ) <= b.len()
}

/// The layout fits the buffer, whose length is `n`.
pub open spec fn layout_fits_and_len(b: Seq<u8>, n: int) -> bool {
    &&& layout_fits(b)
    &&& b.len() == n
    &&& n <= usize::MAX
}

impl SlotModel {
    /// Bookkeeping array number `k`.
    pub open spec fn array(self, k: int) -> Seq<u16> {
        if k == ID_TO_INDEX {
            self.id_to_index
        } else if k == INDEX_TO_ID {
            self.index_to_id
        } else if k == GENERATION {
            self.generation
        } else {
            self.free_stack
        }
    }

    /// This state with entry `i` of bookkeeping array number `k` set to `v`.
    pub open spec fn with_entry(self, k: int, i: int, v: u16) -> SlotModel {
        if k == ID_TO_INDEX {
            SlotModel { id_to_index: self.id_to_index.update(i, v), ..self }
        } else if k == INDEX_TO_ID {
            SlotModel { index_to_id: self.index_to_id.update(i, v), ..self }
        } else if k == GENERATION {
            SlotModel { generation: self.generation.update(i, v), ..self }
        } else {
            SlotModel { free_stack: self.free_stack.update(i, v), ..self }
        }
    }
}

/// Each bookkeeping array, and the sequence of value slots, has one entry per id.
pub proof fn lemma_model_lengths(b: Seq<u8>)
    ensures
        region_model(b).id_to_index.len() == region_model(b).capacity,
        region_model(b).index_to_id.len() == region_model(b).capacity,
        region_model(b).generation.len() == region_model(b).capacity,
        region_model(b).free_stack.len() == region_model(b).capacity,
        region_model(b).values.len() == region_model(b).capacity,
{
}

/// Value slot `i` is the `element_size` bytes at offset `VALUES_OFFSET + i * element_size`.
pub proof fn lemma_value_slot_bytes(b: Seq<u8>, i: int)
    requires
        layout_fits(b),
        0 <= i < region_model(b).capacity,
    ensures
        region_model(b).values[i] == b.subrange(
            VALUES_OFFSET + i * region_model(b).element_size,
            VALUES_OFFSET + i * region_model(b).element_size + region_model(b).element_size,
        ),
        VALUES_OFFSET + i * region_model(b).element_size + region_model(b).element_size
            <= trailer_offset_spec(
            region_model(b).capacity as int,
            region_model(b).element_size as int,
        ),
{
    let cap = region_model(b).capacity as int;
    let es = region_model(b).element_size as int;
    lemma_layout_order(cap, es);
    lemma_slot_bounds(cap, es, i, cap);
}

/// Slot `i` ends no later than the value array does, and before slot `j` for `i < j`.
pub proof fn lemma_slot_bounds(capacity: int, element_size: int, i: int, j: int)
    requires
        0 <= i < j <= capacity,
        0 <= element_size,
    ensures
        0 <= i * element_size,
        i * element_size + element_size <= j * element_size,
        j * element_size <= capacity * element_size,
{
    assert(0 <= i * element_size && i * element_size + element_size <= j * element_size
        && j * element_size <= capacity * element_size) by (nonlinear_arith)
        requires
            0 <= i < j <= capacity,
            0 <= element_size,
    ;
}

/// Slots read the same from two buffers that agree on the value array.
pub proof fn lemma_values_frame(b1: Seq<u8>, b2: Seq<u8>, capacity: int, element_size: int)
    requires
        0 <= capacity,
        0 <= element_size,
        VALUES_OFFSET + capacity * element_size <= b1.len(),
        b1.len() == b2.len(),
        forall|p: int|
            VALUES_OFFSET <= p < VALUES_OFFSET + capacity * element_size ==> b1[p] == b2[p],
    ensures
        value_slots(b1, capacity, element_size) =~~= value_slots(b2, capacity, element_size),
{
    assert forall|i: int| 0 <= i < capacity implies value_slot(b1, element_size, i)
        =~= value_slot(b2, element_size, i) by {
        lemma_slot_bounds(capacity, element_size, i, capacity);
    }
}

/// Storing a `u16` at or after the trailer leaves the header and the values unchanged.
pub proof fn lemma_put_u16_after_values(b: Seq<u8>, o: int, v: u16)
    requires
        layout_fits(b),
        trailer_offset_spec(u16_at(b, 0) as int, u32_at(b, 4) as int) <= o,
        o + 2 <= b.len(),
    ensures
        ({
            let m = region_model(b);
            let n = region_model(put_u16(b, o, v));
            &&& n.capacity == m.capacity
            &&& n.len == m.len
            &&& n.element_size == m.element_size
            &&& n.values == m.values
        }),
{
    let m = region_model(b);
    let b2 = put_u16(b, o, v);
    lemma_layout_order(m.capacity as int, m.element_size as int);
    assert(u16_at(b2, 0) == u16_at(b, 0));
    assert(u32_at(b2, 4) == u32_at(b, 4));
    lemma_values_frame(b, b2, m.capacity as int, m.element_size as int);
}

/// Reading back a stored `u16` gives it; reads that do not overlap the store are unaffected.
pub proof fn lemma_u16_at_put(b: Seq<u8>, o: int, v: u16, p: int)
    requires
        0 <= o,
        o + 2 <= b.len(),
        0 <= p,
        p + 2 <= b.len(),
        p == o || p + 2 <= o || o + 2 <= p,
    ensures
        u16_at(put_u16(b, o, v), p) == if p == o {
            v
        } else {
            u16_at(b, p)
        },
{
}

/// Storing a `u16` into a `u16` array updates one entry; arrays elsewhere are unaffected.
pub proof fn lemma_u16_array_put(b: Seq<u8>, o: int, v: u16, start: int, n: int)
    requires
        0 <= o,
        o + 2 <= b.len(),
        0 <= start,
        0 <= n,
        start + 2 * n <= b.len(),
        o + 2 <= start || start + 2 * n <= o || (start <= o && (o - start) % 2 == 0),
    ensures
        u16_array(put_u16(b, o, v), start, n) =~= if start <= o < start + 2 * n {
            u16_array(b, start, n).update((o - start) / 2, v)
        } else {
            u16_array(b, start, n)
        },
{
    assert forall|i: int| 0 <= i < n implies #[trigger] u16_at(put_u16(b, o, v), start + 2 * i)
        == if start + 2 * i == o {
        v
    } else {
        u16_at(b, start + 2 * i)
    } by {
        lemma_u16_at_put(b, o, v, start + 2 * i);
    }
}

/// Storing a `u16` at the free-stack top or at an entry of a bookkeeping array changes that
/// field and nothing else.
pub proof fn lemma_put_u16_bookkeeping(b: Seq<u8>, o: int, v: u16)
    requires
        layout_fits(b),
        o + 2 <= b.len(),
        ({
            let cap = region_model(b).capacity as int;
            let es = region_model(b).element_size as int;
            let arrays = array_offset_spec(cap, es, 0);
            o == trailer_offset_spec(cap, es) + 8 || (arrays <= o && (o - arrays) % 2 == 0)
        }),
    ensures
        ({
            let m = region_model(b);
            let n = region_model(put_u16(b, o, v));
            let cap = m.capacity as int;
            let es = m.element_size as int;
            &&& n.capacity == m.capacity
            &&& n.len == m.len
            &&& n.element_size == m.element_size
            &&& n.magic == m.magic
            &&& n.element_size_echo == m.element_size_echo
            &&& n.values == m.values
            &&& n.free_top == if o == trailer_offset_spec(cap, es) + 8 {
                v
            } else {
                m.free_top
            }
            &&& forall|k: int|
                0 <= k < 4 ==> #[trigger] u16_array(put_u16(b, o, v), array_offset_spec(cap, es, k), cap)
                    == if array_offset_spec(cap, es, k) <= o < array_offset_spec(cap, es, k) + 2
                    * cap {
                    u16_array(b, array_offset_spec(cap, es, k), cap).update(
                        (o - array_offset_spec(cap, es, k)) / 2,
                        v,
                    )
                } else {
                    u16_array(b, array_offset_spec(cap, es, k), cap)
                }
        }),
{
    let m = region_model(b);
    let cap = m.capacity as int;
    let es = m.element_size as int;
    let t = trailer_offset_spec(cap, es);
    lemma_layout_order(cap, es);
    lemma_put_u16_after_values(b, o, v);
    lemma_u16_at_put(b, o, v, t);
    lemma_u16_at_put(b, o, v, t + 2);
    lemma_u16_at_put(b, o, v, t + 4);
    lemma_u16_at_put(b, o, v, t + 6);
    lemma_u16_at_put(b, o, v, t + 8);
    assert forall|k: int| 0 <= k < 4 implies #[trigger] u16_array(
        put_u16(b, o, v),
        array_offset_spec(cap, es, k),
        cap,
    ) == if array_offset_spec(cap, es, k) <= o < array_offset_spec(cap, es, k) + 2 * cap {
        u16_array(b, array_offset_spec(cap, es, k), cap).update(
            (o - array_offset_spec(cap, es, k)) / 2,
            v,
        )
    } else {
        u16_array(b, array_offset_spec(cap, es, k), cap)
    } by {
        assert(k * 2 * cap == 2 * cap * k) by (nonlinear_arith);
        lemma_u16_array_put(b, o, v, array_offset_spec(cap, es, k), cap);
    }
}

/// Sets entry `i` of bookkeeping array number `k` to `v`.
#[verifier::rlimit(50)]
pub(crate) fn set_entry(region: &mut [u8], capacity: u16, element_size: u32, k: usize, i: u16, v: u16)
    requires
        layout_fits(old(region)@),
        capacity == region_model(old(region)@).capacity,
        element_size == region_model(old(region)@).element_size,
        k < 4,
        i < capacity,
    ensures
        final(region)@.len() == old(region)@.len(),
        region_model(final(region)@) == region_model(old(region)@).with_entry(k as int, i as int, v),
{
    let ghost b = region@;
    let ghost m = region_model(b);
    proof {
        lemma_len_fits(&*region);
    }
    let start = array_offset(capacity, element_size, k);
    let o = start + 2 * (i as usize);
    proof {
        lemma_layout_order(capacity as int, element_size as int);
        lemma_put_u16_bookkeeping(b, o as int, v);
    }
    write_u16(region, o, v);
    proof {
        assert(region_model(region@) =~~= m.with_entry(k as int, i as int, v));
    }
}

/// Sets the free-stack top to `v`.
#[verifier::rlimit(50)]
pub(crate) fn set_free_top(region: &mut [u8], capacity: u16, element_size: u32, v: u16)
    requires
        layout_fits(old(region)@),
        capacity == region_model(old(region)@).capacity,
        element_size == region_model(old(region)@).element_size,
    ensures
        final(region)@.len() == old(region)@.len(),
        region_model(final(region)@) == (SlotModel { free_top: v, ..region_model(old(region)@) }),
{
    let ghost b = region@;
    let ghost m = region_model(b);
    proof {
        lemma_len_fits(&*region);
    }
    let o = free_top_offset(capacity, element_size);
    proof {
        lemma_layout_order(capacity as int, element_size as int);
        lemma_put_u16_bookkeeping(b, o as int, v);
    }
    write_u16(region, o, v);
    proof {
        assert(region_model(region@) =~~= (SlotModel { free_top: v, ..m }));
    }
}

/// Sets the live element count to `v`.
pub(crate) fn set_len(region: &mut [u8], v: u16)
    requires
        layout_fits(old(region)@),
    ensures
        final(region)@.len() == old(region)@.len(),
        region_model(final(region)@) == (SlotModel { len: v, ..region_model(old(region)@) }),
{
    let ghost b = region@;
    let ghost m = region_model(b);
    proof {
        let cap = m.capacity as int;
        let es = m.element_size as int;
        lemma_layout_order(cap, es);
        lemma_u16_at_put(b, 2, v, 0);
        lemma_u16_at_put(b, 2, v, 2);
        lemma_u16_at_put(b, 2, v, 4);
        lemma_u16_at_put(b, 2, v, 6);
        let b2 = put_u16(b, 2, v);
        lemma_values_frame(b, b2, cap, es);
        assert forall|p: int| 8 <= p < b.len() implies b2[p] == b[p] by {}
    }
    write_u16(region, 2, v);
    proof {
        assert(region_model(region@) =~~= (SlotModel { len: v, ..m }));
    }
}

/// Two buffers that agree outside the value array encode the same state but for the values.
pub proof fn lemma_meta_frame(b1: Seq<u8>, b2: Seq<u8>)
    requires
        layout_fits(b1),
        b1.len() == b2.len(),
        forall|p: int|
            0 <= p < b1.len() && (p < VALUES_OFFSET || VALUES_OFFSET + region_model(b1).capacity
                * region_model(b1).element_size <= p) ==> b1[p] == b2[p],
    ensures
        layout_fits(b2),
        region_model(b2) == (SlotModel { values: region_model(b2).values, ..region_model(b1) }),
        region_model(b2).values.len() == region_model(b1).values.len(),
{
    let m = region_model(b1);
    let cap = m.capacity as int;
    let es = m.element_size as int;
    lemma_layout_order(cap, es);
    assert(u16_at(b2, 0) == u16_at(b1, 0));
    assert(u16_at(b2, 2) == u16_at(b1, 2));
    assert(u32_at(b2, 4) == u32_at(b1, 4));
    let t = trailer_offset_spec(cap, es);
    assert(u32_at(b2, t) == u32_at(b1, t));
    assert(u32_at(b2, t + 4) == u32_at(b1, t + 4));
    assert(u16_at(b2, t + 8) == u16_at(b1, t + 8));
    assert forall|k: int| 0 <= k < 4 implies u16_array(b2, array_offset_spec(cap, es, k), cap)
        =~= u16_array(b1, array_offset_spec(cap, es, k), cap) by {
        let s = array_offset_spec(cap, es, k);
        assert forall|i: int| 0 <= i < cap implies #[trigger] u16_at(b2, s + 2 * i) == u16_at(b1, s + 2 * i)
            by {
            assert(s + 2 * i + 2 <= s + 2 * cap) by (nonlinear_arith)
                requires
                    0 <= i < cap,
            ;
            assert(k * 2 * cap <= 6 * cap) by (nonlinear_arith)
                requires
                    0 <= k < 4,
                    0 <= cap,
            ;
            assert(0 <= k * 2 * cap) by (nonlinear_arith)
                requires
                    0 <= k < 4,
                    0 <= cap,
            ;
        }
    }
    assert(region_model(b2) =~~= (SlotModel { values: region_model(b2).values, ..m }));
}

/// Two buffers that agree outside the trailer header encode the same state but for the
/// trailer fields.
pub proof fn lemma_trailer_frame(b1: Seq<u8>, b2: Seq<u8>)
    requires
        layout_fits(b1),
        b1.len() == b2.len(),
        forall|p: int|
            0 <= p < b1.len() && (p < trailer_offset_spec(u16_at(b1, 0) as int, u32_at(b1, 4) as int)
                || trailer_offset_spec(u16_at(b1, 0) as int, u32_at(b1, 4) as int) + 12 <= p)
                ==> b1[p] == b2[p],
    ensures
        layout_fits(b2),
        ({
            let t = trailer_offset_spec(u16_at(b1, 0) as int, u32_at(b1, 4) as int);
            region_model(b2) == (SlotModel {
                magic: u32_at(b2, t),
                element_size_echo: u32_at(b2, t + 4),
                free_top: u16_at(b2, t + 8),
                ..region_model(b1)
            })
        }),
{
    let m = region_model(b1);
    let cap = m.capacity as int;
    let es = m.element_size as int;
    let t = trailer_offset_spec(cap, es);
    lemma_layout_order(cap, es);
    assert(u16_at(b2, 0) == u16_at(b1, 0));
    assert(u16_at(b2, 2) == u16_at(b1, 2));
    assert(u32_at(b2, 4) == u32_at(b1, 4));
    lemma_values_frame(b1, b2, cap, es);
    assert forall|k: int| 0 <= k < 4 implies u16_array(b2, array_offset_spec(cap, es, k), cap)
        =~= u16_array(b1, array_offset_spec(cap, es, k), cap) by {
        let s = array_offset_spec(cap, es, k);
        assert forall|i: int| 0 <= i < cap implies #[trigger] u16_at(b2, s + 2 * i) == u16_at(
            b1,
            s + 2 * i,
        ) by {
            assert(s + 2 * i + 2 <= s + 2 * cap) by (nonlinear_arith)
                requires
                    0 <= i < cap,
            ;
            assert(0 <= k * 2 * cap <= 6 * cap) by (nonlinear_arith)
                requires
                    0 <= k < 4,
                    0 <= cap,
            ;
        }
    }
    assert(region_model(b2) =~~= (SlotModel {
        magic: u32_at(b2, t),
        element_size_echo: u32_at(b2, t + 4),
        free_top: u16_at(b2, t + 8),
        ..m
    }));
}

/// Writes the trailer header: magic, element size echo, free-stack top and zero padding.
#[verifier::rlimit(50)]
pub(crate) fn write_trailer_header(region: &mut [u8], capacity: u16, element_size: u32)
    requires
        layout_fits(old(region)@),
        capacity == region_model(old(region)@).capacity,
        element_size == region_model(old(region)@).element_size,
    ensures
        final(region)@.len() == old(region)@.len(),
        layout_fits(final(region)@),
        region_model(final(region)@) == (SlotModel {
            magic: TRAILER_MAGIC,
            element_size_echo: element_size,
            free_top: capacity,
            ..region_model(old(region)@)
        }),
{
    let ghost b0 = region@;
    proof {
        lemma_len_fits(&*region);
    }
    proof {
        lemma_layout_order(capacity as int, element_size as int);
    }
    let t = trailer_offset(capacity, element_size);
    write_u32(region, t, TRAILER_MAGIC);
    write_u32(region, t + 4, element_size);
    write_u16(region, t + 8, capacity);
    write_u16(region, t + 10, 0);
    proof {
        let b = region@;
        assert forall|p: int| 0 <= p < b0.len() && (p < t || t + 12 <= p) implies b0[p] == b[p] by {}
        lemma_trailer_frame(b0, b);
        assert(u16_at(b, t as int) == TRAILER_MAGIC % 65536);
        assert(u16_at(b, t + 2) == TRAILER_MAGIC / 65536);
        assert(u16_at(b, t + 4) == element_size % 65536);
        assert(u16_at(b, t + 6) == element_size / 65536);
        assert(u16_at(b, t + 8) == capacity);
    }
}

/// Copies `src` into dense slot `index`.
#[verifier::rlimit(50)]
pub(crate) fn write_slot(region: &mut [u8], capacity: u16, element_size: u32, index: u16, src: &[u8])
    requires
        layout_fits(old(region)@),
        capacity == region_model(old(region)@).capacity,
        element_size == region_model(old(region)@).element_size,
        index < capacity,
        src@.len() == element_size,
    ensures
        final(region)@.len() == old(region)@.len(),
        region_model(final(region)@) == (SlotModel {
            values: region_model(old(region)@).values.update(index as int, src@),
            ..region_model(old(region)@)
        }),
{
    let ghost b0 = region@;
    let ghost m = region_model(b0);
    let ghost cap = capacity as int;
    let ghost es = element_size as int;
    proof {
        lemma_len_fits(&*region);
    }
    proof {
        lemma_layout_order(cap, es);
        lemma_slot_bounds(cap, es, index as int, cap);
    }
    let start = VALUES_OFFSET + index as usize * element_size as usize;
    let n = element_size as usize;
    let mut k: usize = 0;
    while k < n
        invariant
            k <= n,
            n == es,
            start == VALUES_OFFSET + index * es,
            start + n <= VALUES_OFFSET + cap * es,
            VALUES_OFFSET + cap * es <= b0.len(),
            src@.len() == n,
            region@.len() == b0.len(),
            b0.len() <= usize::MAX,
            forall|p: int| 0 <= p < b0.len() && !(start <= p < start + k) ==> region@[p] == b0[p],
            forall|p: int| start <= p < start + k ==> #[trigger] region@[p] == src@[p - start],
        decreases n - k,
    {
        region[start + k] = src[k];
        k += 1;
    }
    proof {
        let b = region@;
        lemma_meta_frame(b0, b);
        assert forall|l: int| 0 <= l < cap implies value_slot(b, es, l) =~= if l == index {
            src@
        } else {
            value_slot(b0, es, l)
        } by {
            if l < index {
                lemma_slot_bounds(cap, es, l, index as int);
            } else if l > index {
                lemma_slot_bounds(cap, es, index as int, l);
            }
            lemma_slot_bounds(cap, es, l, cap);
        }
        assert(region_model(b) =~~= (SlotModel {
            values: m.values.update(index as int, src@),
            ..m
        }));
    }
}

/// Swaps the bytes of dense slots `i` and `j`.
#[verifier::rlimit(50)]
pub(crate) fn swap_slots(region: &mut [u8], capacity: u16, element_size: u32, i: u16, j: u16)
    requires
        layout_fits(old(region)@),
        capacity == region_model(old(region)@).capacity,
        element_size == region_model(old(region)@).element_size,
        i < j < capacity,
    ensures
        final(region)@.len() == old(region)@.len(),
        region_model(final(region)@) == (SlotModel {
            values: region_model(old(region)@).values.update(
                i as int,
                region_model(old(region)@).values[j as int],
            ).update(j as int, region_model(old(region)@).values[i as int]),
            ..region_model(old(region)@)
        }),
{
    let ghost b0 = region@;
    let ghost m = region_model(b0);
    let ghost cap = capacity as int;
    let ghost es = element_size as int;
    proof {
        lemma_len_fits(&*region);
    }
    proof {
        lemma_layout_order(cap, es);
        lemma_slot_bounds(cap, es, i as int, j as int);
        lemma_slot_bounds(cap, es, j as int, cap);
    }
    let a = VALUES_OFFSET + i as usize * element_size as usize;
    let c = VALUES_OFFSET + j as usize * element_size as usize;
    let n = element_size as usize;
    let mut k: usize = 0;
    while k < n
        invariant
            k <= n,
            n == es,
            a == VALUES_OFFSET + i * es,
            c == VALUES_OFFSET + j * es,
            a + n <= c,
            c + n <= VALUES_OFFSET + cap * es,
            VALUES_OFFSET + cap * es <= b0.len(),
            region@.len() == b0.len(),
            b0.len() <= usize::MAX,
            forall|p: int|
                0 <= p < b0.len() && !(a <= p < a + k) && !(c <= p < c + k) ==> region@[p] == b0[p],
            forall|p: int| a <= p < a + k ==> #[trigger] region@[p] == b0[p - a + c],
            forall|p: int| c <= p < c + k ==> #[trigger] region@[p] == b0[p - c + a],
        decreases n - k,
    {
        let tmp = region[a + k];
        region[a + k] = region[c + k];
        region[c + k] = tmp;
        k += 1;
    }
    proof {
        let b = region@;
        lemma_meta_frame(b0, b);
        assert forall|l: int| 0 <= l < cap implies value_slot(b, es, l) =~= if l == i {
            value_slot(b0, es, j as int)
        } else if l == j {
            value_slot(b0, es, i as int)
        } else {
            value_slot(b0, es, l)
        } by {
            lemma_slot_bounds(cap, es, l, cap);
            if l < i {
                lemma_slot_bounds(cap, es, l, i as int);
            }
            if i < l < j {
                lemma_slot_bounds(cap, es, i as int, l);
                lemma_slot_bounds(cap, es, l, j as int);
            }
            if l > j {
                lemma_slot_bounds(cap, es, j as int, l);
            }
        }
        assert(region_model(b) =~~= (SlotModel {
            values: m.values.update(i as int, m.values[j as int]).update(
                j as int,
                m.values[i as int],
            ),
            ..m
        }));
    }
}

/// Reads entry `i` of bookkeeping array number `k`.
pub(crate) fn get_entry(region: &[u8], capacity: u16, element_size: u32, k: usize, i: u16) -> (r: u16)
    requires
        layout_fits(region@),
        capacity == region_model(region@).capacity,
        element_size == region_model(region@).element_size,
        k < 4,
        i < capacity,
    ensures
        r == region_model(region@).array(k as int)[i as int],
{
    proof {
        lemma_len_fits(region);
    }
    let start = array_offset(capacity, element_size, k);
    read_u16(region, start + 2 * (i as usize))
}

/// Reads capacity, element count and element size from the header.
pub(crate) fn read_header(region: &[u8]) -> (r: (u16, u16, u32))
    requires
        HEADER_SIZE <= region@.len(),
    ensures
        r.0 == region_model(region@).capacity,
        r.1 == region_model(region@).len,
        r.2 == region_model(region@).element_size,
{
    (read_u16(region, 0), read_u16(region, 2), read_u32(region, 4))
}

/// Reads the free-stack top from the trailer header.
pub(crate) fn read_free_top(region: &[u8], capacity: u16, element_size: u32) -> (r: u16)
    requires
        layout_fits(region@),
        capacity == region_model(region@).capacity,
        element_size == region_model(region@).element_size,
    ensures
        r == region_model(region@).free_top,
{
    proof {
            lemma_layout_order(capacity as int, element_size as int);
    }
    proof {
        lemma_len_fits(region);
    }
    read_u16(region, free_top_offset(capacity, element_size))
}

/// Writes a header for `capacity` slots of `element_size` bytes with no live elements.
pub(crate) fn write_header(region: &mut [u8], capacity: u16, element_size: u32)
    requires
        HEADER_SIZE <= old(region)@.len(),
    ensures
        final(region)@.len() == old(region)@.len(),
        region_model(final(region)@).capacity == capacity,
        region_model(final(region)@).len == 0,
        region_model(final(region)@).element_size == element_size,
        layout_size_spec(capacity as int, element_size as int) <= old(region)@.len()
            ==> region_model(final(region)@).values == value_slots(
            old(region)@,
            capacity as int,
            element_size as int,
        ),
{
    let ghost b0 = region@;
    proof {
        lemma_len_fits(&*region);
    }
    write_u16(region, 0, capacity);
    write_u16(region, 2, 0);
    write_u32(region, 4, element_size);
    proof {
        let b = region@;
        assert(u16_at(b, 0) == capacity);
        assert(u32_at(b, 4) == element_size);
        if layout_size_spec(capacity as int, element_size as int) <= b0.len() {
            lemma_layout_order(capacity as int, element_size as int);
            lemma_values_frame(b0, b, capacity as int, element_size as int);
        }
    }
}

/// Reads the magic number and the element size echo from the trailer header.
pub(crate) fn read_trailer(region: &[u8], capacity: u16, element_size: u32) -> (r: (u32, u32))
    requires
        layout_fits(region@),
        capacity == region_model(region@).capacity,
        element_size == region_model(region@).element_size,
    ensures
        r.0 == region_model(region@).magic,
        r.1 == region_model(region@).element_size_echo,
{
    proof {
        lemma_layout_order(capacity as int, element_size as int);
    }
    proof {
        lemma_len_fits(region);
    }
    let t = trailer_offset(capacity, element_size);
    (read_u32(region, t), read_u32(region, t + 4))
}

/// The length of a slice fits in `usize`.
pub proof fn lemma_len_fits(region: &[u8])
    ensures
        region@.len() <= usize::MAX,
{
    assert(vstd::slice::spec_slice_len(region) == region@.len());
}

/// Reads the little-endian `u16` at offset `o`.
pub(crate) fn read_u16(region: &[u8], o: usize) -> (r: u16)
    requires
        o + 2 <= region@.len(),
    ensures
        r == u16_at(region@, o as int),
{
    region[o] as u16 + (region[o + 1] as u16) * 256
}

/// Reads the little-endian `u32` at offset `o`.
pub(crate) fn read_u32(region: &[u8], o: usize) -> (r: u32)
    requires
        o + 4 <= region@.len(),
    ensures
        r == u32_at(region@, o as int),
{
    proof {
        lemma_len_fits(region);
    }
    read_u16(region, o) as u32 + (read_u16(region, o + 2) as u32) * 65536
}

/// Stores `v` little-endian at offset `o`.
pub(crate) fn write_u16(region: &mut [u8], o: usize, v: u16)
    requires
        o + 2 <= old(region)@.len(),
    ensures
        final(region)@ == put_u16(old(region)@, o as int, v),
{
    region[o] = (v % 256) as u8;
    region[o + 1] = (v / 256) as u8;
}

/// Stores `v` little-endian at offset `o`.
pub(crate) fn write_u32(region: &mut [u8], o: usize, v: u32)
    requires
        o + 4 <= old(region)@.len(),
    ensures
        final(region)@ == put_u32(old(region)@, o as int, v),
{
    proof {
        lemma_len_fits(&*region);
    }
    write_u16(region, o, (v % 65536) as u16);
    write_u16(region, o + 2, (v / 65536) as u16);
}

} // verus!
