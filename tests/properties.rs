use dense_slotmap_mem::{
    align4, allocate, clear, debug_validate_slotmap, element_count, element_size,
    get_generation_for_index, get_value_ptr, id_to_generation_ptr_pub, id_to_index_ptr_pub,
    index_to_id_ptr_pub, init, insert, insert_if_alive, is_alive, layout_size, remove,
    trailer_offset, values_offset, RegionError,
};

fn read_u16(buf: &[u8], offset: usize) -> u16 {
    u16::from_le_bytes([buf[offset], buf[offset + 1]])
}

fn read_u32(buf: &[u8], offset: usize) -> u32 {
    u32::from_le_bytes([buf[offset], buf[offset + 1], buf[offset + 2], buf[offset + 3]])
}

fn fresh(capacity: u16, element_size: u32) -> Vec<u8> {
    let mut buf = vec![0u8; layout_size(capacity, element_size)];
    init(&mut buf, capacity, element_size);
    buf
}

fn value_at(buf: &[u8], id: u16, generation: u16) -> Vec<u8> {
    let offset = get_value_ptr(buf, id, generation).expect("live handle");
    let size = element_size(buf) as usize;
    buf[offset..offset + size].to_vec()
}

#[test]
fn layout_formulas_give_exact_sizes() {
    assert_eq!(align4(0), 0);
    assert_eq!(align4(5), 8);
    assert_eq!(align4(8), 8);
    assert_eq!(trailer_offset(3, 4), 20);
    assert_eq!(trailer_offset(3, 1), 12);
    assert_eq!(layout_size(4, 2), 60);
    assert_eq!(layout_size(3, 4), 56);
    assert_eq!(layout_size(1, 1), 32);
    assert_eq!(values_offset(&[]), 8);
}

#[test]
fn array_offsets_follow_the_trailer() {
    let buf = fresh(4, 2);
    assert_eq!(id_to_index_ptr_pub(&buf), 28);
    assert_eq!(index_to_id_ptr_pub(&buf), 36);
    assert_eq!(id_to_generation_ptr_pub(&buf), 44);
    for id in 0..4 {
        assert_eq!(read_u16(&buf, 28 + 2 * id), 0xFFFF);
        assert_eq!(read_u16(&buf, 36 + 2 * id), 0xFFFF);
        assert_eq!(read_u16(&buf, 44 + 2 * id), 1);
        assert_eq!(read_u16(&buf, 52 + 2 * id), id as u16);
    }
    assert_eq!(trailer_offset(4, 2), 16);
    assert_eq!(read_u32(&buf, 16), 0x5356_4543);
    assert_eq!(read_u32(&buf, 20), 2);
    assert_eq!(read_u16(&buf, 24), 4);
    assert_eq!(element_size(&buf), 2);
}

#[test]
fn init_fits_a_buffer_of_exactly_layout_size() {
    let mut buf = vec![0xAAu8; layout_size(1, 3)];
    init(&mut buf, 1, 3);
    assert_eq!(debug_validate_slotmap(&buf), Ok(()));
    let (id, generation) = allocate(&mut buf).unwrap();
    assert_eq!((id, generation), (0, 1));
    assert!(allocate(&mut buf).is_none());
    assert!(insert(&mut buf, id, generation, &[1, 2, 3]));
    assert_eq!(value_at(&buf, id, generation), vec![1, 2, 3]);
}

#[test]
fn first_allocation_takes_highest_id() {
    let mut buf = fresh(4, 4);
    let ids: Vec<u16> = (0..4).map(|_| allocate(&mut buf).unwrap().0).collect();
    assert_eq!(ids, vec![3, 2, 1, 0]);
}

#[test]
fn full_region_then_swap_remove_scenario() {
    let mut buf = fresh(4, 4);
    let mut handles = Vec::new();
    for _ in 0..4 {
        let handle = allocate(&mut buf).unwrap();
        assert_eq!(handle.1, 1);
        handles.push(handle);
    }
    let mut ids: Vec<u16> = handles.iter().map(|h| h.0).collect();
    ids.sort();
    assert_eq!(ids, vec![0, 1, 2, 3]);
    assert!(allocate(&mut buf).is_none());

    assert!(insert(&mut buf, handles[0].0, handles[0].1, &100u32.to_le_bytes()));
    assert!(insert(&mut buf, handles[1].0, handles[1].1, &200u32.to_le_bytes()));
    assert!(insert(&mut buf, handles[3].0, handles[3].1, &300u32.to_le_bytes()));
    assert_eq!(read_u32(&buf, 8 + 4), 200);

    assert!(remove(&mut buf, handles[1].0, handles[1].1));
    assert_eq!(read_u32(&buf, 8 + 4), 300);
    assert_eq!(element_count(&buf), 3);
}

#[test]
fn swap_remove_keeps_other_handles() {
    let mut buf = fresh(5, 2);
    let mut handles = Vec::new();
    for i in 0..5u16 {
        let (id, generation) = allocate(&mut buf).unwrap();
        assert!(insert(&mut buf, id, generation, &(i * 11).to_le_bytes()));
        handles.push((id, generation, i * 11));
    }
    let (id, generation, _) = handles.remove(1);
    assert!(remove(&mut buf, id, generation));
    for &(other, g, value) in &handles {
        assert!(is_alive(&buf, other, g));
        assert_eq!(value_at(&buf, other, g), value.to_le_bytes().to_vec());
    }
    let moved = handles[3];
    let index_of_moved = read_u16(&buf, id_to_index_ptr_pub(&buf) + 2 * moved.0 as usize);
    assert_eq!(index_of_moved, 1);
    assert_eq!(read_u16(&buf, index_to_id_ptr_pub(&buf) + 2), moved.0);
}

#[test]
fn insert_then_read_back_round_trips() {
    let mut buf = fresh(3, 5);
    let (id, generation) = allocate(&mut buf).unwrap();
    let bytes = [9u8, 8, 7, 6, 5];
    assert!(insert_if_alive(&mut buf, id, generation, &bytes));
    assert_eq!(value_at(&buf, id, generation), bytes.to_vec());
    assert_eq!(get_value_ptr(&buf, id, generation), Some(8));
    assert_eq!(get_value_ptr(&buf, id, generation + 1), None);
}

#[test]
fn failed_operations_leave_bytes_unchanged() {
    let mut buf = fresh(3, 2);
    let (id, generation) = allocate(&mut buf).unwrap();
    assert!(insert(&mut buf, id, generation, &[4, 5]));
    let before = buf.clone();
    assert!(!remove(&mut buf, id, generation + 1));
    assert!(!remove(&mut buf, 3, generation));
    assert!(!insert(&mut buf, id, generation + 1, &[7, 7]));
    assert!(!insert_if_alive(&mut buf, 0, generation, &[7, 7]));
    assert_eq!(buf, before);
    assert!(remove(&mut buf, id, generation));
    let after_remove = buf.clone();
    assert!(!remove(&mut buf, id, generation));
    assert_eq!(buf, after_remove);
    assert_eq!(element_count(&buf), 0);
}

#[test]
fn generations_increase_by_one_and_wrap() {
    let mut buf = fresh(2, 1);
    let (id, mut generation) = allocate(&mut buf).unwrap();
    assert_eq!(generation, 1);
    for _ in 0..65535u32 {
        assert!(remove(&mut buf, id, generation));
        let (again, next) = allocate(&mut buf).unwrap();
        assert_eq!(again, id);
        assert_eq!(next, generation.wrapping_add(1));
        assert!(!is_alive(&buf, id, generation));
        generation = next;
    }
    assert_eq!(generation, 0);
    assert!(is_alive(&buf, id, 0));
}

#[test]
fn clear_keeps_generations() {
    let mut buf = fresh(2, 1);
    let (id, generation) = allocate(&mut buf).unwrap();
    assert!(remove(&mut buf, id, generation));
    let (id2, generation2) = allocate(&mut buf).unwrap();
    assert_eq!((id2, generation2), (id, 2));
    clear(&mut buf);
    assert!(!is_alive(&buf, id2, generation2));
    assert_eq!(debug_validate_slotmap(&buf), Ok(()));
    let (first, g) = allocate(&mut buf).unwrap();
    assert_eq!(first, id);
    assert_eq!(g, 2);
    let (second, g2) = allocate(&mut buf).unwrap();
    assert_eq!(second, 1 - id);
    assert_eq!(g2, 1);
}

#[test]
fn dense_array_has_no_gaps_after_mixed_operations() {
    let mut buf = fresh(6, 1);
    let mut live = Vec::new();
    for step in 0..40u16 {
        if step % 4 == 3 && !live.is_empty() {
            let (id, g) = live.remove((step as usize) % live.len());
            assert!(remove(&mut buf, id, g));
        } else if let Some(h) = allocate(&mut buf) {
            live.push(h);
        }
        assert_eq!(debug_validate_slotmap(&buf), Ok(()));
        let len = element_count(&buf) as usize;
        let free_top = read_u16(&buf, trailer_offset(6, 1) + 8) as usize;
        assert_eq!(len + free_top, 6);
        let index_to_id = index_to_id_ptr_pub(&buf);
        let id_to_index = id_to_index_ptr_pub(&buf);
        for i in 0..6 {
            let id = read_u16(&buf, index_to_id + 2 * i);
            if i < len {
                assert!(id < 6);
                assert_eq!(read_u16(&buf, id_to_index + 2 * id as usize) as usize, i);
                let g = get_generation_for_index(&buf, i as u16).unwrap();
                assert!(is_alive(&buf, id, g));
            } else {
                assert_eq!(id, 0xFFFF);
                assert_eq!(get_generation_for_index(&buf, i as u16), None);
            }
        }
    }
}

#[test]
fn validation_reports_each_fault() {
    assert_eq!(debug_validate_slotmap(&[0u8; 4]), Err(RegionError::BufferTooSmall));
    assert_eq!(debug_validate_slotmap(&[0u8; 64]), Err(RegionError::CapacityZero));

    let zero_size = fresh(2, 0);
    assert_eq!(debug_validate_slotmap(&zero_size), Err(RegionError::ElementSizeZero));

    let mut too_large = fresh(2, 4);
    too_large[4..8].copy_from_slice(&(2 * 1024 * 1024u32).to_le_bytes());
    assert_eq!(debug_validate_slotmap(&too_large), Err(RegionError::ElementSizeTooLarge));

    let short = fresh(2, 4);
    assert_eq!(debug_validate_slotmap(&short[..short.len() - 1]), Err(RegionError::BufferTooSmall));

    assert_eq!(debug_validate_slotmap(&fresh(2, 4)), Ok(()));
}

#[test]
fn zero_element_size_still_tracks_handles() {
    let mut buf = fresh(2, 0);
    let (id, generation) = allocate(&mut buf).unwrap();
    assert!(insert(&mut buf, id, generation, &[]));
    assert_eq!(value_at(&buf, id, generation), Vec::<u8>::new());
    assert!(remove(&mut buf, id, generation));
    assert_eq!(element_count(&buf), 0);
}
