use dense_slotmap_mem::{
    alignment, allocate, clear, debug_validate_slotmap, element_count, get_generation_for_index,
    index_to_id_ptr_pub, init, insert, insert_if_alive, is_alive, layout_size, remove,
    trailer_offset, values_offset, RegionError,
};

fn read_u16(buf: &[u8], offset: usize) -> u16 {
    u16::from_le_bytes([buf[offset], buf[offset + 1]])
}

fn read_u32(buf: &[u8], offset: usize) -> u32 {
    u32::from_le_bytes([buf[offset], buf[offset + 1], buf[offset + 2], buf[offset + 3]])
}

#[test]
fn test_layout_and_initialization() {
    let capacity = 4u16;
    let element_size = 2u32;
    let size = layout_size(capacity, element_size);

    let header = 8;
    let values_size = capacity as usize * element_size as usize;
    let trailer_off = ((header + values_size) + 3) & !3;
    let trailer_header = 12;
    let arrays_off = ((trailer_off + trailer_header) + 3) & !3;
    let arrays_size = 4 * capacity as usize * size_of::<u16>();
    assert_eq!(size, arrays_off + arrays_size);
    assert_eq!(alignment(), 4);

    let mut memory_buffer = vec![0u8; size];
    init(&mut memory_buffer, capacity, element_size);
    assert_eq!(read_u16(&memory_buffer, 0), capacity);
    assert_eq!(element_count(&memory_buffer), 0);
}

#[test]
fn test_allocate_remove_generation_tracking() {
    let capacity = 4u16;
    let element_size = 4u32;
    let size = layout_size(capacity, element_size);
    let mut buf = vec![0u8; size];
    init(&mut buf, capacity, element_size);

    let mut handles = Vec::new();
    for _ in 0..capacity {
        let (id, generation) = allocate(&mut buf).expect("should allocate");
        assert!(id < capacity);
        assert_eq!(generation, 1, "First generation should be 1");
        assert!(is_alive(&buf, id, generation));
        handles.push((id, generation));
    }
    assert_eq!(element_count(&buf), capacity);
    assert!(allocate(&mut buf).is_none(), "Should be full");

    let (id, generation) = handles[0];
    assert!(remove(&mut buf, id, generation));
    assert!(!is_alive(&buf, id, generation));
    assert_eq!(element_count(&buf), capacity - 1);

    let (new_id, new_generation) = allocate(&mut buf).expect("should reallocate");
    assert_eq!(new_id, id, "Should reuse same ID");
    assert_eq!(new_generation, generation + 1, "Generation should increment");
    assert!(is_alive(&buf, new_id, new_generation));
    assert!(!is_alive(&buf, id, generation), "Old generation should be invalid");
}

#[test]
fn test_dense_storage_and_values() {
    let capacity = 4u16;
    let element_size = 4u32;
    let size = layout_size(capacity, element_size);
    let mut buf = vec![0u8; size];
    init(&mut buf, capacity, element_size);

    let values = [100u32, 200u32, 300u32];
    let mut handles = Vec::new();
    for &val in &values {
        let (id, generation) = allocate(&mut buf).unwrap();
        assert!(insert(&mut buf, id, generation, &val.to_le_bytes()));
        handles.push((id, generation));
    }

    let values_off = values_offset(&buf);
    for (i, &expected) in values.iter().enumerate() {
        let stored = read_u32(&buf, values_off + i * element_size as usize);
        assert_eq!(stored, expected);
    }

    remove(&mut buf, handles[1].0, handles[1].1);
    assert_eq!(element_count(&buf), 2);

    let swapped = read_u32(&buf, values_off + element_size as usize);
    assert_eq!(swapped, 300u32, "Last element should swap into removed slot");
}

#[test]
fn test_id_reuse_lifo_order() {
    let capacity = 5u16;
    let element_size = 1u32;
    let size = layout_size(capacity, element_size);
    let mut buf = vec![0u8; size];
    init(&mut buf, capacity, element_size);

    let mut handles = Vec::new();
    for _ in 0..capacity {
        handles.push(allocate(&mut buf).unwrap());
    }

    let remove_order = [1, 3, 0];
    let mut removed_ids = Vec::new();
    for &idx in &remove_order {
        let (id, generation) = handles[idx];
        assert!(remove(&mut buf, id, generation));
        removed_ids.push(id);
    }

    let reused = [
        allocate(&mut buf).unwrap().0,
        allocate(&mut buf).unwrap().0,
        allocate(&mut buf).unwrap().0,
    ];

    assert_eq!(reused[0], removed_ids[2]);
    assert_eq!(reused[1], removed_ids[1]);
    assert_eq!(reused[2], removed_ids[0]);
}

#[test]
fn test_invalid_operations() {
    let capacity = 3u16;
    let element_size = 4u32;
    let size = layout_size(capacity, element_size);
    let mut buf = vec![0u8; size];
    init(&mut buf, capacity, element_size);
    let (id, generation) = allocate(&mut buf).unwrap();

    assert!(!remove(&mut buf, id, generation + 1));
    assert!(!is_alive(&buf, id, generation + 1));

    assert!(remove(&mut buf, id, generation));
    assert!(!is_alive(&buf, id, generation));
    assert!(!remove(&mut buf, id, generation), "Double remove should fail");
    let value = 42u32;
    assert!(
        !insert(&mut buf, id, generation, &value.to_le_bytes()),
        "Insert to removed slot should fail"
    );

    let (new_id, new_generation) = allocate(&mut buf).unwrap();
    assert_eq!(new_id, id);
    assert_ne!(new_generation, generation);
    assert!(is_alive(&buf, new_id, new_generation));
    assert!(!is_alive(&buf, id, generation));
}

#[test]
fn test_generation_zero_is_invalid() {
    let capacity = 3u16;
    let element_size = 1u32;
    let size = layout_size(capacity, element_size);
    let mut buf = vec![0u8; size];
    init(&mut buf, capacity, element_size);

    for _ in 0..capacity {
        let (_, generation) = allocate(&mut buf).unwrap();
        assert_ne!(generation, 0, "Generation 0 should never be returned");
    }

    for id in 0..capacity {
        assert!(!is_alive(&buf, id, 0));
        assert!(!remove(&mut buf, id, 0));
        let value = 1u8;
        assert!(!insert_if_alive(&mut buf, id, 0, &[value]));
    }
}

#[test]
fn test_clear() {
    let capacity = 4u16;
    let element_size = 4u32;
    let size = layout_size(capacity, element_size);
    let mut buf = vec![0u8; size];
    init(&mut buf, capacity, element_size);

    let mut handles = Vec::new();
    for i in 0..3 {
        let (id, generation) = allocate(&mut buf).unwrap();
        let value = (100 + i) as u32;
        insert(&mut buf, id, generation, &value.to_le_bytes());
        handles.push((id, generation));
    }
    assert_eq!(element_count(&buf), 3);

    clear(&mut buf);
    assert_eq!(element_count(&buf), 0);

    for (id, generation) in &handles {
        assert!(!is_alive(&buf, *id, *generation));
    }

    for _ in 0..capacity {
        assert!(allocate(&mut buf).is_some());
    }
    assert_eq!(element_count(&buf), capacity);
    assert!(allocate(&mut buf).is_none());
}

#[test]
fn test_stress_mixed_operations() {
    let capacity = 20u16;
    let element_size = 8u32;
    let size = layout_size(capacity, element_size);
    let mut buf = vec![0u8; size];
    init(&mut buf, capacity, element_size);

    let mut active_handles = Vec::new();
    let mut next_value = 1000u64;

    for iteration in 0..500 {
        let current_count = element_count(&buf) as usize;

        let should_add = if current_count == 0 {
            true
        } else if current_count == capacity as usize {
            false
        } else {
            (iteration % 3) != 0
        };

        if should_add {
            if let Some((id, generation)) = allocate(&mut buf) {
                let value = next_value;
                next_value += 1;
                insert(&mut buf, id, generation, &value.to_le_bytes());
                active_handles.push((id, generation, value));
                assert!(is_alive(&buf, id, generation));
            }
        } else if !active_handles.is_empty() {
            let remove_idx = iteration % active_handles.len();
            let (id, generation, _) = active_handles.remove(remove_idx);
            assert!(remove(&mut buf, id, generation));
            assert!(!is_alive(&buf, id, generation));
        }

        assert_eq!(element_count(&buf) as usize, active_handles.len());
    }
}

#[test]
fn test_iteration_with_generations() {
    let capacity = 8u16;
    let element_size = 4u32;
    let size = layout_size(capacity, element_size);
    let mut buf = vec![0u8; size];
    init(&mut buf, capacity, element_size);

    let mut handles = Vec::new();
    for i in 0..5 {
        let (id, generation) = allocate(&mut buf).unwrap();
        let value = (i + 100) as u32;
        insert(&mut buf, id, generation, &value.to_le_bytes());
        handles.push((id, generation));
    }

    remove(&mut buf, handles[1].0, handles[1].1);
    remove(&mut buf, handles[3].0, handles[3].1);
    assert_eq!(element_count(&buf), 3);

    for _ in 0..2 {
        let (id, generation) = allocate(&mut buf).unwrap();
        let value = 200u32;
        insert(&mut buf, id, generation, &value.to_le_bytes());
    }
    assert_eq!(element_count(&buf), 5);

    for index in 0..element_count(&buf) {
        let id = read_u16(&buf, index_to_id_ptr_pub(&buf) + 2 * index as usize);
        let generation = get_generation_for_index(&buf, index).expect("valid index");
        assert!(is_alive(&buf, id, generation), "Each slot should be alive");
    }
}

#[test]
fn test_debug_validation_corrupted_magic() {
    let capacity = 3u16;
    let element_size = 4u32;
    let size = layout_size(capacity, element_size);
    let mut buf = vec![0u8; size];
    init(&mut buf, capacity, element_size);
    let trailer_off = trailer_offset(capacity, element_size);
    buf[trailer_off..trailer_off + 4].copy_from_slice(&0xDEADBEEFu32.to_le_bytes());
    assert_eq!(debug_validate_slotmap(&buf), Err(RegionError::TrailerMagicMismatch));
}

#[test]
fn test_debug_validation_element_size_mismatch() {
    let capacity = 3u16;
    let element_size = 4u32;
    let size = layout_size(capacity, element_size);
    let mut buf = vec![0u8; size];
    init(&mut buf, capacity, element_size);
    let trailer_off = trailer_offset(capacity, element_size);
    buf[trailer_off + 4..trailer_off + 8].copy_from_slice(&999u32.to_le_bytes());
    assert_eq!(debug_validate_slotmap(&buf), Err(RegionError::ElementSizeMismatch));
}

#[test]
fn test_debug_validation_invalid_len() {
    let capacity = 3u16;
    let element_size = 4u32;
    let size = layout_size(capacity, element_size);
    let mut buf = vec![0u8; size];
    init(&mut buf, capacity, element_size);
    buf[2..4].copy_from_slice(&(capacity + 10).to_le_bytes());
    assert_eq!(debug_validate_slotmap(&buf), Err(RegionError::LenExceedsCapacity));
}

#[test]
fn test_debug_validation_invalid_free_top() {
    let capacity = 3u16;
    let element_size = 4u32;
    let size = layout_size(capacity, element_size);
    let mut buf = vec![0u8; size];
    init(&mut buf, capacity, element_size);
    let trailer_off = trailer_offset(capacity, element_size);
    buf[trailer_off + 8..trailer_off + 10].copy_from_slice(&(capacity + 10).to_le_bytes());
    assert_eq!(debug_validate_slotmap(&buf), Err(RegionError::FreeTopExceedsCapacity));
}

#[test]
fn test_debug_validation_invariant_violation() {
    let capacity = 3u16;
    let element_size = 4u32;
    let size = layout_size(capacity, element_size);
    let mut buf = vec![0u8; size];
    init(&mut buf, capacity, element_size);
    let _ = allocate(&mut buf);
    buf[2..4].copy_from_slice(&2u16.to_le_bytes());
    assert_eq!(debug_validate_slotmap(&buf), Err(RegionError::CountsMismatch));
}
