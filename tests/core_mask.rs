use melon::core_mask::{cores_to_ids, CoreMask};

#[test]
fn test_core_mask_allocation_and_freeing() {
    let mut core_mask = CoreMask::new(8);
    assert_eq!(core_mask.get_allocated_cores(), 0b0000_0000);

    let allocation1 = core_mask.allocate(4).unwrap();
    assert_eq!(allocation1, 0b1111_0000);
    assert_eq!(core_mask.get_allocated_cores(), 0b1111_0000);

    let allocation2 = core_mask.allocate(1).unwrap();
    assert_eq!(allocation2, 0b0000_1000);
    assert_eq!(core_mask.get_allocated_cores(), 0b1111_1000);

    let allocation3 = core_mask.allocate(1).unwrap();
    assert_eq!(allocation3, 0b0000_0100);
    assert_eq!(core_mask.get_allocated_cores(), 0b1111_1100);

    core_mask.free(allocation2);
    assert_eq!(core_mask.get_allocated_cores(), 0b1111_0100);

    let allocation5 = core_mask.allocate(2).unwrap();
    assert_eq!(allocation5, 0b0000_1010);
    assert_eq!(core_mask.get_allocated_cores(), 0b1111_1110);

    assert!(core_mask.allocate(3).is_none());
    assert_eq!(core_mask.get_allocated_cores(), 0b1111_1110);

    core_mask.free(allocation1);
    assert_eq!(core_mask.get_allocated_cores(), 0b0000_1110);
}

#[test]
fn test_allocate_returns_none() {
    let mut core_mask = CoreMask::new(8);
    assert!(core_mask.allocate(0).is_none());
    assert!(core_mask.allocate(9).is_none());
}

#[test]
fn test_allocate_returns_some() {
    let mut core_mask = CoreMask::new(8);
    let result = core_mask.allocate(4);
    assert!(result.is_some());
    assert_eq!(result.unwrap(), 0b1111_0000);
    let result = core_mask.allocate(2);
    assert!(result.is_some());
    assert_eq!(result.unwrap(), 0b0000_1100);
}

#[test]
fn test_mask_to_string_empty() {
    assert_eq!(CoreMask::mask_to_string(0), "");
}

#[test]
fn test_mask_to_string_single_core() {
    assert_eq!(CoreMask::mask_to_string(1), "0");
    assert_eq!(CoreMask::mask_to_string(1 << 63), "63");
}

#[test]
fn test_mask_to_string_consecutive_cores() {
    assert_eq!(CoreMask::mask_to_string(0b1111), "0,1,2,3");
    assert_eq!(CoreMask::mask_to_string(0b11110000), "4,5,6,7");
}

#[test]
fn test_mask_to_string_scattered_cores() {
    assert_eq!(CoreMask::mask_to_string(0b10101010), "1,3,5,7");
    assert_eq!(CoreMask::mask_to_string(0b1000100010001), "0,4,8,12");
}

#[test]
fn test_mask_to_string_all_cores() {
    assert_eq!(CoreMask::mask_to_string(u64::MAX), "0,1,2,3,4,5,6,7,8,9,10,11,12,13,14,15,16,17,18,19,20,21,22,23,24,25,26,27,28,29,30,31,32,33,34,35,36,37,38,39,40,41,42,43,44,45,46,47,48,49,50,51,52,53,54,55,56,57,58,59,60,61,62,63");
}

#[test]
fn test_mask_to_string_high_cores() {
    assert_eq!(CoreMask::mask_to_string(0xF000000000000000), "60,61,62,63");
}

#[test]
fn test_mask_to_string_mixed_range() {
    assert_eq!(
        CoreMask::mask_to_string(0b1010101010101010101010101010101),
        "0,2,4,6,8,10,12,14,16,18,20,22,24,26,28,30"
    );
}

#[test]
fn test_get_available_core_ids_empty_mask() {
    let core_mask = CoreMask::new(8);
    let available = core_mask.get_available_core_ids(4).unwrap();
    assert_eq!(available, 0b1111_0000);
}

#[test]
fn test_get_available_core_ids_partially_allocated() {
    let mut core_mask = CoreMask::new(8);
    core_mask.allocate(3).unwrap();
    let available = core_mask.get_available_core_ids(4).unwrap();
    assert_eq!(available, 0b0001_1110);
}

#[test]
fn test_get_available_core_ids_fragmented() {
    let mut core_mask = CoreMask::new(8);
    core_mask.allocate(2).unwrap();
    core_mask.allocate(2).unwrap();
    let available = core_mask.get_available_core_ids(3).unwrap();
    assert_eq!(available, 0b0000_1110);
}

#[test]
fn test_get_available_core_ids_not_enough() {
    let mut core_mask = CoreMask::new(8);
    core_mask.allocate(6).unwrap();
    assert!(core_mask.get_available_core_ids(3).is_none());
}

#[test]
fn test_get_available_core_ids_exact_fit() {
    let mut core_mask = CoreMask::new(8);
    core_mask.allocate(5).unwrap();
    let available = core_mask.get_available_core_ids(3).unwrap();
    assert_eq!(available, 0b0000_0111);
}

#[test]
fn test_get_available_core_ids_zero_cores() {
    let core_mask = CoreMask::new(8);
    assert!(core_mask.get_available_core_ids(0).is_none());
}

#[test]
fn test_get_available_core_ids_more_than_total() {
    let core_mask = CoreMask::new(8);
    assert!(core_mask.get_available_core_ids(9).is_none());
}

#[test]
fn test_get_available_core_ids_all_allocated() {
    let mut core_mask = CoreMask::new(8);
    core_mask.allocate(8).unwrap();
    assert!(core_mask.get_available_core_ids(1).is_none());
}

#[test]
fn test_get_allocated_cores_empty() {
    let core_mask = CoreMask::new(8);
    assert_eq!(core_mask.get_allocated_cores(), 0);
}

#[test]
fn test_get_allocated_cores_single_allocation() {
    let mut core_mask = CoreMask::new(8);
    core_mask.allocate(3).unwrap();
    assert_eq!(core_mask.get_allocated_cores(), 0b1110_0000);
}

#[test]
fn test_get_allocated_cores_multiple_allocations() {
    let mut core_mask = CoreMask::new(8);
    core_mask.allocate(2).unwrap();
    core_mask.allocate(3).unwrap();
    assert_eq!(core_mask.get_allocated_cores(), 0b1111_1000);
}

#[test]
fn test_get_allocated_cores_all_allocated() {
    let mut core_mask = CoreMask::new(8);
    core_mask.allocate(8).unwrap();
    assert_eq!(core_mask.get_allocated_cores(), 0b1111_1111);
}

#[test]
fn test_get_allocated_cores_after_free() {
    let mut core_mask = CoreMask::new(8);
    let allocation = core_mask.allocate(4).unwrap();
    core_mask.allocate(2).unwrap();
    core_mask.free(allocation);
    assert_eq!(core_mask.get_allocated_cores(), 0b0000_1100);
}

#[test]
fn test_get_allocated_cores_fragmented() {
    let mut core_mask = CoreMask::new(8);
    core_mask.allocate(2).unwrap();
    core_mask.allocate(2).unwrap();
    core_mask.allocate(1).unwrap();
    assert_eq!(core_mask.get_allocated_cores(), 0b1111_1000);
}

#[test]
fn test_get_allocated_cores_single_core() {
    let mut core_mask = CoreMask::new(8);
    core_mask.allocate(1).unwrap();
    assert_eq!(core_mask.get_allocated_cores(), 0b1000_0000);
}

#[test]
fn test_get_allocated_cores_allocate_free_allocate() {
    let mut core_mask = CoreMask::new(8);
    let allocation1 = core_mask.allocate(4).unwrap();
    core_mask.free(allocation1);
    core_mask.allocate(2).unwrap();
    assert_eq!(core_mask.get_allocated_cores(), 0b1100_0000);
}

#[test]
fn free_after_allocate_restores_the_bitmap() {
    let mut core_mask = CoreMask::new(8);
    core_mask.allocate(3).unwrap();
    let before = core_mask.get_allocated_cores();
    let granted = core_mask.allocate(2).unwrap();
    core_mask.free(granted);
    assert_eq!(core_mask.get_allocated_cores(), before);
    assert!(core_mask.allocate(7).is_none());
    assert_eq!(core_mask.get_allocated_cores(), before);
}

#[test]
fn allocate_zero_and_more_than_total_fail() {
    let mut core_mask = CoreMask::new(6);
    assert!(core_mask.allocate(0).is_none());
    assert!(core_mask.allocate(7).is_none());
    assert_eq!(core_mask.get_allocated_cores(), 0);
}

#[test]
fn exact_fit_takes_every_free_core() {
    let mut core_mask = CoreMask::new(8);
    let first = core_mask.allocate(2).unwrap();
    core_mask.allocate(3).unwrap();
    core_mask.free(first);
    // Free cores are now 7, 6, 2, 1, 0.
    assert_eq!(core_mask.allocate(5).unwrap(), 0b1100_0111);
    assert_eq!(core_mask.get_allocated_cores(), 0b1111_1111);
}

#[test]
fn core_mask_spec_sequence() {
    let mut m = CoreMask::new(8);
    assert_eq!(m.allocate(4), Some(0b1111_0000));
    assert_eq!(m.allocate(1), Some(0b0000_1000));
    assert_eq!(m.allocate(1), Some(0b0000_0100));
    m.free(0b0000_1000);
    assert_eq!(m.allocate(2), Some(0b0000_1010));
    assert_eq!(m.allocate(3), None);
    m.free(0b1111_0000);
    assert_eq!(m.get_allocated_cores(), 0b0000_1110);
}

#[test]
fn full_machine_of_64_cores() {
    let mut m = CoreMask::new(64);
    assert_eq!(m.allocate(64), Some(u64::MAX));
    assert_eq!(m.allocate(1), None);
    assert_eq!(CoreMask::mask_to_string(m.get_allocated_cores() & 0b111), "0,1,2");
}

#[test]
fn cores_to_ids_lists_the_first_cores() {
    assert_eq!(cores_to_ids(0), "");
    assert_eq!(cores_to_ids(1), "0");
    assert_eq!(cores_to_ids(4), "0,1,2,3");
    assert_eq!(cores_to_ids(12), "0,1,2,3,4,5,6,7,8,9,10,11");
}
