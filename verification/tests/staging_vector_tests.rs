use block_allocator::memory_type::uses_dedicated_memory;
use block_allocator::staging_vector::{StagingPlacement, StagingVector};

#[test]
fn request_goes_behind_the_next_multiple() {
    let vector = StagingVector::new(1024, 16);
    assert_eq!(vector.allocate(100), StagingPlacement::At { memory: 0, offset: 16 });
    assert_eq!(vector.allocate(1008), StagingPlacement::At { memory: 0, offset: 16 });
    assert_eq!(vector.allocate(1009), StagingPlacement::Grow { size: 1024 });
    assert_eq!(vector.allocate(5000), StagingPlacement::Grow { size: 5000 });
}

#[test]
fn new_region_becomes_the_current_one() {
    let mut vector = StagingVector::new(64, 8);
    assert_eq!(vector.allocate(100), StagingPlacement::Grow { size: 100 });
    assert_eq!(vector.add_memory(100), StagingPlacement::At { memory: 1, offset: 0 });
    assert_eq!(vector.allocate(92), StagingPlacement::At { memory: 1, offset: 8 });
    assert_eq!(vector.allocate(93), StagingPlacement::Grow { size: 100 });
    assert_eq!(vector.add_memory(100), StagingPlacement::At { memory: 2, offset: 0 });
    vector.clear();
    assert_eq!(vector.allocate(56), StagingPlacement::At { memory: 0, offset: 8 });
    assert_eq!(vector.allocate(57), StagingPlacement::Grow { size: 64 });
}

#[test]
fn sizes_near_the_limit_do_not_wrap() {
    let vector = StagingVector::new(u64::MAX, 4);
    assert_eq!(vector.allocate(u64::MAX - 4), StagingPlacement::At { memory: 0, offset: 4 });
    assert_eq!(vector.allocate(u64::MAX - 3), StagingPlacement::Grow { size: u64::MAX });
    assert_eq!(vector.allocate(u64::MAX), StagingPlacement::Grow { size: u64::MAX });
}

#[test]
fn dedicated_memory_on_request_or_by_the_device() {
    assert!(!uses_dedicated_memory(false, 0, 0));
    assert!(uses_dedicated_memory(true, 0, 0));
    assert!(uses_dedicated_memory(false, 1, 0));
    assert!(uses_dedicated_memory(false, 0, 1));
    assert!(uses_dedicated_memory(false, u32::MAX, 7));
}
