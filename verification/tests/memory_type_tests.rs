use block_allocator::memory_type::{
    find_memory_type_index, get_suitable_memory_type, is_compatible, MemoryTypeInfo,
};

const DEVICE_LOCAL: u32 = 1;
const HOST_VISIBLE: u32 = 2;
const HOST_COHERENT: u32 = 4;

fn memory_types() -> Vec<MemoryTypeInfo> {
    vec![
        MemoryTypeInfo { property_flags: DEVICE_LOCAL, heap_size: 4096 },
        MemoryTypeInfo { property_flags: HOST_VISIBLE | HOST_COHERENT, heap_size: 1024 },
        MemoryTypeInfo { property_flags: DEVICE_LOCAL | HOST_VISIBLE, heap_size: 256 },
        MemoryTypeInfo { property_flags: HOST_VISIBLE | HOST_COHERENT, heap_size: 2048 },
        MemoryTypeInfo { property_flags: HOST_VISIBLE | HOST_COHERENT, heap_size: 2048 },
        MemoryTypeInfo { property_flags: HOST_COHERENT, heap_size: 0 },
    ]
}

#[test]
fn compatible_needs_the_bit_and_every_flag() {
    let types = memory_types();
    assert!(is_compatible(&types, 0b000001, DEVICE_LOCAL, 0));
    assert!(!is_compatible(&types, 0b111110, DEVICE_LOCAL, 0));
    assert!(!is_compatible(&types, 0b000001, DEVICE_LOCAL | HOST_VISIBLE, 0));
    assert!(is_compatible(&types, 0b000100, DEVICE_LOCAL | HOST_VISIBLE, 2));
    assert!(is_compatible(&types, u32::MAX, 0, 5));
}

#[test]
fn first_compatible_type_is_found() {
    let types = memory_types();
    assert_eq!(find_memory_type_index(&types, u32::MAX, HOST_VISIBLE | HOST_COHERENT), Some(1));
    assert_eq!(find_memory_type_index(&types, 0b111100, HOST_VISIBLE), Some(2));
    assert_eq!(find_memory_type_index(&types, 0b110000, HOST_COHERENT), Some(4));
    assert_eq!(find_memory_type_index(&types, 0b000010, DEVICE_LOCAL), None);
    assert_eq!(find_memory_type_index(&types, 0, 0), None);
    assert_eq!(find_memory_type_index(&[], u32::MAX, 0), None);
}

#[test]
fn largest_heap_wins() {
    let types = memory_types();
    assert_eq!(get_suitable_memory_type(&types, u32::MAX, DEVICE_LOCAL), Some(0));
    assert_eq!(get_suitable_memory_type(&types, 0b111110, DEVICE_LOCAL), Some(2));
    // of two heaps of one size the first is taken
    assert_eq!(get_suitable_memory_type(&types, u32::MAX, HOST_VISIBLE | HOST_COHERENT), Some(3));
    assert_eq!(get_suitable_memory_type(&types, 0b010010, HOST_COHERENT), Some(4));
    assert_eq!(get_suitable_memory_type(&types, u32::MAX, 8), None);
}

#[test]
fn empty_heap_is_never_chosen() {
    let types = memory_types();
    assert_eq!(get_suitable_memory_type(&types, 0b100000, HOST_COHERENT), None);
    assert_eq!(find_memory_type_index(&types, 0b100000, HOST_COHERENT), Some(5));
}

#[test]
fn highest_bit_is_usable() {
    let mut types = vec![MemoryTypeInfo { property_flags: 0, heap_size: 1 }; 32];
    types[31] = MemoryTypeInfo { property_flags: HOST_VISIBLE, heap_size: 9 };
    assert_eq!(find_memory_type_index(&types, 1 << 31, HOST_VISIBLE), Some(31));
    assert_eq!(get_suitable_memory_type(&types, u32::MAX, HOST_VISIBLE), Some(31));
    assert_eq!(get_suitable_memory_type(&types, u32::MAX >> 1, HOST_VISIBLE), None);
}
