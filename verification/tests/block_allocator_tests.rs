use block_allocator::allocator::{
    chunk_size, BlockBasedAllocator, BlockBasedResource, IBlockBasedResource, Placement,
};
use block_allocator::chunk_manager::DeviceMemoryTrait;
use block_allocator::model::BlockIndex;

struct Region(u64);

impl DeviceMemoryTrait for Region {
    fn size(&self) -> u64 {
        self.0
    }
}

#[test]
fn chunk_size_is_twice_the_length() {
    assert_eq!(chunk_size(0), Some(0));
    assert_eq!(chunk_size(64), Some(128));
    assert_eq!(chunk_size(u64::MAX / 2), Some(u64::MAX - 1));
    assert_eq!(chunk_size(u64::MAX / 2 + 1), None);
}

#[test]
fn new_allocator_asks_to_grow() {
    let mut allocator: BlockBasedAllocator<Region> = BlockBasedAllocator::new();
    assert_eq!(allocator.total_size(), 0);
    assert!(allocator.has_room());
    assert_eq!(allocator.allocate(100, 16), Placement::Grow { len: 100, chunk_size: 200 });
    assert_eq!(allocator.total_size(), 0);
}

#[test]
fn growth_follows_the_total() {
    let mut allocator = BlockBasedAllocator::new();
    let index = allocator.capacity_with_allocate(100, Region(200), 100);
    assert_eq!(index, BlockIndex::new(0, 0));
    assert!(allocator.is_allocated(&index));
    assert_eq!(allocator.total_size(), 200);
    // a request that fits is placed
    assert_eq!(allocator.allocate(100, 4), Placement::Placed(BlockIndex::new(100, 0)));
    // a small request grows by the total
    assert_eq!(allocator.allocate(8, 8), Placement::Grow { len: 200, chunk_size: 400 });
    // a large request grows by its size
    assert_eq!(allocator.allocate(1000, 8), Placement::Grow { len: 1000, chunk_size: 2000 });
    let index = allocator.capacity_with_allocate(1000, Region(2000), 1000);
    assert_eq!(index, BlockIndex::new(0, 1));
    assert_eq!(allocator.total_size(), 2200);
    assert_eq!(allocator.allocate(1000, 8), Placement::Placed(BlockIndex::new(1000, 1)));
}

#[test]
fn capacity_adds_a_free_chunk() {
    let mut allocator = BlockBasedAllocator::new();
    assert_eq!(allocator.capacity(32, Region(64)), 0);
    assert_eq!(allocator.total_size(), 64);
    assert_eq!(allocator.capacity(8, Region(16)), 1);
    assert_eq!(allocator.total_size(), 80);
    assert_eq!(allocator.allocate(16, 16), Placement::Placed(BlockIndex::new(0, 1)));
    assert_eq!(allocator.allocate(64, 64), Placement::Placed(BlockIndex::new(0, 0)));
    assert_eq!(allocator.allocate(1, 1), Placement::Grow { len: 80, chunk_size: 160 });
}

#[test]
fn growth_beyond_64_bits_is_refused() {
    let mut allocator: BlockBasedAllocator<Region> = BlockBasedAllocator::new();
    assert_eq!(allocator.allocate(u64::MAX, 1), Placement::TooLarge);
    assert_eq!(
        allocator.allocate(u64::MAX / 2, 1),
        Placement::Grow { len: u64::MAX / 2, chunk_size: u64::MAX - 1 }
    );
}

#[test]
fn total_wraps_around() {
    let mut allocator = BlockBasedAllocator::new();
    allocator.capacity(u64::MAX / 2, Region(16));
    assert_eq!(allocator.total_size(), u64::MAX - 1);
    allocator.capacity(4, Region(16));
    assert_eq!(allocator.total_size(), 6);
}

#[test]
fn free_unused_chunks_keeps_the_total() {
    let mut allocator = BlockBasedAllocator::new();
    allocator.capacity(32, Region(64));
    let index = allocator.capacity_with_allocate(8, Region(16), 4);
    allocator.free_unused_chunks();
    assert_eq!(allocator.total_size(), 80);
    assert!(allocator.get_device_memory(&BlockIndex::new(0, 0)).is_none());
    assert_eq!(allocator.get_device_memory(&index).unwrap().0, 16);
    assert!(allocator.is_allocated(&index));
}

#[test]
fn resource_gives_its_block_back() {
    let mut allocator = BlockBasedAllocator::new();
    let index = allocator.capacity_with_allocate(8, Region(16), 4);
    let mut resource = BlockBasedResource::new(String::from("buffer"), index);
    assert_eq!(resource.get_block_index(), &index);
    assert_eq!(resource.get(), "buffer");
    resource.get_mut().push('!');
    assert_eq!(resource.get_block_index(), &index);
    let name = resource.release(&mut allocator);
    assert_eq!(name, "buffer!");
    assert!(!allocator.is_allocated(&index));
    assert_eq!(allocator.allocate(16, 1), Placement::Placed(BlockIndex::new(0, 0)));
}

struct Handle(BlockIndex);

impl IBlockBasedResource for Handle {
    fn get_block_index(&self) -> &BlockIndex {
        &self.0
    }
}

#[test]
fn free_block_releases_the_block_of_any_resource() {
    let mut allocator = BlockBasedAllocator::new();
    allocator.capacity(8, Region(16));
    let first = match allocator.allocate(4, 4) {
        Placement::Placed(index) => index,
        other => panic!("not placed: {:?}", other),
    };
    let second = match allocator.allocate(4, 4) {
        Placement::Placed(index) => index,
        other => panic!("not placed: {:?}", other),
    };
    assert_eq!((first.offset, second.offset), (0, 4));
    allocator.free_block(&Handle(first));
    assert!(!allocator.is_allocated(&first));
    assert!(allocator.is_allocated(&second));
    assert_eq!(allocator.allocate(4, 4), Placement::Placed(first));
}
