use block_allocator::chunk_manager::{ChunkManager, DeviceMemoryTrait};
use block_allocator::model::BlockIndex;

#[derive(Default)]
struct TestDeviceMemory(u64);

impl DeviceMemoryTrait for TestDeviceMemory {
    fn size(&self) -> u64 {
        self.0
    }
}

fn len_at(allocator: &ChunkManager<TestDeviceMemory>, offset: u64) -> u64 {
    allocator.block(&BlockIndex::new(offset, 0)).unwrap().len
}

fn pre_at(allocator: &ChunkManager<TestDeviceMemory>, offset: u64) -> Option<u64> {
    allocator.block(&BlockIndex::new(offset, 0)).unwrap().pre
}

fn next_at(allocator: &ChunkManager<TestDeviceMemory>, offset: u64) -> Option<u64> {
    allocator.block(&BlockIndex::new(offset, 0)).unwrap().next
}

fn iter_blocks(allocator: &ChunkManager<TestDeviceMemory>, chunk_index: usize) -> Vec<u64> {
    let block = allocator.block(&BlockIndex::new(0, chunk_index)).unwrap();
    let mut p_next = block.next;
    let mut vec = Vec::new();
    let mut last_used = block.used;
    vec.push(0);
    while !p_next.is_none() {
        let next_offset = p_next.unwrap();
        let next_block = allocator
            .block(&BlockIndex::new(next_offset, chunk_index))
            .unwrap();
        p_next = next_block.next;
        if last_used == false && !next_block.used {
            panic!("two connected unused block")
        }
        last_used = next_block.used;
        vec.push(next_offset)
    }
    vec
}

#[test]
fn test() {
    let mut allocator = ChunkManager::default();
    allocator.add_chunk_and_allocate(TestDeviceMemory(128), 1);
    assert_eq!(len_at(&allocator, 0), 1);
    assert_eq!(len_at(&allocator, 1), 127);
    assert!(allocator.is_unused(&BlockIndex::new(1, 0), 127));
    assert_eq!(pre_at(&allocator, 0), None);
    assert_eq!(next_at(&allocator, 0), Some(1));
    assert_eq!(pre_at(&allocator, 1), Some(0));
    assert_eq!(next_at(&allocator, 1), None);

    allocator.allocate(2, 2);
    assert_eq!(len_at(&allocator, 0), 1);
    assert_eq!(len_at(&allocator, 1), 1);
    assert_eq!(len_at(&allocator, 2), 2);
    assert_eq!(len_at(&allocator, 4), 124);
    assert!(allocator.is_unused(&BlockIndex::new(1, 0), 1));
    assert!(allocator.is_unused(&BlockIndex::new(4, 0), 124));
    assert_eq!(pre_at(&allocator, 1), Some(0));
    assert_eq!(next_at(&allocator, 1), Some(2));
    assert_eq!(pre_at(&allocator, 2), Some(1));
    assert_eq!(next_at(&allocator, 2), Some(4));
    assert_eq!(pre_at(&allocator, 4), Some(2));
    assert_eq!(next_at(&allocator, 4), None);

    allocator.allocate(32, 32);
    assert_eq!(iter_blocks(&allocator, 0).as_slice(), [0, 1, 2, 4, 32, 64]);

    allocator.allocate(8, 8);
    assert_eq!(
        iter_blocks(&allocator, 0).as_slice(),
        [0, 1, 2, 4, 8, 16, 32, 64]
    );
    assert_eq!(allocator.unused_len_count(), 4);

    allocator.free_unchecked(&BlockIndex::new(8, 0));
    allocator.free_unchecked(&BlockIndex::new(32, 0));

    allocator.free_unchecked(&BlockIndex::new(2, 0));
    assert_eq!(len_at(&allocator, 0), 1);
    assert_eq!(len_at(&allocator, 1), 127);
    assert_eq!(allocator.block_count(0), Some(2));
    assert!(allocator.is_unused(&BlockIndex::new(1, 0), 127));
    assert_eq!(allocator.unused_len_count(), 1);

    allocator.free_unchecked(&BlockIndex::new(0, 0));
    assert_eq!(len_at(&allocator, 0), 128);
    assert!(allocator.is_unused(&BlockIndex::new(0, 0), 128));
    assert_eq!(pre_at(&allocator, 0), None);
    assert_eq!(next_at(&allocator, 0), None);
}

#[test]
fn multiple_candidate_test() {
    let mut allocator = ChunkManager::default();
    allocator.add_chunk(TestDeviceMemory(128));
    for _i in 0..4 {
        allocator.allocate(1, 1);
    }
    assert_eq!(iter_blocks(&allocator, 0).as_slice(), [0, 1, 2, 3, 4]);
    allocator.allocate(2, 2);
    allocator.allocate(1, 1);
    assert_eq!(iter_blocks(&allocator, 0).as_slice(), [0, 1, 2, 3, 4, 6, 7]);
    allocator.free_unchecked(&BlockIndex::new(1, 0));
    assert_eq!(iter_blocks(&allocator, 0).as_slice(), [0, 1, 2, 3, 4, 6, 7]);
    allocator.free_unchecked(&BlockIndex::new(2, 0));
    assert_eq!(iter_blocks(&allocator, 0).as_slice(), [0, 1, 3, 4, 6, 7]);
    allocator.free_unchecked(&BlockIndex::new(4, 0));
    assert_eq!(iter_blocks(&allocator, 0).as_slice(), [0, 1, 3, 4, 6, 7]);
    assert_eq!(allocator.unused_count(2), 2);
    assert_eq!(allocator.allocate(2, 2), Some(BlockIndex::new(4, 0)))
}

#[test]
fn free_unused_test() {
    let mut allocator = ChunkManager::default();
    allocator.add_chunk(TestDeviceMemory(128));
    allocator.add_chunk(TestDeviceMemory(128));
    allocator.free_unused_chunk();
    assert_eq!(allocator.unused_len_count(), 0);
    assert_eq!(allocator.chunk_count(), 0);
}
