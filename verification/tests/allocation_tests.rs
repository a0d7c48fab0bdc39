use block_allocator::chunk::block_fits;
use block_allocator::chunk_manager::{ChunkManager, DeviceMemoryTrait};
use block_allocator::model::{Block, BlockIndex};
use rustc_hash::FxHashSet;
use std::collections::BTreeMap;

struct Memory {
    size: u64,
    tag: u32,
}

impl Memory {
    fn of(size: u64) -> Self {
        Memory { size, tag: 0 }
    }
}

impl DeviceMemoryTrait for Memory {
    fn size(&self) -> u64 {
        self.size
    }
}

fn chain(manager: &ChunkManager<Memory>, chunk_index: usize) -> Vec<(u64, u64, bool)> {
    let mut blocks = Vec::new();
    let mut at = Some(0);
    let mut before = None;
    while let Some(offset) = at {
        let block = manager.block(&BlockIndex::new(offset, chunk_index)).unwrap();
        assert_eq!(block.pre, before);
        blocks.push((offset, block.len, block.used));
        before = Some(offset);
        at = block.next;
    }
    blocks
}

fn check_chunk(manager: &ChunkManager<Memory>, chunk_index: usize, size: u64) {
    let blocks = chain(manager, chunk_index);
    assert_eq!(manager.block_count(chunk_index), Some(blocks.len()));
    assert_eq!(blocks.iter().map(|b| b.1).sum::<u64>(), size);
    let mut end = 0;
    for b in &blocks {
        assert_eq!(b.0, end);
        end += b.1;
        assert_eq!(manager.is_unused(&BlockIndex::new(b.0, chunk_index), b.1), !b.2);
        assert_eq!(manager.is_allocated(&BlockIndex::new(b.0, chunk_index)), b.2);
    }
    for pair in blocks.windows(2) {
        assert!(pair[0].2 || pair[1].2, "two free blocks in a row");
    }
}

#[test]
fn new_manager_is_empty() {
    let manager: ChunkManager<Memory> = ChunkManager::new();
    assert_eq!(manager.chunk_count(), 0);
    assert_eq!(manager.unused_len_count(), 0);
    assert_eq!(manager.next_chunk_index(), 0);
    assert_eq!(manager.block(&BlockIndex::new(0, 0)), None);
    assert_eq!(manager.block_count(0), None);
}

#[test]
fn add_chunk_is_one_free_block() {
    let mut manager = ChunkManager::new();
    assert_eq!(manager.add_chunk(Memory::of(64)), 0);
    assert_eq!(manager.add_chunk(Memory::of(32)), 1);
    assert_eq!(manager.chunk_count(), 2);
    assert_eq!(manager.next_chunk_index(), 2);
    assert_eq!(
        manager.block(&BlockIndex::new(0, 0)),
        Some(Block { len: 64, used: false, pre: None, next: None })
    );
    assert_eq!(
        manager.block(&BlockIndex::new(0, 1)),
        Some(Block { len: 32, used: false, pre: None, next: None })
    );
    assert_eq!(manager.unused_len_count(), 2);
    assert_eq!(manager.unused_count(64), 1);
    assert_eq!(manager.unused_count(32), 1);
    assert_eq!(manager.unused_count(16), 0);
}

#[test]
fn add_chunk_and_allocate_splits_the_chunk() {
    let mut manager = ChunkManager::new();
    assert_eq!(manager.add_chunk_and_allocate(Memory::of(100), 30), BlockIndex::new(0, 0));
    assert_eq!(chain(&manager, 0), vec![(0, 30, true), (30, 70, false)]);
    assert!(manager.is_unused(&BlockIndex::new(30, 0), 70));
    assert_eq!(manager.unused_len_count(), 1);
}

#[test]
fn add_chunk_and_allocate_whole_chunk_lists_nothing() {
    let mut manager = ChunkManager::new();
    assert_eq!(manager.add_chunk_and_allocate(Memory::of(100), 100), BlockIndex::new(0, 0));
    assert_eq!(chain(&manager, 0), vec![(0, 100, true)]);
    assert_eq!(manager.unused_len_count(), 0);
    manager.free_unused_chunk();
    assert_eq!(manager.chunk_count(), 1);
    assert!(manager.is_allocated(&BlockIndex::new(0, 0)));
}

#[test]
fn allocate_nothing_returns_nothing() {
    let mut manager = ChunkManager::new();
    manager.add_chunk(Memory::of(64));
    assert_eq!(manager.allocate(0, 1), None);
    assert_eq!(chain(&manager, 0), vec![(0, 64, false)]);
}

#[test]
fn allocate_without_chunks_returns_nothing() {
    let mut manager: ChunkManager<Memory> = ChunkManager::new();
    assert_eq!(manager.allocate(1, 1), None);
}

#[test]
fn allocate_too_much_returns_nothing() {
    let mut manager = ChunkManager::new();
    manager.add_chunk(Memory::of(64));
    assert_eq!(manager.allocate(65, 1), None);
    assert_eq!(manager.allocate(64, 1), Some(BlockIndex::new(0, 0)));
    assert_eq!(manager.allocate(1, 1), None);
    assert_eq!(manager.unused_len_count(), 0);
}

#[test]
fn allocate_takes_the_shortest_block_that_fits() {
    let mut manager = ChunkManager::new();
    manager.add_chunk(Memory::of(100));
    manager.add_chunk(Memory::of(10));
    manager.add_chunk(Memory::of(50));
    assert_eq!(manager.allocate(20, 1), Some(BlockIndex::new(0, 2)));
    assert_eq!(manager.allocate(10, 1), Some(BlockIndex::new(0, 1)));
    assert_eq!(manager.allocate(31, 1), Some(BlockIndex::new(0, 0)));
    assert_eq!(manager.allocate(30, 1), Some(BlockIndex::new(20, 2)));
    check_chunk(&manager, 0, 100);
    check_chunk(&manager, 1, 10);
    check_chunk(&manager, 2, 50);
}

#[test]
fn allocate_with_padding_makes_three_blocks() {
    let mut manager = ChunkManager::new();
    manager.add_chunk_and_allocate(Memory::of(64), 3);
    assert_eq!(manager.allocate(8, 16), Some(BlockIndex::new(16, 0)));
    assert_eq!(
        chain(&manager, 0),
        vec![(0, 3, true), (3, 13, false), (16, 8, true), (24, 40, false)]
    );
    assert!(manager.is_unused(&BlockIndex::new(3, 0), 13));
    assert!(manager.is_unused(&BlockIndex::new(24, 0), 40));
    assert!(!manager.is_unused(&BlockIndex::new(3, 0), 61));
    assert_eq!(manager.unused_len_count(), 2);
    check_chunk(&manager, 0, 64);
}

#[test]
fn allocate_with_padding_and_no_tail() {
    let mut manager = ChunkManager::new();
    manager.add_chunk_and_allocate(Memory::of(32), 3);
    assert_eq!(manager.allocate(16, 16), Some(BlockIndex::new(16, 0)));
    assert_eq!(chain(&manager, 0), vec![(0, 3, true), (3, 13, false), (16, 16, true)]);
    check_chunk(&manager, 0, 32);
}

#[test]
fn allocate_skips_a_block_that_padding_makes_too_short() {
    let mut manager = ChunkManager::new();
    manager.add_chunk_and_allocate(Memory::of(20), 3);
    manager.add_chunk(Memory::of(40));
    // 17 bytes are free at offset 3 of chunk 0, but only 4 behind offset 16
    assert_eq!(manager.allocate(8, 16), Some(BlockIndex::new(0, 1)));
    assert_eq!(chain(&manager, 0), vec![(0, 3, true), (3, 17, false)]);
}

#[test]
fn allocate_where_padding_exceeds_the_block() {
    let mut manager = ChunkManager::new();
    manager.add_chunk_and_allocate(Memory::of(8), 3);
    // the next multiple of 16 lies behind the chunk
    assert_eq!(manager.allocate(1, 16), None);
    assert_eq!(chain(&manager, 0), vec![(0, 3, true), (3, 5, false)]);
}

#[test]
fn allocated_offsets_are_aligned_and_disjoint() {
    let mut manager = ChunkManager::new();
    manager.add_chunk_and_allocate(Memory::of(4096), 1);
    let requests: [(u64, u64); 8] =
        [(3, 4), (10, 8), (1, 1), (100, 64), (7, 2), (33, 32), (5, 256), (64, 16)];
    let mut taken: Vec<(u64, u64)> = vec![(0, 1)];
    for (len, alignment) in requests {
        let index = manager.allocate(len, alignment).unwrap();
        assert_eq!(index.chunk_index, 0);
        assert_eq!(index.offset % alignment, 0);
        for (offset, other) in &taken {
            assert!(index.offset + len <= *offset || offset + other <= index.offset);
        }
        taken.push((index.offset, len));
        check_chunk(&manager, 0, 4096);
    }
}

#[test]
fn free_merges_with_both_neighbours() {
    let mut manager = ChunkManager::new();
    manager.add_chunk(Memory::of(30));
    let a = manager.allocate(10, 1).unwrap();
    let b = manager.allocate(10, 1).unwrap();
    let c = manager.allocate(10, 1).unwrap();
    assert_eq!((a.offset, b.offset, c.offset), (0, 10, 20));
    manager.free_unchecked(&a);
    manager.free_unchecked(&c);
    assert_eq!(chain(&manager, 0), vec![(0, 10, false), (10, 10, true), (20, 10, false)]);
    assert_eq!(manager.unused_count(10), 2);
    manager.free_unchecked(&b);
    assert_eq!(chain(&manager, 0), vec![(0, 30, false)]);
    assert_eq!(manager.unused_count(10), 0);
    assert_eq!(manager.unused_count(30), 1);
    assert_eq!(manager.unused_len_count(), 1);
}

#[test]
fn free_between_used_blocks_merges_nothing() {
    let mut manager = ChunkManager::new();
    manager.add_chunk(Memory::of(30));
    manager.allocate(10, 1);
    let b = manager.allocate(10, 1).unwrap();
    manager.allocate(10, 1);
    manager.free_unchecked(&b);
    assert_eq!(chain(&manager, 0), vec![(0, 10, true), (10, 10, false), (20, 10, true)]);
    check_chunk(&manager, 0, 30);
}

#[test]
fn free_keeps_the_links_of_the_block_behind() {
    let mut manager = ChunkManager::new();
    manager.add_chunk(Memory::of(40));
    let a = manager.allocate(10, 1).unwrap();
    let b = manager.allocate(10, 1).unwrap();
    let c = manager.allocate(10, 1).unwrap();
    manager.free_unchecked(&a);
    manager.free_unchecked(&b);
    // the block at 20 now follows the free block at 0
    assert_eq!(manager.block(&c).unwrap().pre, Some(0));
    manager.free_unchecked(&c);
    assert_eq!(chain(&manager, 0), vec![(0, 40, false)]);
}

#[test]
fn allocate_then_free_restores_the_chunk() {
    let mut manager = ChunkManager::new();
    manager.add_chunk(Memory::of(128));
    manager.allocate(5, 1);
    let held = manager.allocate(11, 4).unwrap();
    let before = chain(&manager, 0);
    let lengths = manager.unused_len_count();
    let index = manager.allocate(16, 32).unwrap();
    assert_eq!(index.offset, 32);
    assert_ne!(chain(&manager, 0), before);
    manager.free_unchecked(&index);
    assert_eq!(chain(&manager, 0), before);
    assert_eq!(manager.unused_len_count(), lengths);
    assert!(manager.is_allocated(&held));
}

#[test]
fn whole_chunk_round_trip() {
    let mut manager = ChunkManager::new();
    manager.add_chunk(Memory::of(128));
    let index = manager.allocate(128, 1).unwrap();
    assert_eq!(index, BlockIndex::new(0, 0));
    assert_eq!(manager.unused_len_count(), 0);
    manager.free_unchecked(&index);
    assert_eq!(
        manager.block(&BlockIndex::new(0, 0)),
        Some(Block { len: 128, used: false, pre: None, next: None })
    );
    assert_eq!(manager.block_count(0), Some(1));
    assert!(manager.is_unused(&BlockIndex::new(0, 0), 128));
}

#[test]
fn candidates_of_one_length() {
    let mut manager = ChunkManager::new();
    manager.add_chunk(Memory::of(128));
    assert_eq!(manager.allocate(1, 1), Some(BlockIndex::new(0, 0)));
    assert_eq!(manager.allocate(1, 1), Some(BlockIndex::new(1, 0)));
    assert_eq!(manager.allocate(1, 1), Some(BlockIndex::new(2, 0)));
    assert_eq!(manager.allocate(1, 1), Some(BlockIndex::new(3, 0)));
    assert_eq!(manager.allocate(2, 2), Some(BlockIndex::new(4, 0)));
    assert_eq!(manager.allocate(1, 1), Some(BlockIndex::new(6, 0)));
    manager.free_unchecked(&BlockIndex::new(1, 0));
    manager.free_unchecked(&BlockIndex::new(2, 0));
    assert_eq!(manager.unused_count(2), 1);
    manager.free_unchecked(&BlockIndex::new(4, 0));
    assert_eq!(manager.unused_count(2), 2);
    assert!(manager.is_unused(&BlockIndex::new(1, 0), 2));
    assert!(manager.is_unused(&BlockIndex::new(4, 0), 2));
    assert_eq!(manager.allocate(2, 2), Some(BlockIndex::new(4, 0)));
    check_chunk(&manager, 0, 128);
}

#[test]
fn reclaim_removes_free_chunks_only() {
    let mut manager = ChunkManager::new();
    manager.add_chunk(Memory::of(16));
    manager.add_chunk(Memory::of(16));
    manager.add_chunk(Memory::of(16));
    let index = manager.allocate(4, 1).unwrap();
    let kept = index.chunk_index;
    manager.free_unused_chunk();
    assert_eq!(manager.chunk_count(), 1);
    assert_eq!(chain(&manager, kept), vec![(0, 4, true), (4, 12, false)]);
    assert_eq!(manager.unused_len_count(), 1);
    assert_eq!(manager.unused_count(16), 0);
    manager.free_unchecked(&index);
    manager.free_unused_chunk();
    assert_eq!(manager.chunk_count(), 0);
    assert_eq!(manager.unused_len_count(), 0);
    assert_eq!(manager.block(&index), None);
}

#[test]
fn chunk_indices_are_not_given_out_twice() {
    let mut manager = ChunkManager::new();
    assert_eq!(manager.add_chunk(Memory::of(16)), 0);
    assert_eq!(manager.add_chunk_and_allocate(Memory::of(16), 16), BlockIndex::new(0, 1));
    manager.free_unused_chunk();
    assert_eq!(manager.chunk_count(), 1);
    assert_eq!(manager.add_chunk(Memory::of(8)), 2);
    assert_eq!(chain(&manager, 1), vec![(0, 16, true)]);
    assert_eq!(chain(&manager, 2), vec![(0, 8, false)]);
}

#[test]
fn chunk_index_is_the_number_of_chunks_where_that_is_free() {
    let mut manager = ChunkManager::new();
    assert_eq!(manager.add_chunk_and_allocate(Memory::of(16), 16), BlockIndex::new(0, 0));
    assert_eq!(manager.add_chunk(Memory::of(16)), 1);
    assert_eq!(manager.add_chunk(Memory::of(16)), 2);
    manager.free_unused_chunk();
    assert_eq!(manager.chunk_count(), 1);
    assert_eq!(manager.next_chunk_index(), 3);
    assert_eq!(manager.add_chunk(Memory::of(8)), 1);
    assert_eq!(manager.add_chunk_and_allocate(Memory::of(8), 2), BlockIndex::new(0, 2));
    assert_eq!(manager.add_chunk(Memory::of(8)), 3);
    assert_eq!(manager.next_chunk_index(), 4);
    assert_eq!(manager.chunk_count(), 4);
}

#[test]
fn device_memory_is_that_of_the_chunk() {
    let mut manager = ChunkManager::new();
    manager.add_chunk(Memory { size: 16, tag: 7 });
    manager.add_chunk(Memory { size: 32, tag: 9 });
    assert_eq!(manager.get_device_memory(&BlockIndex::new(0, 0)).unwrap().tag, 7);
    assert_eq!(manager.get_device_memory(&BlockIndex::new(5, 1)).unwrap().tag, 9);
    assert!(manager.get_device_memory(&BlockIndex::new(0, 2)).is_none());
    manager.get_device_memory(&BlockIndex::new(0, 1)).unwrap().tag = 11;
    assert_eq!(manager.get_device_memory(&BlockIndex::new(0, 1)).unwrap().tag, 11);
    assert_eq!(manager.get_device_memory(&BlockIndex::new(0, 0)).unwrap().tag, 7);
    assert_eq!(manager.chunk_count(), 2);
}

#[test]
fn is_allocated_tells_used_from_free_and_missing() {
    let mut manager = ChunkManager::new();
    manager.add_chunk_and_allocate(Memory::of(16), 4);
    assert!(manager.is_allocated(&BlockIndex::new(0, 0)));
    assert!(!manager.is_allocated(&BlockIndex::new(4, 0)));
    assert!(!manager.is_allocated(&BlockIndex::new(2, 0)));
    assert!(!manager.is_allocated(&BlockIndex::new(0, 1)));
}

#[test]
fn insert_unused_lists_blocks_by_length() {
    let mut blocks: BTreeMap<u64, FxHashSet<(u64, usize)>> = BTreeMap::new();
    ChunkManager::<Memory>::insert_unused(&mut blocks, 8, 16, 0);
    ChunkManager::<Memory>::insert_unused(&mut blocks, 32, 16, 1);
    ChunkManager::<Memory>::insert_unused(&mut blocks, 0, 4, 1);
    ChunkManager::<Memory>::insert_unused(&mut blocks, 8, 16, 0);
    assert_eq!(blocks.len(), 2);
    assert_eq!(blocks[&16].len(), 2);
    assert!(blocks[&16].contains(&(8, 0)));
    assert!(blocks[&16].contains(&(32, 1)));
    assert_eq!(blocks[&4].len(), 1);
    assert!(blocks[&4].contains(&(0, 1)));
}

#[test]
fn remove_unused_says_when_a_length_runs_out() {
    let mut blocks: BTreeMap<u64, FxHashSet<(u64, usize)>> = BTreeMap::new();
    ChunkManager::<Memory>::insert_unused(&mut blocks, 8, 16, 0);
    ChunkManager::<Memory>::insert_unused(&mut blocks, 32, 16, 1);
    assert_eq!(ChunkManager::<Memory>::remove_unused(&mut blocks, 8, 4, 0), None);
    assert_eq!(ChunkManager::<Memory>::remove_unused(&mut blocks, 9, 16, 0), None);
    assert_eq!(blocks[&16].len(), 2);
    assert_eq!(ChunkManager::<Memory>::remove_unused(&mut blocks, 8, 16, 0), None);
    assert_eq!(blocks[&16].len(), 1);
    assert!(blocks[&16].contains(&(32, 1)));
    assert_eq!(ChunkManager::<Memory>::remove_unused(&mut blocks, 32, 16, 1), Some(32));
    assert!(blocks.is_empty());
}

#[test]
fn block_fits_counts_the_padding() {
    assert!(block_fits(0, 8, 8, 8));
    assert!(!block_fits(0, 7, 8, 8));
    assert!(block_fits(3, 13, 8, 8));
    assert!(!block_fits(3, 12, 8, 8));
    assert!(block_fits(5, 1, 1, 1));
    assert!(!block_fits(3, 5, 1, 16));
    assert!(block_fits(u64::MAX, 2, 1, 2));
    assert!(block_fits(12, 6, 3, 5));
    assert!(!block_fits(12, 5, 3, 5));
}
