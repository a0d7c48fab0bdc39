//! Bookkeeping of all chunks of one kind of memory: which blocks they are
//! split into, which of those are free, and where a request can be placed.
use crate::bucket_order::bucket_lengths;
use crate::chunk::block_fits;
use crate::chunk::AllocatedChuck;
use crate::chunk::Released;
use crate::fx_collections::map_get;
use crate::fx_collections::map_get_mut;
use crate::fx_collections::map_insert;
use crate::fx_collections::map_len;
use crate::fx_collections::map_new;
use crate::fx_collections::map_remove;
use crate::fx_collections::set_contains;
use crate::fx_collections::set_insert;
use crate::fx_collections::set_is_empty;
use crate::fx_collections::set_items;
use crate::fx_collections::set_len;
use crate::fx_collections::set_new;
use crate::fx_collections::set_remove;
use crate::index_proofs::carve_index;
use crate::index_proofs::lemma_index_add;
use crate::index_proofs::lemma_index_add_allocated;
use crate::index_proofs::lemma_index_carve;
use crate::index_proofs::lemma_index_drop;
use crate::index_proofs::lemma_index_release;
use crate::index_proofs::release_index;
use crate::model::fits;
use crate::model::padding;
use crate::model::Block;
use crate::model::BlockIndex;
use crate::model::ChunkView;
use crate::model::ManagerView;
use crate::model_proofs::lemma_carve_wf;
use crate::model_proofs::lemma_entirely_free;
use crate::model_proofs::lemma_single_block;
use crate::unused_index::buckets;
use crate::unused_index::empties;
use crate::unused_index::index_matches;
use crate::unused_index::listed;
use crate::unused_index::with_entry;
use crate::unused_index::without_entry;
use rustc_hash::FxHashMap;
use rustc_hash::FxHashSet;
use std::collections::BTreeMap;
use vstd::prelude::*;

verus! {

/// Whether `found` names chunk `c`.
spec fn has_chunk(found: Seq<(u64, usize)>, c: usize) -> bool {
    exists|k: int| 0 <= k < found.len() && (#[trigger] found[k]).1 == c
}

/// Chunks that `found` names are still named after one more entry.
proof fn lemma_has_chunk_push_all(found: Seq<(u64, usize)>, entry: (u64, usize))
    ensures
        has_chunk(found.push(entry), entry.1),
        forall|c: usize| has_chunk(found, c) ==> #[trigger] has_chunk(found.push(entry), c),
{
    assert(found.push(entry)[found.len() as int] == entry);
    assert forall|c: usize| has_chunk(found, c) implies #[trigger] has_chunk(
        found.push(entry),
        c,
    ) by {
        let k = choose|k: int| 0 <= k < found.len() && (#[trigger] found[k]).1 == c;
        assert(found.push(entry)[k] == found[k]);
    }
}

/// Writing a new value under a key that a map has leaves the number of
/// its keys as it is.
proof fn lemma_update_keeps_len<K, V>(m: Map<K, V>, k: K)
    requires
        m.contains_key(k),
    ensures
        forall|v: V| (#[trigger] m.insert(k, v)).len() == m.len(),
{
    assert forall|v: V| (#[trigger] m.insert(k, v)).len() == m.len() by {
        assert(m.insert(k, v).dom() =~= m.dom());
    }
}

/// A region of device memory of a fixed size.
pub trait DeviceMemoryTrait {
    /// The size of the region in bytes.
    fn size(&self) -> u64;
}

/// The chunks of one kind of memory and the list of their free blocks.
pub struct ChunkManager<M: DeviceMemoryTrait> {
    // the free blocks by length, to speed up the search for one that fits
    unused_blocks: BTreeMap<u64, FxHashSet<(u64, usize)>>,
    // all chunks
    chunks: FxHashMap<usize, AllocatedChuck<M>>,
    // an index above those of all chunks
    next_chunk_index: usize,
}

impl<M: DeviceMemoryTrait> View for ChunkManager<M> {
    type V = ManagerView;

    closed spec fn view(&self) -> ManagerView {
        ManagerView {
            chunks: Map::new(
                |c: usize| self.chunks@.contains_key(c),
                |c: usize| self.chunks@[c]@,
            ),
        }
    }
}

impl<M: DeviceMemoryTrait> ChunkManager<M> {
    /// The chunks are well formed, the list of free blocks holds exactly
    /// their free blocks, and every chunk index in use lies below
    /// `next_index`.
    pub closed spec fn wf(&self) -> bool {
        &&& self@.wf()
        &&& index_matches(buckets(self.unused_blocks), self@)
        &&& forall|c: usize| #[trigger] self.chunks@.contains_key(c) ==> c < self.next_chunk_index
        &&& self.chunks@.len() <= self.next_chunk_index
    }

    /// The memory of each chunk.
    pub closed spec fn memories(&self) -> Map<usize, M> {
        Map::new(
            |c: usize| self.chunks@.contains_key(c),
            |c: usize| self.chunks@[c].memory(),
        )
    }

    /// An index above those of all chunks, of those that were removed too.
    pub closed spec fn next_index(&self) -> usize {
        self.next_chunk_index
    }

    /// The index that the next chunk gets: the number of chunks, unless a
    /// chunk has that index; then `next_index`.
    pub open spec fn fresh_index(&self) -> usize {
        if self@.chunks.contains_key(self@.chunks.len() as usize) {
            self.next_index()
        } else {
            self@.chunks.len() as usize
        }
    }

    /// An index above those of all chunks, of those that were removed too.
    pub fn next_chunk_index(&self) -> (r: usize)
        ensures
            r == self.next_index(),
    {
        self.next_chunk_index
    }

    /// The index that the next chunk gets.
    fn new_chunk_index(&self) -> (r: usize)
        requires
            self.wf(),
        ensures
            r == self.fresh_index(),
            !self@.chunks.contains_key(r),
            r <= self.next_index(),
            self@.chunks.len() <= self.next_index(),
    {
        assert(self@.chunks.dom() =~= self.chunks@.dom());
        let chunks_index = map_len(&self.chunks);
        if map_get(&self.chunks, &chunks_index).is_none() {
            chunks_index
        } else {
            self.next_chunk_index
        }
    }

    /// What `wf` says of the model.
    pub proof fn lemma_wf(&self)
        requires
            self.wf(),
        ensures
            self@.wf(),
            self.memories().dom() == self@.chunks.dom(),
            forall|c: usize| #[trigger] self@.chunks.contains_key(c) ==> c < self.next_index(),
            self@.chunks.len() <= self.next_index(),
    {
        assert(self.memories().dom() =~= self@.chunks.dom());
        assert(self@.chunks.dom() =~= self.chunks@.dom());
    }

    /// A manager without chunks.
    pub fn new() -> (r: Self)
        ensures
            r.wf(),
            r@.chunks == Map::<usize, ChunkView>::empty(),
            r.next_index() == 0,
    {
        let r = Self { unused_blocks: BTreeMap::new(), chunks: map_new(), next_chunk_index: 0 };
        assert(r@.chunks =~= Map::<usize, ChunkView>::empty());
        r
    }

    /// Registers `device_memory` as a new chunk that is one free block, and
    /// returns the index of the chunk: the number of chunks there were,
    /// unless a chunk has that index; then an index that no chunk ever had.
    pub fn add_chunk(&mut self, device_memory: M) -> (chunks_index: usize)
        requires
            old(self).wf(),
            old(self).next_index() < usize::MAX,
            forall|len: u64| call_ensures(M::size, (&device_memory,), len) ==> len > 0,
        ensures
            final(self).wf(),
            chunks_index == old(self).fresh_index(),
            !old(self)@.chunks.contains_key(chunks_index),
            final(self).next_index() == (if chunks_index < old(self).next_index() {
                old(self).next_index()
            } else {
                (chunks_index + 1) as usize
            }),
            final(self)@.chunks.contains_key(chunks_index),
            call_ensures(
                M::size,
                (&device_memory,),
                final(self)@.chunks[chunks_index].size as u64,
            ),
            final(self)@ == old(self)@.with_chunk(
                chunks_index,
                ChunkView::fresh(final(self)@.chunks[chunks_index].size as u64),
            ),
            final(self).memories() == old(self).memories().insert(chunks_index, device_memory),
    {
        let len = device_memory.size();
        let chunks_index = self.new_chunk_index();
        proof {
            lemma_index_add(buckets(self.unused_blocks), self@, chunks_index, len);
            assert(self@.chunks.dom() =~= self.chunks@.dom());
        }
        map_insert(&mut self.chunks, chunks_index, AllocatedChuck::new(device_memory, len));
        Self::insert_unused(&mut self.unused_blocks, 0, len, chunks_index);
        if chunks_index >= self.next_chunk_index {
            self.next_chunk_index = chunks_index + 1;
        }
        assert(final(self)@.chunks =~= old(self)@.with_chunk(
            chunks_index,
            ChunkView::fresh(len),
        ).chunks);
        assert(final(self).memories() =~= old(self).memories().insert(
            chunks_index,
            device_memory,
        ));
        chunks_index
    }

    /// Registers `device_memory` as a new chunk whose first `allocate_len`
    /// bytes are a used block, and returns the handle of that block. What is
    /// left of the chunk, if anything, is one free block. The chunk gets its
    /// index as in `add_chunk`.
    pub fn add_chunk_and_allocate(&mut self, device_memory: M, allocate_len: u64) -> (r: BlockIndex)
        requires
            old(self).wf(),
            old(self).next_index() < usize::MAX,
            allocate_len > 0,
            forall|len: u64| call_ensures(M::size, (&device_memory,), len) ==> len >= allocate_len,
        ensures
            final(self).wf(),
            r == (BlockIndex { offset: 0, chunk_index: old(self).fresh_index() }),
            !old(self)@.chunks.contains_key(r.chunk_index),
            final(self).next_index() == (if r.chunk_index < old(self).next_index() {
                old(self).next_index()
            } else {
                (r.chunk_index + 1) as usize
            }),
            final(self)@.chunks.contains_key(r.chunk_index),
            call_ensures(
                M::size,
                (&device_memory,),
                final(self)@.chunks[r.chunk_index].size as u64,
            ),
            final(self)@ == old(self)@.with_chunk(
                r.chunk_index,
                ChunkView::fresh_allocated(
                    final(self)@.chunks[r.chunk_index].size as u64,
                    allocate_len,
                ),
            ),
            final(self).memories() == old(self).memories().insert(r.chunk_index, device_memory),
    {
        let len = device_memory.size();
        let chunk_index = self.new_chunk_index();
        proof {
            lemma_index_add_allocated(
                buckets(self.unused_blocks),
                self@,
                chunk_index,
                len,
                allocate_len,
            );
            assert(self@.chunks.dom() =~= self.chunks@.dom());
        }
        map_insert(
            &mut self.chunks,
            chunk_index,
            AllocatedChuck::new_and_allocated(device_memory, len, allocate_len),
        );
        if allocate_len < len {
            Self::insert_unused(
                &mut self.unused_blocks,
                allocate_len,
                len - allocate_len,
                chunk_index,
            );
        }
        if chunk_index >= self.next_chunk_index {
            self.next_chunk_index = chunk_index + 1;
        }
        assert(final(self)@.chunks =~= old(self)@.with_chunk(
            chunk_index,
            ChunkView::fresh_allocated(len, allocate_len),
        ).chunks);
        assert(final(self).memories() =~= old(self).memories().insert(chunk_index, device_memory));
        BlockIndex { offset: 0, chunk_index }
    }

    /// The memory of the chunk that `block_index` lies in, if there is such
    /// a chunk.
    pub fn get_device_memory(&mut self, block_index: &BlockIndex) -> (r: Option<&mut M>)
        ensures
            r is Some <==> old(self)@.chunks.contains_key(block_index.chunk_index),
            r matches Some(m) ==> *m == old(self).memories()[block_index.chunk_index]
                && final(self).memories() == old(self).memories().insert(
                block_index.chunk_index,
                *final(m),
            ),
            r is None ==> final(self).memories() == old(self).memories(),
            final(self)@ == old(self)@,
            final(self).next_index() == old(self).next_index(),
            old(self).wf() ==> final(self).wf(),
    {
        proof {
            if self.chunks@.contains_key(block_index.chunk_index) {
                lemma_update_keeps_len(self.chunks@, block_index.chunk_index);
            }
        }
        match map_get_mut(&mut self.chunks, &block_index.chunk_index) {
            Some(chunk) => {
                let m = chunk.device_memory();
                Some(m)
            },
            None => None,
        }
    }

    /// Lists the block at `offset` of chunk `chunk_index` under `len`.
    pub fn insert_unused(
        blocks: &mut BTreeMap<u64, FxHashSet<(u64, usize)>>,
        offset: u64,
        len: u64,
        chunk_index: usize,
    )
        ensures
            buckets(*final(blocks)) == with_entry(buckets(*old(blocks)), len, (offset, chunk_index)),
    {
        match blocks.remove(&len) {
            None => {
                let mut set = set_new();
                set_insert(&mut set, (offset, chunk_index));
                assert(set@ =~= Set::empty().insert((offset, chunk_index)));
                blocks.insert(len, set);
            },
            Some(set) => {
                let mut set = set;
                set_insert(&mut set, (offset, chunk_index));
                blocks.insert(len, set);
            },
        }
        assert(buckets(*final(blocks)) =~= with_entry(
            buckets(*old(blocks)),
            len,
            (offset, chunk_index),
        ));
    }

    /// Takes the block at `offset` of chunk `chunk_index` out from under `len`.
    /// Returns `offset` if that left no block under `len`, which is then no
    /// longer listed.
    pub fn remove_unused(
        blocks: &mut BTreeMap<u64, FxHashSet<(u64, usize)>>,
        offset: u64,
        len: u64,
        chunk_index: usize,
    ) -> (r: Option<u64>)
        ensures
            buckets(*final(blocks)) == without_entry(
                buckets(*old(blocks)),
                len,
                (offset, chunk_index),
            ),
            r == (if empties(buckets(*old(blocks)), len, (offset, chunk_index)) {
                Some(offset)
            } else {
                None
            }),
    {
        match blocks.remove(&len) {
            None => {
                assert(buckets(*final(blocks)) =~= buckets(*old(blocks)));
                None
            },
            Some(set) => {
                let mut set = set;
                set_remove(&mut set, &(offset, chunk_index));
                if set_is_empty(&set) {
                    assert(buckets(*final(blocks)) =~= buckets(*old(blocks)).remove(len));
                    Some(offset)
                } else {
                    blocks.insert(len, set);
                    assert(buckets(*final(blocks)) =~= buckets(*old(blocks)).insert(
                        len,
                        buckets(*old(blocks))[len].remove((offset, chunk_index)),
                    ));
                    None
                }
            },
        }
    }

    /// Looks through the free blocks, shortest first, for one from which
    /// `len` bytes at a multiple of `alignment` can be taken. Returns its
    /// length, its offset and the index of its chunk.
    #[verifier::loop_isolation(false)]
    fn find_candidate(&self, len: u64, alignment: u64) -> (r: Option<(u64, u64, usize)>)
        requires
            self.wf(),
            len > 0,
            alignment > 0,
        ensures
            match r {
                Some((block_len, offset, chunk_index)) => {
                    &&& self@.best_candidate(BlockIndex { offset, chunk_index }, len, alignment)
                    &&& self@.block(BlockIndex { offset, chunk_index }).len == block_len
                },
                None => forall|src: BlockIndex| !self@.candidate(src, len, alignment),
            },
    {
        let ghost ix = buckets(self.unused_blocks);
        let lengths = bucket_lengths(&self.unused_blocks);
        let mut i: usize = 0;
        while i < lengths.len()
            invariant
                self.wf(),
                ix == buckets(self.unused_blocks),
                len > 0,
                alignment > 0,
                i <= lengths@.len(),
                lengths@.to_set() == self.unused_blocks@.dom(),
                forall|a: int, b: int| 0 <= a < b < lengths@.len() ==> lengths@[a] < lengths@[b],
                forall|a: int, item: (u64, usize)|
                    0 <= a < i && listed(ix, #[trigger] lengths@[a], item) ==> !#[trigger] fits(
                        item.0,
                        lengths@[a],
                        len,
                        alignment,
                    ),
            decreases lengths@.len() - i,
        {
            let unused_len = lengths[i];
            assert(lengths@.to_set().contains(unused_len));
            if unused_len >= len {
                match self.unused_blocks.get(&unused_len) {
                    Some(set) => {
                        let items = set_items(set);
                        let mut j: usize = 0;
                        while j < items.len()
                            invariant
                                alignment > 0,
                                j <= items@.len(),
                                forall|b: int|
                                    0 <= b < j ==> !fits(
                                        (#[trigger] items@[b]).0,
                                        unused_len,
                                        len,
                                        alignment,
                                    ),
                            decreases items@.len() - j,
                        {
                            let offset = items[j].0;
                            let chunk_index = items[j].1;
                            if block_fits(offset, unused_len, len, alignment) {
                                proof {
                                    let src = BlockIndex { offset, chunk_index };
                                    assert(items@.to_set().contains(items@[j as int]));
                                    assert(listed(ix, unused_len, (offset, chunk_index)));
                                    assert(self@.free_blocks(unused_len).contains(
                                        (offset, chunk_index),
                                    ));
                                    assert forall|other: BlockIndex| #[trigger]
                                        self@.candidate(other, len, alignment) implies self@.block(
                                        src,
                                    ).len <= self@.block(other).len by {
                                        let l = self@.block(other).len;
                                        let item = (other.offset, other.chunk_index);
                                        assert(self@.free_blocks(l).contains(item));
                                        assert(listed(ix, l, item));
                                        assert(lengths@.to_set().contains(l));
                                        let a = choose|a: int|
                                            0 <= a < lengths@.len() && lengths@[a] == l;
                                        if l < unused_len {
                                            assert(a < i);
                                            assert(!fits(item.0, lengths@[a], len, alignment));
                                        }
                                    }
                                }
                                return Some((unused_len, offset, chunk_index));
                            }
                            j = j + 1;
                        }
                        proof {
                            assert forall|item: (u64, usize)|
                                listed(ix, unused_len, item) implies !#[trigger] fits(
                                item.0,
                                unused_len,
                                len,
                                alignment,
                            ) by {
                                assert(items@.to_set().contains(item));
                                let b = choose|b: int| 0 <= b < items@.len() && items@[b] == item;
                                assert(!fits(items@[b].0, unused_len, len, alignment));
                            }
                        }
                    },
                    None => {},
                }
            }
            i = i + 1;
        }
        proof {
            assert forall|src: BlockIndex| !self@.candidate(src, len, alignment) by {
                if self@.candidate(src, len, alignment) {
                    let l = self@.block(src).len;
                    let item = (src.offset, src.chunk_index);
                    assert(self@.free_blocks(l).contains(item));
                    assert(listed(ix, l, item));
                    assert(lengths@.to_set().contains(l));
                    let a = choose|a: int| 0 <= a < lengths@.len() && lengths@[a] == l;
                    assert(!fits(item.0, lengths@[a], len, alignment));
                }
            }
        }
        None
    }

    /// Takes `len` bytes at a multiple of `alignment` from a free block: a
    /// shortest one among those that can hold them. Returns the handle of
    /// the used block, or nothing if `len` is 0 or no free block can hold
    /// them. Padding in front of the used block and what is left behind it
    /// stay free.
    pub fn allocate(&mut self, len: u64, alignment: u64) -> (r: Option<BlockIndex>)
        requires
            old(self).wf(),
            alignment > 0,
        ensures
            final(self).wf(),
            final(self).memories() == old(self).memories(),
            final(self).next_index() == old(self).next_index(),
            match r {
                Some(idx) => exists|src: BlockIndex|
                    {
                        &&& #[trigger] old(self)@.best_candidate(src, len, alignment)
                        &&& idx == ManagerView::carved_at(src, alignment)
                        &&& final(self)@ == old(self)@.carve(src, len, alignment)
                    },
                None => {
                    &&& final(self)@ == old(self)@
                    &&& len == 0 || forall|src: BlockIndex| !old(self)@.candidate(src, len, alignment)
                },
            },
            r matches Some(idx) ==> {
                &&& idx.offset % alignment == 0
                &&& final(self)@.has_used(idx)
                &&& final(self)@.block(idx).len == len
            },
    {
        if len == 0 {
            return None;
        }
        match self.find_candidate(len, alignment) {
            None => None,
            Some((unused_len, offset, chunk_index)) => {
                let ghost src = BlockIndex { offset, chunk_index };
                proof {
                    lemma_index_carve(buckets(self.unused_blocks), self@, src, len, alignment);
                    assert(self@.chunks[chunk_index].wf());
                    assert(self@.chunks[chunk_index].linked(offset));
                    lemma_carve_wf(self@.chunks[chunk_index], offset, len, alignment);
                    lemma_update_keeps_len(self.chunks@, chunk_index);
                }
                Self::remove_unused(
                    &mut self.unused_blocks,
                    offset,
                    unused_len,
                    chunk_index,
                );
                let new_offset = match map_get_mut(&mut self.chunks, &chunk_index) {
                    Some(chunk) => chunk.carve(offset, len, alignment),
                    None => offset,
                };
                let wasted_len = new_offset - offset;
                assert(wasted_len == padding(offset, alignment));
                if wasted_len > 0 {
                    Self::insert_unused(
                        &mut self.unused_blocks,
                        offset,
                        wasted_len,
                        chunk_index,
                    );
                }
                let tail_block_len = unused_len - wasted_len - len;
                if tail_block_len > 0 {
                    Self::insert_unused(
                        &mut self.unused_blocks,
                        new_offset + len,
                        tail_block_len,
                        chunk_index,
                    );
                }
                assert(final(self)@ =~= old(self)@.carve(src, len, alignment));
                assert(old(self)@.best_candidate(src, len, alignment));
                assert(final(self).memories() =~= old(self).memories());
                assert(buckets(self.unused_blocks) == carve_index(
                    buckets(old(self).unused_blocks),
                    unused_len,
                    src,
                    len,
                    alignment,
                ));
                Some(BlockIndex::new(new_offset, chunk_index))
            },
        }
    }

    /// Whether `block_index` names a block that is in use.
    pub fn is_allocated(&self, block_index: &BlockIndex) -> (r: bool)
        ensures
            r == self@.has_used(*block_index),
    {
        match map_get(&self.chunks, &block_index.chunk_index) {
            Some(chunk) => match chunk.block(block_index.offset) {
                Some(block) => block.used,
                None => false,
            },
            None => false,
        }
    }

    /// Releases the used block that `block_index` names: it becomes free,
    /// takes in its successor if that is free, and is then taken in by its
    /// predecessor if that is free. The caller has to make sure that the
    /// handle came from an allocation and was not released since.
    pub fn free_unchecked(&mut self, block_index: &BlockIndex)
        requires
            old(self).wf(),
            old(self)@.has_used(*block_index),
        ensures
            final(self).wf(),
            final(self)@ == old(self)@.release(*block_index),
            final(self).memories() == old(self).memories(),
            final(self).next_index() == old(self).next_index(),
    {
        let chunk_index = block_index.chunk_index;
        let offset = block_index.offset;
        proof {
            lemma_index_release(buckets(self.unused_blocks), self@, *block_index);
            assert(self@.chunks[chunk_index].wf());
            lemma_update_keeps_len(self.chunks@, chunk_index);
        }
        let released = match map_get_mut(&mut self.chunks, &chunk_index) {
            Some(chunk) => chunk.release(offset),
            None => Released { offset, len: 0, next: None, pre: None },
        };
        if let Some((next_offset, next_len)) = released.next {
            Self::remove_unused(
                &mut self.unused_blocks,
                next_offset,
                next_len,
                chunk_index,
            );
        }
        if let Some((pre_offset, pre_len)) = released.pre {
            Self::remove_unused(
                &mut self.unused_blocks,
                pre_offset,
                pre_len,
                chunk_index,
            );
        }
        Self::insert_unused(
            &mut self.unused_blocks,
            released.offset,
            released.len,
            chunk_index,
        );
        assert(final(self)@ =~= old(self)@.release(*block_index));
        assert(final(self).memories() =~= old(self).memories());
        assert(buckets(self.unused_blocks) == release_index(
            buckets(old(self).unused_blocks),
            old(self)@.chunks[chunk_index],
            *block_index,
        ));
    }

    /// The block at `block_index`, if there is one.
    pub fn block(&self, block_index: &BlockIndex) -> (r: Option<Block>)
        ensures
            r == (if self@.chunks.contains_key(block_index.chunk_index) {
                self@.chunks[block_index.chunk_index].blocks.get(block_index.offset)
            } else {
                None
            }),
    {
        match map_get(&self.chunks, &block_index.chunk_index) {
            Some(chunk) => chunk.block(block_index.offset),
            None => None,
        }
    }

    /// The number of blocks of chunk `chunk_index`, if there is such a chunk.
    pub fn block_count(&self, chunk_index: usize) -> (r: Option<usize>)
        ensures
            match r {
                Some(n) => self@.chunks.contains_key(chunk_index)
                    && n == self@.chunks[chunk_index].blocks.len(),
                None => !self@.chunks.contains_key(chunk_index),
            },
    {
        match map_get(&self.chunks, &chunk_index) {
            Some(chunk) => Some(chunk.block_count()),
            None => None,
        }
    }

    /// The number of chunks.
    pub fn chunk_count(&self) -> (n: usize)
        ensures
            n == self@.chunks.len(),
    {
        assert(self@.chunks.dom() =~= self.chunks@.dom());
        map_len(&self.chunks)
    }

    /// Whether the block at `block_index` is free and `len` bytes long.
    pub fn is_unused(&self, block_index: &BlockIndex, len: u64) -> (r: bool)
        requires
            self.wf(),
        ensures
            r == self@.has_free(*block_index, len),
    {
        let item = (block_index.offset, block_index.chunk_index);
        proof {
            let ix = buckets(self.unused_blocks);
            assert(listed(ix, len, item) <==> self@.free_blocks(len).contains(item));
        }
        match self.unused_blocks.get(&len) {
            Some(set) => set_contains(set, &item),
            None => false,
        }
    }

    /// The number of free blocks of `len` bytes.
    pub fn unused_count(&self, len: u64) -> (n: usize)
        requires
            self.wf(),
        ensures
            n == self@.free_blocks(len).len(),
    {
        proof {
            let ix = buckets(self.unused_blocks);
            assert forall|item: (u64, usize)|
                listed(ix, len, item) <==> #[trigger] self@.free_blocks(len).contains(item) by {}
            if ix.contains_key(len) {
                assert(ix[len] =~= self@.free_blocks(len));
            } else {
                assert(self@.free_blocks(len) =~= Set::empty());
            }
        }
        match self.unused_blocks.get(&len) {
            Some(set) => set_len(set),
            None => 0,
        }
    }

    /// The number of lengths that some free block has.
    pub fn unused_len_count(&self) -> (n: usize)
        requires
            self.wf(),
        ensures
            n == self@.free_lengths().len(),
    {
        proof {
            let ix = buckets(self.unused_blocks);
            assert forall|len: u64| ix.contains_key(len) <==> #[trigger] self@.free_lengths().contains(
                len,
            ) by {
                if ix.contains_key(len) {
                    assert(!ix[len].is_empty());
                    let item = choose|item: (u64, usize)| ix[len].contains(item);
                    assert(listed(ix, len, item));
                    assert(self@.free_blocks(len).contains(item));
                }
                if self@.free_lengths().contains(len) {
                    let item = choose|item: (u64, usize)| #[trigger]
                        self@.free_blocks(len).contains(item);
                    assert(listed(ix, len, item));
                }
            }
            assert(self.unused_blocks@.dom() =~= self@.free_lengths());
        }
        self.unused_blocks.len()
    }

    /// The entirely free chunks, each with its size: found by going through
    /// the list of free blocks and keeping those whose chunk has one block.
    #[verifier::loop_isolation(false)]
    fn unused_chunks(&self) -> (found: Vec<(u64, usize)>)
        requires
            self.wf(),
        ensures
            forall|k: int|
                0 <= k < found@.len() ==> {
                    &&& self@.chunks.contains_key((#[trigger] found@[k]).1)
                    &&& self@.chunks[found@[k].1].entirely_free()
                    &&& self@.chunks[found@[k].1].size == found@[k].0
                },
            forall|c: usize|
                self@.chunks.contains_key(c) && (#[trigger] self@.chunks[c]).entirely_free()
                    ==> has_chunk(found@, c),
    {
        let ghost ix = buckets(self.unused_blocks);
        let mut found: Vec<(u64, usize)> = Vec::new();
        let lengths = bucket_lengths(&self.unused_blocks);
        let mut i: usize = 0;
        while i < lengths.len()
            invariant
                i <= lengths@.len(),
                forall|k: int|
                    0 <= k < found@.len() ==> {
                        &&& self@.chunks.contains_key((#[trigger] found@[k]).1)
                        &&& self@.chunks[found@[k].1].entirely_free()
                        &&& self@.chunks[found@[k].1].size == found@[k].0
                    },
                forall|a: int, item: (u64, usize)|
                    0 <= a < i && listed(ix, #[trigger] lengths@[a], item)
                        && self@.chunks[item.1].entirely_free() ==> #[trigger] has_chunk(
                        found@,
                        item.1,
                    ),
            decreases lengths@.len() - i,
        {
            let len = lengths[i];
            assert(lengths@.to_set().contains(len));
            match self.unused_blocks.get(&len) {
                Some(infos) => {
                    let items = set_items(infos);
                    let mut j: usize = 0;
                    while j < items.len()
                        invariant
                            j <= items@.len(),
                            forall|k: int|
                                0 <= k < found@.len() ==> {
                                    &&& self@.chunks.contains_key((#[trigger] found@[k]).1)
                                    &&& self@.chunks[found@[k].1].entirely_free()
                                    &&& self@.chunks[found@[k].1].size == found@[k].0
                                },
                            forall|a: int, item: (u64, usize)|
                                0 <= a < i && listed(ix, #[trigger] lengths@[a], item)
                                    && self@.chunks[item.1].entirely_free() ==> #[trigger] has_chunk(
                                    found@,
                                    item.1,
                                ),
                            forall|b: int|
                                0 <= b < j && self@.chunks[(#[trigger] items@[b]).1].entirely_free()
                                    ==> has_chunk(found@, items@[b].1),
                        decreases items@.len() - j,
                    {
                        let index = items[j].1;
                        proof {
                            assert(items@.to_set().contains(items@[j as int]));
                            assert(listed(ix, len, items@[j as int]));
                            assert(self@.free_blocks(len).contains(items@[j as int]));
                            assert(self@.chunks[index].wf());
                        }
                        if let Some(chunk) = map_get(&self.chunks, &index) {
                            // only one block in chunk, which means the whole chunk is unused
                            if chunk.block_count() == 1 {
                                proof {
                                    lemma_single_block(self@.chunks[index]);
                                    lemma_has_chunk_push_all(found@, (len, index));
                                }
                                found.push((len, index));
                            } else {
                                proof {
                                    if self@.chunks[index].entirely_free() {
                                        lemma_entirely_free(self@.chunks[index]);
                                    }
                                }
                            }
                        }
                        j = j + 1;
                    }
                    proof {
                        assert forall|item: (u64, usize)|
                            listed(ix, len, item) && self@.chunks[item.1].entirely_free() implies #[trigger] has_chunk(
                            found@,
                            item.1,
                        ) by {
                            assert(items@.to_set().contains(item));
                            let b = choose|b: int| 0 <= b < items@.len() && items@[b] == item;
                            assert(self@.chunks[items@[b].1].entirely_free());
                        }
                    }
                },
                None => {},
            }
            i = i + 1;
        }
        proof {
            assert forall|c: usize|
                self@.chunks.contains_key(c) && (#[trigger] self@.chunks[c]).entirely_free() implies has_chunk(
                found@,
                c,
            ) by {
                let chunk = self@.chunks[c];
                assert(chunk.wf());
                lemma_entirely_free(chunk);
                let l = chunk.size as u64;
                assert(self@.free_blocks(l).contains((0u64, c)));
                assert(listed(ix, l, (0u64, c)));
                assert(lengths@.to_set().contains(l));
                let a = choose|a: int| 0 <= a < lengths@.len() && lengths@[a] == l;
                assert(listed(ix, lengths@[a], (0u64, c)));
            }
        }
        found
    }

    /// Removes every chunk that is entirely free, with its memory. A chunk
    /// with a block in use stays.
    pub fn free_unused_chunk(&mut self)
        requires
            old(self).wf(),
        ensures
            final(self).wf(),
            final(self)@ == old(self)@.reclaim(),
            final(self).memories() == old(self).memories().restrict(final(self)@.chunks.dom()),
            final(self).next_index() == old(self).next_index(),
    {
        let found = self.unused_chunks();
        let ghost removed: Set<usize> = Set::empty();
        let mut k: usize = 0;
        while k < found.len()
            invariant
                self.wf(),
                self.next_chunk_index == old(self).next_chunk_index,
                k <= found@.len(),
                forall|a: int|
                    0 <= a < found@.len() ==> {
                        &&& old(self)@.chunks.contains_key((#[trigger] found@[a]).1)
                        &&& old(self)@.chunks[found@[a].1].entirely_free()
                        &&& old(self)@.chunks[found@[a].1].size == found@[a].0
                    },
                forall|c: usize|
                    old(self)@.chunks.contains_key(c) && (#[trigger] old(
                        self,
                    )@.chunks[c]).entirely_free() ==> has_chunk(found@, c),
                forall|c: usize| #[trigger]
                    removed.contains(c) ==> old(self)@.chunks.contains_key(c) && old(
                        self,
                    )@.chunks[c].entirely_free(),
                forall|a: int| 0 <= a < k ==> removed.contains((#[trigger] found@[a]).1),
                forall|c: usize| #[trigger]
                    self.chunks@.contains_key(c) <==> old(self).chunks@.contains_key(c)
                        && !removed.contains(c),
                forall|c: usize| #[trigger]
                    self.chunks@.contains_key(c) ==> self.chunks@[c] == old(self).chunks@[c],
            decreases found@.len() - k,
        {
            let len = found[k].0;
            let chunk_index = found[k].1;
            if map_get(&self.chunks, &chunk_index).is_some() {
                proof {
                    assert(self@.chunks[chunk_index] == old(self)@.chunks[chunk_index]);
                    lemma_index_drop(buckets(self.unused_blocks), self@, chunk_index);
                    assert(self@.chunks.dom() =~= self.chunks@.dom());
                    assert(self.chunks@.remove(chunk_index).dom() =~= self.chunks@.dom().remove(
                        chunk_index,
                    ));
                }
                let ghost before = self@;
                map_remove(&mut self.chunks, &chunk_index);
                Self::remove_unused(&mut self.unused_blocks, 0, len, chunk_index);
                proof {
                    removed = removed.insert(chunk_index);
                    assert(self@ =~= ManagerView { chunks: before.chunks.remove(chunk_index) });
                }
            }
            k = k + 1;
        }
        proof {
            assert forall|c: usize|
                old(self)@.chunks.contains_key(c) && old(self)@.chunks[c].entirely_free() implies removed.contains(
                c,
            ) by {
                assert(has_chunk(found@, c));
                let a = choose|a: int| 0 <= a < found@.len() && (#[trigger] found@[a]).1 == c;
                assert(removed.contains(found@[a].1));
            }
            assert(final(self)@ =~= old(self)@.reclaim());
            assert(final(self).memories() =~= old(self).memories().restrict(
                final(self)@.chunks.dom(),
            ));
        }
    }
}

impl<M: DeviceMemoryTrait> Default for ChunkManager<M> {
    fn default() -> (r: Self)
        ensures
            r.wf(),
            r@.chunks == Map::<usize, ChunkView>::empty(),
            r.next_index() == 0,
    {
        Self::new()
    }
}

} // verus!
