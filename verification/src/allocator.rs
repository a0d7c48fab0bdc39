//! The allocator for one kind of memory: a chunk manager and the policy by
//! which it grows. Committing memory is the business of the memory provider;
//! this type decides when a new chunk is needed and how large it has to be,
//! and takes the committed memory in.
use crate::chunk_manager::ChunkManager;
use crate::chunk_manager::DeviceMemoryTrait;
use crate::model::BlockIndex;
use crate::model::ChunkView;
use crate::model::ManagerView;
use vstd::prelude::*;

verus! {

/// Something that lives in a block of an allocator.
pub trait IBlockBasedResource {
    /// The handle of the block.
    fn get_block_index(&self) -> &BlockIndex;
}

/// A resource together with the block that it was bound to.
pub struct BlockBasedResource<R> {
    resource: R,
    block_index: BlockIndex,
}

impl<R> BlockBasedResource<R> {
    /// The resource.
    pub closed spec fn resource(&self) -> R {
        self.resource
    }

    /// The handle of the block that the resource lives in.
    pub closed spec fn block_index(&self) -> BlockIndex {
        self.block_index
    }

    /// `resource`, bound to the block at `block_index`.
    pub fn new(resource: R, block_index: BlockIndex) -> (r: Self)
        ensures
            r.resource() == resource,
            r.block_index() == block_index,
    {
        Self { resource, block_index }
    }

    /// The resource.
    pub fn get(&self) -> (r: &R)
        ensures
            *r == self.resource(),
    {
        &self.resource
    }

    /// The resource, for changing it. The block stays the same.
    pub fn get_mut(&mut self) -> (r: &mut R)
        ensures
            *r == old(self).resource(),
            final(self).resource() == *final(r),
            final(self).block_index() == old(self).block_index(),
    {
        &mut self.resource
    }

    /// Gives the block back to `allocator` and hands out the resource, which
    /// is no longer bound. Taking `self` by value makes sure that a block is
    /// given back once.
    pub fn release<M: DeviceMemoryTrait>(self, allocator: &mut BlockBasedAllocator<M>) -> (r: R)
        requires
            old(allocator).wf(),
            old(allocator)@.manager.has_used(self.block_index()),
        ensures
            r == self.resource(),
            final(allocator).wf(),
            final(allocator)@.manager == old(allocator)@.manager.release(self.block_index()),
            final(allocator)@.total_size == old(allocator)@.total_size,
            final(allocator).memories() == old(allocator).memories(),
            final(allocator).next_index() == old(allocator).next_index(),
    {
        allocator.free_block(&self);
        self.resource
    }
}

impl<R> IBlockBasedResource for BlockBasedResource<R> {
    fn get_block_index(&self) -> (r: &BlockIndex)
        ensures
            *r == self.block_index(),
    {
        &self.block_index
    }
}

/// What the allocator holds: its chunks, and the bytes it has taken in as
/// chunks since it was made (which never go down, and wrap around at 2^64).
#[verifier::ext_equal]
pub ghost struct AllocatorView {
    pub manager: ManagerView,
    pub total_size: u64,
}

/// How a request is to be met.
#[derive(Debug, PartialEq, Eq, Clone, Copy)]
pub enum Placement {
    /// The request was placed in this block.
    Placed(BlockIndex),
    /// No free block can hold the request: a chunk of `chunk_size` bytes has
    /// to be committed and handed to `capacity_with_allocate` with this
    /// `len`.
    Grow { len: u64, chunk_size: u64 },
    /// No free block can hold the request, and the chunk that would be
    /// needed is larger than 64 bits can say.
    TooLarge,
}

/// The size of the chunk that is committed to hold `len` bytes: twice as
/// much, so that there is room for the padding in front of any alignment up
/// to `len`. Nothing if that does not fit in 64 bits.
pub fn chunk_size(len: u64) -> (r: Option<u64>)
    ensures
        r == spec_chunk_size(len),
{
    len.checked_mul(2)
}

/// The size of the chunk that is committed to hold `len` bytes.
pub open spec fn spec_chunk_size(len: u64) -> Option<u64> {
    if 2 * len <= u64::MAX {
        Some((2 * len) as u64)
    } else {
        None
    }
}

/// The length by which the allocator grows for a request of `size` bytes
/// when it has taken in `total_size` bytes so far: the larger of the two.
pub open spec fn growth_target(total_size: u64, size: u64) -> u64 {
    if total_size >= size {
        total_size
    } else {
        size
    }
}

/// The sum of `a` and `b` as a 64-bit counter holds it.
pub open spec fn wrapped_sum(a: u64, b: u64) -> u64 {
    if a + b <= u64::MAX {
        (a + b) as u64
    } else {
        (a + b - 0x1_0000_0000_0000_0000) as u64
    }
}

/// The chunks of one kind of memory, and how many bytes were taken in.
pub struct BlockBasedAllocator<M: DeviceMemoryTrait> {
    chunk_manager: ChunkManager<M>,
    total_size: u64,
}

impl<M: DeviceMemoryTrait> View for BlockBasedAllocator<M> {
    type V = AllocatorView;

    closed spec fn view(&self) -> AllocatorView {
        AllocatorView { manager: self.chunk_manager@, total_size: self.total_size }
    }
}

impl<M: DeviceMemoryTrait> BlockBasedAllocator<M> {
    /// The chunk manager is well formed.
    pub closed spec fn wf(&self) -> bool {
        self.chunk_manager.wf()
    }

    /// The memory of each chunk.
    pub closed spec fn memories(&self) -> Map<usize, M> {
        self.chunk_manager.memories()
    }

    /// An index above those of all chunks, of those that were removed too.
    pub closed spec fn next_index(&self) -> usize {
        self.chunk_manager.next_index()
    }

    /// The index that the next chunk gets: the number of chunks, unless a
    /// chunk has that index; then `next_index`.
    pub open spec fn fresh_index(&self) -> usize {
        if self@.manager.chunks.contains_key(self@.manager.chunks.len() as usize) {
            self.next_index()
        } else {
            self@.manager.chunks.len() as usize
        }
    }

    /// What `wf` says of the model.
    pub proof fn lemma_wf(&self)
        requires
            self.wf(),
        ensures
            self@.manager.wf(),
            self.memories().dom() == self@.manager.chunks.dom(),
            forall|c: usize| #[trigger]
                self@.manager.chunks.contains_key(c) ==> c < self.next_index(),
            self@.manager.chunks.len() <= self.next_index(),
    {
        self.chunk_manager.lemma_wf();
    }

    /// An allocator without chunks.
    pub fn new() -> (r: Self)
        ensures
            r.wf(),
            r@.manager.chunks == Map::<usize, ChunkView>::empty(),
            r@.total_size == 0,
            r.next_index() == 0,
    {
        BlockBasedAllocator { chunk_manager: ChunkManager::new(), total_size: 0 }
    }

    /// The bytes taken in as chunks so far.
    pub fn total_size(&self) -> (r: u64)
        ensures
            r == self@.total_size,
    {
        self.total_size
    }

    /// Whether one more chunk can be taken in.
    pub fn has_room(&self) -> (r: bool)
        ensures
            r == (self.next_index() < usize::MAX),
    {
        self.chunk_manager.next_chunk_index() < usize::MAX
    }

    /// Takes in `device_memory`, committed to hold `len` bytes, as a new
    /// chunk that is one free block, and counts twice `len`.
    pub fn capacity(&mut self, len: u64, device_memory: M) -> (chunk_index: usize)
        requires
            old(self).wf(),
            old(self).next_index() < usize::MAX,
            spec_chunk_size(len) is Some,
            forall|size: u64| call_ensures(M::size, (&device_memory,), size) ==> size > 0,
        ensures
            final(self).wf(),
            chunk_index == old(self).fresh_index(),
            !old(self)@.manager.chunks.contains_key(chunk_index),
            final(self).next_index() == (if chunk_index < old(self).next_index() {
                old(self).next_index()
            } else {
                (chunk_index + 1) as usize
            }),
            final(self)@.manager.chunks.contains_key(chunk_index),
            call_ensures(
                M::size,
                (&device_memory,),
                final(self)@.manager.chunks[chunk_index].size as u64,
            ),
            final(self)@.manager == old(self)@.manager.with_chunk(
                chunk_index,
                ChunkView::fresh(final(self)@.manager.chunks[chunk_index].size as u64),
            ),
            final(self)@.total_size == wrapped_sum(
                old(self)@.total_size,
                spec_chunk_size(len)->0,
            ),
            final(self).memories() == old(self).memories().insert(chunk_index, device_memory),
    {
        // the space is twice what was asked, to make sure the memory is big
        // enough to hold a resource with any alignment
        let len = len * 2;
        let chunk_index = self.chunk_manager.add_chunk(device_memory);
        self.total_size = self.total_size.wrapping_add(len);
        chunk_index
    }

    /// Takes in `device_memory`, committed to hold `len` bytes, as a new
    /// chunk whose first `allocate_len` bytes are a used block, counts twice
    /// `len`, and returns the handle of that block.
    pub fn capacity_with_allocate(&mut self, len: u64, device_memory: M, allocate_len: u64) -> (r:
        BlockIndex)
        requires
            old(self).wf(),
            old(self).next_index() < usize::MAX,
            spec_chunk_size(len) is Some,
            allocate_len > 0,
            forall|size: u64|
                call_ensures(M::size, (&device_memory,), size) ==> size >= allocate_len,
        ensures
            final(self).wf(),
            r == (BlockIndex { offset: 0, chunk_index: old(self).fresh_index() }),
            !old(self)@.manager.chunks.contains_key(r.chunk_index),
            final(self).next_index() == (if r.chunk_index < old(self).next_index() {
                old(self).next_index()
            } else {
                (r.chunk_index + 1) as usize
            }),
            final(self)@.manager.chunks.contains_key(r.chunk_index),
            call_ensures(
                M::size,
                (&device_memory,),
                final(self)@.manager.chunks[r.chunk_index].size as u64,
            ),
            final(self)@.manager == old(self)@.manager.with_chunk(
                r.chunk_index,
                ChunkView::fresh_allocated(
                    final(self)@.manager.chunks[r.chunk_index].size as u64,
                    allocate_len,
                ),
            ),
            final(self)@.manager.has_used(r),
            final(self)@.manager.block(r).len == allocate_len,
            final(self)@.total_size == wrapped_sum(
                old(self)@.total_size,
                spec_chunk_size(len)->0,
            ),
            final(self).memories() == old(self).memories().insert(r.chunk_index, device_memory),
    {
        let len = len * 2;
        let block_index = self.chunk_manager.add_chunk_and_allocate(device_memory, allocate_len);
        self.total_size = self.total_size.wrapping_add(len);
        block_index
    }

    /// Places a request of `size` bytes at a multiple of `alignment` in a
    /// free block, a shortest one among those that can hold it. Where none
    /// can, says by how much to grow: by the larger of `size` and the bytes
    /// taken in so far, in a chunk twice that size.
    pub fn allocate(&mut self, size: u64, alignment: u64) -> (r: Placement)
        requires
            old(self).wf(),
            size > 0,
            alignment > 0,
        ensures
            final(self).wf(),
            final(self)@.total_size == old(self)@.total_size,
            final(self).memories() == old(self).memories(),
            final(self).next_index() == old(self).next_index(),
            match r {
                Placement::Placed(idx) => exists|src: BlockIndex|
                    {
                        &&& #[trigger] old(self)@.manager.best_candidate(src, size, alignment)
                        &&& idx == ManagerView::carved_at(src, alignment)
                        &&& final(self)@.manager == old(self)@.manager.carve(src, size, alignment)
                    },
                Placement::Grow { len, chunk_size } => {
                    &&& final(self)@ == old(self)@
                    &&& forall|src: BlockIndex| !old(self)@.manager.candidate(src, size, alignment)
                    &&& len == growth_target(old(self)@.total_size, size)
                    &&& spec_chunk_size(len) == Some(chunk_size)
                },
                Placement::TooLarge => {
                    &&& final(self)@ == old(self)@
                    &&& forall|src: BlockIndex| !old(self)@.manager.candidate(src, size, alignment)
                    &&& spec_chunk_size(growth_target(old(self)@.total_size, size)) is None
                },
            },
            r matches Placement::Placed(idx) ==> {
                &&& idx.offset % alignment == 0
                &&& final(self)@.manager.has_used(idx)
                &&& final(self)@.manager.block(idx).len == size
            },
    {
        match self.chunk_manager.allocate(size, alignment) {
            Some(block_index) => {
                proof {
                    let src = choose|src: BlockIndex|
                        {
                            &&& #[trigger] old(self).chunk_manager@.best_candidate(
                                src,
                                size,
                                alignment,
                            )
                            &&& block_index == ManagerView::carved_at(src, alignment)
                            &&& self.chunk_manager@ == old(self).chunk_manager@.carve(
                                src,
                                size,
                                alignment,
                            )
                        };
                    assert(old(self)@.manager.best_candidate(src, size, alignment));
                }
                Placement::Placed(block_index)
            },
            None => {
                let total_size = self.total_size;
                let len = if total_size >= size {
                    total_size
                } else {
                    size
                };
                match chunk_size(len) {
                    Some(chunk_size) => Placement::Grow { len, chunk_size },
                    None => Placement::TooLarge,
                }
            },
        }
    }

    /// Gives the block of `t` back.
    pub fn free_block<T: IBlockBasedResource>(&mut self, t: &T)
        requires
            old(self).wf(),
            forall|block_index: &BlockIndex| #[trigger]
                call_ensures(T::get_block_index, (t,), block_index) ==> old(
                    self,
                )@.manager.has_used(*block_index),
        ensures
            final(self).wf(),
            exists|block_index: &BlockIndex|
                {
                    &&& #[trigger] call_ensures(T::get_block_index, (t,), block_index)
                    &&& final(self)@.manager == old(self)@.manager.release(*block_index)
                },
            final(self)@.total_size == old(self)@.total_size,
            final(self).memories() == old(self).memories(),
            final(self).next_index() == old(self).next_index(),
    {
        let block_index = t.get_block_index();
        self.chunk_manager.free_unchecked(block_index);
    }

    /// Whether `block_index` names a block that is in use.
    pub fn is_allocated(&self, block_index: &BlockIndex) -> (r: bool)
        ensures
            r == self@.manager.has_used(*block_index),
    {
        self.chunk_manager.is_allocated(block_index)
    }

    /// Removes every chunk that is entirely free, with its memory. The
    /// count of bytes taken in stays as it is.
    pub fn free_unused_chunks(&mut self)
        requires
            old(self).wf(),
        ensures
            final(self).wf(),
            final(self)@.manager == old(self)@.manager.reclaim(),
            final(self)@.total_size == old(self)@.total_size,
            final(self).memories() == old(self).memories().restrict(
                final(self)@.manager.chunks.dom(),
            ),
            final(self).next_index() == old(self).next_index(),
    {
        self.chunk_manager.free_unused_chunk();
    }

    /// The memory of the chunk that `block_index` lies in, if there is such
    /// a chunk.
    pub fn get_device_memory(&mut self, block_index: &BlockIndex) -> (r: Option<&mut M>)
        ensures
            r is Some <==> old(self)@.manager.chunks.contains_key(block_index.chunk_index),
            r matches Some(m) ==> *m == old(self).memories()[block_index.chunk_index]
                && final(self).memories() == old(self).memories().insert(
                block_index.chunk_index,
                *final(m),
            ),
            r is None ==> final(self).memories() == old(self).memories(),
            final(self)@ == old(self)@,
            final(self).next_index() == old(self).next_index(),
            old(self).wf() ==> final(self).wf(),
    {
        self.chunk_manager.get_device_memory(block_index)
    }
}

} // verus!
