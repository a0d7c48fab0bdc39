//! The mathematical model of a chunk: the blocks that partition it, what it
//! means for them to be linked up correctly, and what carving a block out of
//! free space and releasing it again do to them.
use vstd::prelude::*;

verus! {

/// A contiguous byte range of a chunk, with the offsets of its neighbours.
#[derive(Clone, Copy, Debug, PartialEq, Eq)]
pub struct Block {
    pub len: u64,
    pub used: bool,
    pub pre: Option<u64>,
    pub next: Option<u64>,
}

/// Handle of a block: the chunk it lies in and its offset there.
#[derive(PartialEq, Eq, Hash, Debug, Clone, Copy, Structural)]
pub struct BlockIndex {
    pub offset: u64,
    pub chunk_index: usize,
}

impl BlockIndex {
    pub fn new(offset: u64, chunk_index: usize) -> (r: Self)
        ensures
            r.offset == offset,
            r.chunk_index == chunk_index,
    {
        Self { offset, chunk_index }
    }
}

/// The bytes to skip from `offset` to reach the next multiple of `alignment`.
pub open spec fn padding(offset: u64, alignment: u64) -> nat {
    if offset % alignment == 0 {
        0
    } else {
        (alignment - offset % alignment) as nat
    }
}

/// Whether a block of `block_len` bytes at `offset` can hold `len` bytes at
/// a multiple of `alignment`.
pub open spec fn fits(offset: u64, block_len: u64, len: u64, alignment: u64) -> bool {
    padding(offset, alignment) + len <= block_len
}

/// `blocks` with the `pre` link of the block at `at`, if any, set to `pre`.
pub open spec fn relink(blocks: Map<u64, Block>, at: Option<u64>, pre: u64) -> Map<u64, Block> {
    match at {
        Some(n) => blocks.insert(
            n,
            Block { len: blocks[n].len, used: blocks[n].used, pre: Some(pre), next: blocks[n].next },
        ),
        None => blocks,
    }
}

/// A chunk: its size and its blocks, keyed by offset.
#[verifier::ext_equal]
pub ghost struct ChunkView {
    pub size: nat,
    pub blocks: Map<u64, Block>,
}

impl ChunkView {
    /// The block at `o` lies inside the chunk, is not empty, and agrees with
    /// its neighbours: `next` is the offset right behind it (none at the end
    /// of the chunk), `pre` is the block that ends where it starts (none at
    /// offset 0), and it is not free beside a free successor.
    pub open spec fn linked(self, o: u64) -> bool {
        let b = self.blocks[o];
        &&& b.len > 0
        &&& o + b.len <= self.size
        &&& b.next == (if o + b.len == self.size {
            None
        } else {
            Some((o + b.len) as u64)
        })
        &&& (b.pre is None <==> o == 0)
        &&& (b.next matches Some(n) ==> self.blocks.contains_key(n) && self.blocks[n].pre == Some(o)
            && (b.used || self.blocks[n].used))
        &&& (b.pre matches Some(p) ==> self.blocks.contains_key(p) && self.blocks[p].next == Some(
            o,
        ))
    }

    /// The blocks form one chain from offset 0 to the end of the chunk, and
    /// no two neighbours are both free.
    pub open spec fn wf(self) -> bool {
        &&& 0 < self.size <= u64::MAX
        &&& self.blocks.dom().finite()
        &&& self.blocks.contains_key(0)
        &&& forall|o: u64| self.blocks.contains_key(o) ==> #[trigger] self.linked(o)
    }

    /// A new chunk: one free block that spans it.
    pub open spec fn fresh(size: u64) -> ChunkView {
        ChunkView {
            size: size as nat,
            blocks: Map::empty().insert(
                0u64,
                Block { len: size, used: false, pre: None, next: None },
            ),
        }
    }

    /// A new chunk whose first `len` bytes are a used block; the rest, if
    /// any, is one free block.
    pub open spec fn fresh_allocated(size: u64, len: u64) -> ChunkView {
        if len == size {
            ChunkView {
                size: size as nat,
                blocks: Map::empty().insert(
                    0u64,
                    Block { len: size, used: true, pre: None, next: None },
                ),
            }
        } else {
            ChunkView {
                size: size as nat,
                blocks: Map::empty().insert(
                    0u64,
                    Block { len: len, used: true, pre: None, next: Some(len) },
                ).insert(
                    len,
                    Block { len: (size - len) as u64, used: false, pre: Some(0), next: None },
                ),
            }
        }
    }

    /// There is a free block of `len` bytes at `o`.
    pub open spec fn has_free(self, o: u64, len: u64) -> bool {
        &&& self.blocks.contains_key(o)
        &&& !self.blocks[o].used
        &&& self.blocks[o].len == len
    }

    /// There is a used block at `o`.
    pub open spec fn has_used(self, o: u64) -> bool {
        &&& self.blocks.contains_key(o)
        &&& self.blocks[o].used
    }

    /// The whole chunk is one free block.
    pub open spec fn entirely_free(self) -> bool {
        &&& self.blocks.dom() =~= set![0u64]
        &&& !self.blocks[0].used
    }

    /// `len` bytes at a multiple of `alignment` can be taken from the free
    /// block at `src`.
    pub open spec fn can_carve(self, src: u64, len: u64, alignment: u64) -> bool {
        &&& len > 0
        &&& alignment > 0
        &&& self.blocks.contains_key(src)
        &&& !self.blocks[src].used
        &&& fits(src, self.blocks[src].len, len, alignment)
    }

    /// Where the used block lies after `carve` from the block at `src`.
    pub open spec fn carved_at(src: u64, alignment: u64) -> u64 {
        (src + padding(src, alignment)) as u64
    }

    /// The chunk after `len` bytes were taken from the free block at `src`:
    /// the padding up to the next multiple of `alignment`, if any, stays
    /// behind as a free block at `src`; then comes the used block; what is
    /// left behind it, if anything, is a free block of its own.
    pub open spec fn carve(self, src: u64, len: u64, alignment: u64) -> ChunkView {
        let b = self.blocks[src];
        let pad = padding(src, alignment);
        let at = (src + pad) as u64;
        let rest = (b.len - pad - len) as u64;
        let end = (at + len) as u64;
        let head = if pad == 0 {
            self.blocks
        } else {
            self.blocks.insert(
                src,
                Block { len: pad as u64, used: false, pre: b.pre, next: Some(at) },
            )
        };
        let mid = head.insert(
            at,
            Block {
                len: len,
                used: true,
                pre: if pad == 0 {
                    b.pre
                } else {
                    Some(src)
                },
                next: if rest == 0 {
                    b.next
                } else {
                    Some(end)
                },
            },
        );
        let tail = if rest == 0 {
            mid
        } else {
            mid.insert(end, Block { len: rest, used: false, pre: Some(at), next: b.next })
        };
        let last = if rest == 0 {
            at
        } else {
            end
        };
        ChunkView { size: self.size, blocks: relink(tail, b.next, last) }
    }

    /// Whether releasing the block at `o` merges it with its successor.
    pub open spec fn merges_next(self, o: u64) -> bool {
        self.blocks[o].next matches Some(n) && !self.blocks[n].used
    }

    /// Whether releasing the block at `o` merges it with its predecessor.
    pub open spec fn merges_pre(self, o: u64) -> bool {
        self.blocks[o].pre matches Some(p) && !self.blocks[p].used
    }

    /// Where the free block lies that holds the bytes of the block at `o`
    /// after `release`.
    pub open spec fn released_at(self, o: u64) -> u64 {
        if self.merges_pre(o) {
            self.blocks[o].pre->0
        } else {
            o
        }
    }

    /// The length of that free block.
    pub open spec fn released_len(self, o: u64) -> nat {
        let b = self.blocks[o];
        let behind = if self.merges_next(o) {
            self.blocks[b.next->0].len
        } else {
            0
        };
        let before = if self.merges_pre(o) {
            self.blocks[b.pre->0].len
        } else {
            0
        };
        (before + b.len + behind) as nat
    }

    /// The chunk after the used block at `o` was released: it becomes free
    /// and takes in its successor, if that is free, and is then taken in by
    /// its predecessor, if that is free.
    pub open spec fn release(self, o: u64) -> ChunkView {
        let b = self.blocks[o];
        let next = if self.merges_next(o) {
            self.blocks[b.next->0].next
        } else {
            b.next
        };
        let dropped = if self.merges_next(o) {
            self.blocks.remove(b.next->0)
        } else {
            self.blocks
        };
        let at = self.released_at(o);
        let merged = Block {
            len: self.released_len(o) as u64,
            used: false,
            pre: self.blocks[at].pre,
            next: next,
        };
        let joined = if self.merges_pre(o) {
            dropped.remove(o).insert(at, merged)
        } else {
            dropped.insert(at, merged)
        };
        ChunkView { size: self.size, blocks: relink(joined, next, at) }
    }
}

/// All chunks of one manager, keyed by chunk index.
#[verifier::ext_equal]
pub ghost struct ManagerView {
    pub chunks: Map<usize, ChunkView>,
}

impl ManagerView {
    /// Every chunk is well formed.
    pub open spec fn wf(self) -> bool {
        &&& self.chunks.dom().finite()
        &&& forall|c: usize| self.chunks.contains_key(c) ==> #[trigger] self.chunks[c].wf()
    }

    /// There is a free block of `len` bytes at `idx`.
    pub open spec fn has_free(self, idx: BlockIndex, len: u64) -> bool {
        &&& self.chunks.contains_key(idx.chunk_index)
        &&& self.chunks[idx.chunk_index].has_free(idx.offset, len)
    }

    /// There is a used block at `idx`.
    pub open spec fn has_used(self, idx: BlockIndex) -> bool {
        &&& self.chunks.contains_key(idx.chunk_index)
        &&& self.chunks[idx.chunk_index].has_used(idx.offset)
    }

    /// The block at `idx`.
    pub open spec fn block(self, idx: BlockIndex) -> Block {
        self.chunks[idx.chunk_index].blocks[idx.offset]
    }

    /// The free blocks of `len` bytes, as pairs of offset and chunk index.
    pub open spec fn free_blocks(self, len: u64) -> Set<(u64, usize)> {
        Set::new(|p: (u64, usize)| self.has_free(BlockIndex { offset: p.0, chunk_index: p.1 }, len))
    }

    /// The lengths that some free block has.
    pub open spec fn free_lengths(self) -> Set<u64> {
        Set::new(|len: u64| exists|p: (u64, usize)| #[trigger] self.free_blocks(len).contains(p))
    }

    /// `len` bytes at a multiple of `alignment` can be taken from the free
    /// block at `src`.
    pub open spec fn candidate(self, src: BlockIndex, len: u64, alignment: u64) -> bool {
        &&& self.chunks.contains_key(src.chunk_index)
        &&& self.chunks[src.chunk_index].can_carve(src.offset, len, alignment)
    }

    /// `src` is a candidate, and no candidate is shorter.
    pub open spec fn best_candidate(self, src: BlockIndex, len: u64, alignment: u64) -> bool {
        &&& self.candidate(src, len, alignment)
        &&& forall|other: BlockIndex| #[trigger]
            self.candidate(other, len, alignment) ==> self.block(src).len <= self.block(other).len
    }

    /// Where the used block lies after `carve` from the block at `src`.
    pub open spec fn carved_at(src: BlockIndex, alignment: u64) -> BlockIndex {
        BlockIndex {
            offset: ChunkView::carved_at(src.offset, alignment),
            chunk_index: src.chunk_index,
        }
    }

    /// The chunks after `len` bytes were taken from the free block at `src`.
    pub open spec fn carve(self, src: BlockIndex, len: u64, alignment: u64) -> ManagerView {
        ManagerView {
            chunks: self.chunks.insert(
                src.chunk_index,
                self.chunks[src.chunk_index].carve(src.offset, len, alignment),
            ),
        }
    }

    /// The chunks after the used block at `idx` was released.
    pub open spec fn release(self, idx: BlockIndex) -> ManagerView {
        ManagerView {
            chunks: self.chunks.insert(
                idx.chunk_index,
                self.chunks[idx.chunk_index].release(idx.offset),
            ),
        }
    }

    /// The chunks with one more, under `id`.
    pub open spec fn with_chunk(self, id: usize, chunk: ChunkView) -> ManagerView {
        ManagerView { chunks: self.chunks.insert(id, chunk) }
    }

    /// The chunks without those that are entirely free.
    pub open spec fn reclaim(self) -> ManagerView {
        ManagerView {
            chunks: Map::new(
                |c: usize| self.chunks.contains_key(c) && !self.chunks[c].entirely_free(),
                |c: usize| self.chunks[c],
            ),
        }
    }
}

} // verus!
