//! One chunk of device memory and the blocks that partition it.
use crate::fx_collections::map_get;
use crate::fx_collections::map_insert;
use crate::fx_collections::map_len;
use crate::fx_collections::map_new;
use crate::fx_collections::map_remove;
use crate::model::fits;
use crate::model::Block;
use crate::model::ChunkView;
use crate::model_proofs::lemma_carve_wf;
use crate::model_proofs::lemma_interior_empty;
use crate::model_proofs::lemma_release_wf;
use rustc_hash::FxHashMap;
use vstd::prelude::*;

verus! {

/// A chunk: the memory it stands for and its blocks, keyed by offset.
pub struct AllocatedChuck<M> {
    blocks: FxHashMap<u64, Block>,
    device_memory: M,
    size: Ghost<nat>,
}

/// What `release` merged, for whoever keeps a list of the free blocks.
pub struct Released {
    /// Offset of the free block that now holds the released bytes.
    pub offset: u64,
    /// Its length.
    pub len: u64,
    /// Offset and former length of the successor it took in, if it did.
    pub next: Option<(u64, u64)>,
    /// Offset and former length of the predecessor that took it in, if one did.
    pub pre: Option<(u64, u64)>,
}

/// Whether a block of `block_len` bytes at `offset` can hold `len` bytes at
/// a multiple of `alignment`.
pub fn block_fits(offset: u64, block_len: u64, len: u64, alignment: u64) -> (r: bool)
    requires
        alignment > 0,
    ensures
        r == fits(offset, block_len, len, alignment),
{
    let offset_mod_alignment = offset % alignment;
    if offset_mod_alignment == 0 {
        block_len >= len
    } else {
        let wasted_len = alignment - offset_mod_alignment;
        wasted_len <= block_len && block_len - wasted_len >= len
    }
}

impl<M> View for AllocatedChuck<M> {
    type V = ChunkView;

    closed spec fn view(&self) -> ChunkView {
        ChunkView { size: self.size@, blocks: self.blocks@ }
    }
}

impl<M> AllocatedChuck<M> {
    /// The memory that the chunk stands for.
    pub closed spec fn memory(&self) -> M {
        self.device_memory
    }

    /// A chunk of `len` bytes that is one free block.
    pub fn new(device_memory: M, len: u64) -> (r: Self)
        requires
            len > 0,
        ensures
            r@ == ChunkView::fresh(len),
            r.memory() == device_memory,
    {
        let mut blocks = map_new();
        map_insert(&mut blocks, 0, Block { len, used: false, pre: None, next: None });
        Self { blocks, device_memory, size: Ghost(len as nat) }
    }

    /// A chunk of `len` bytes whose first `allocated_len` bytes are a used
    /// block; the rest, if any, is one free block.
    pub fn new_and_allocated(device_memory: M, len: u64, allocated_len: u64) -> (r: Self)
        requires
            0 < allocated_len <= len,
        ensures
            r@ == ChunkView::fresh_allocated(len, allocated_len),
            r.memory() == device_memory,
    {
        let perfect_match = len == allocated_len;
        let mut blocks = map_new();
        map_insert(
            &mut blocks,
            0,
            Block {
                len: allocated_len,
                used: true,
                pre: None,
                next: if perfect_match {
                    None
                } else {
                    Some(allocated_len)
                },
            },
        );
        if !perfect_match {
            map_insert(
                &mut blocks,
                allocated_len,
                Block { len: len - allocated_len, used: false, pre: Some(0), next: None },
            );
        }
        Self { blocks, device_memory, size: Ghost(len as nat) }
    }

    /// The block at `offset`, if there is one.
    pub fn block(&self, offset: u64) -> (r: Option<Block>)
        ensures
            r == self@.blocks.get(offset),
    {
        match map_get(&self.blocks, &offset) {
            Some(b) => Some(*b),
            None => None,
        }
    }

    /// The number of blocks.
    pub fn block_count(&self) -> (n: usize)
        ensures
            n == self@.blocks.len(),
    {
        map_len(&self.blocks)
    }

    /// The memory that the chunk stands for.
    pub fn device_memory(&mut self) -> (r: &mut M)
        ensures
            *r == old(self).memory(),
            final(self).memory() == *final(r),
            final(self)@ == old(self)@,
    {
        &mut self.device_memory
    }

    /// Sets the `pre` link of the block at `at`, if any, to `pre`.
    fn relink(&mut self, at: Option<u64>, pre: u64)
        requires
            at matches Some(n) ==> old(self)@.blocks.contains_key(n),
        ensures
            final(self)@.size == old(self)@.size,
            final(self)@.blocks == crate::model::relink(old(self)@.blocks, at, pre),
            final(self).memory() == old(self).memory(),
    {
        if let Some(n) = at {
            if let Some(b) = self.block(n) {
                map_insert(
                    &mut self.blocks,
                    n,
                    Block { len: b.len, used: b.used, pre: Some(pre), next: b.next },
                );
            }
        }
    }

    /// Takes `len` bytes at a multiple of `alignment` from the free block at
    /// `src` and returns the offset of the used block. Padding in front of
    /// it and what is left behind it stay free.
    pub fn carve(&mut self, src: u64, len: u64, alignment: u64) -> (at: u64)
        requires
            old(self)@.wf(),
            old(self)@.can_carve(src, len, alignment),
        ensures
            final(self)@ == old(self)@.carve(src, len, alignment),
            final(self)@.wf(),
            final(self).memory() == old(self).memory(),
            at == ChunkView::carved_at(src, alignment),
    {
        proof {
            lemma_carve_wf(self@, src, len, alignment);
            lemma_interior_empty(self@, src);
            assert(self@.linked(src));
            if self@.blocks[src].next is Some {
                assert(self@.linked(self@.blocks[src].next->0));
            }
        }
        let block = self.block(src).unwrap();
        let offset_mod_alignment = src % alignment;
        let wasted_len = if offset_mod_alignment == 0 {
            0
        } else {
            alignment - offset_mod_alignment
        };
        let new_offset = src + wasted_len;
        let rest = block.len - wasted_len - len;
        if wasted_len != 0 {
            map_insert(
                &mut self.blocks,
                src,
                Block { len: wasted_len, used: false, pre: block.pre, next: Some(new_offset) },
            );
        }
        let new_pre = if wasted_len == 0 {
            block.pre
        } else {
            Some(src)
        };
        if rest == 0 {
            map_insert(
                &mut self.blocks,
                new_offset,
                Block { len, used: true, pre: new_pre, next: block.next },
            );
            self.relink(block.next, new_offset);
        } else {
            let tail_block_offset = new_offset + len;
            map_insert(
                &mut self.blocks,
                new_offset,
                Block { len, used: true, pre: new_pre, next: Some(tail_block_offset) },
            );
            map_insert(
                &mut self.blocks,
                tail_block_offset,
                Block { len: rest, used: false, pre: Some(new_offset), next: block.next },
            );
            self.relink(block.next, tail_block_offset);
        }
        new_offset
    }

    /// If the successor of `block` is free, takes it in: `block` grows by its
    /// length and gets its `next` link, and it leaves the chunk. Returns the
    /// offset and length it had.
    fn merge_with_next(&mut self, block: &mut Block) -> (r: Option<(u64, u64)>)
        requires
            old(block).next matches Some(n) ==> old(self)@.blocks.contains_key(n) && old(
                block,
            ).len + old(self)@.blocks[n].len <= u64::MAX,
        ensures
            final(self)@.size == old(self)@.size,
            final(self).memory() == old(self).memory(),
            final(block).used == old(block).used,
            final(block).pre == old(block).pre,
            match old(block).next {
                Some(n) if !old(self)@.blocks[n].used => {
                    &&& r == Some((n, old(self)@.blocks[n].len))
                    &&& final(self)@.blocks == old(self)@.blocks.remove(n)
                    &&& final(block).len == old(block).len + old(self)@.blocks[n].len
                    &&& final(block).next == old(self)@.blocks[n].next
                },
                _ => {
                    &&& r is None
                    &&& final(self)@.blocks == old(self)@.blocks
                    &&& *final(block) == *old(block)
                },
            },
    {
        if let Some(i) = block.next {
            if let Some(next_block) = self.block(i) {
                if !next_block.used {
                    block.len = block.len + next_block.len;
                    block.next = next_block.next;
                    map_remove(&mut self.blocks, &i);
                    return Some((i, next_block.len));
                }
            }
        }
        None
    }

    /// Puts `block`, now free, back at `offset`, unless its predecessor is
    /// free: then the predecessor grows by its length and gets its `next`
    /// link. Returns the offset and former length of the predecessor in that
    /// case.
    fn merge_with_pre(&mut self, offset: u64, block: Block) -> (r: Option<(u64, u64)>)
        requires
            block.pre matches Some(p) ==> old(self)@.blocks.contains_key(p) && old(
                self,
            )@.blocks[p].len + block.len <= u64::MAX,
        ensures
            final(self)@.size == old(self)@.size,
            final(self).memory() == old(self).memory(),
            match block.pre {
                Some(p) if !old(self)@.blocks[p].used => {
                    &&& r == Some((p, old(self)@.blocks[p].len))
                    &&& final(self)@.blocks == old(self)@.blocks.remove(offset).insert(
                        p,
                        Block {
                            len: (old(self)@.blocks[p].len + block.len) as u64,
                            used: false,
                            pre: old(self)@.blocks[p].pre,
                            next: block.next,
                        },
                    )
                },
                _ => {
                    &&& r is None
                    &&& final(self)@.blocks == old(self)@.blocks.insert(
                        offset,
                        Block { len: block.len, used: false, pre: block.pre, next: block.next },
                    )
                },
            },
    {
        if let Some(pre_offset) = block.pre {
            if let Some(pre_block) = self.block(pre_offset) {
                if !pre_block.used {
                    map_remove(&mut self.blocks, &offset);
                    map_insert(
                        &mut self.blocks,
                        pre_offset,
                        Block {
                            len: pre_block.len + block.len,
                            used: false,
                            pre: pre_block.pre,
                            next: block.next,
                        },
                    );
                    return Some((pre_offset, pre_block.len));
                }
            }
        }
        map_insert(
            &mut self.blocks,
            offset,
            Block { len: block.len, used: false, pre: block.pre, next: block.next },
        );
        None
    }

    /// Releases the used block at `offset`: it becomes free, takes in its
    /// successor if that is free, and is then taken in by its predecessor if
    /// that is free.
    pub fn release(&mut self, offset: u64) -> (r: Released)
        requires
            old(self)@.wf(),
            old(self)@.has_used(offset),
        ensures
            final(self)@ == old(self)@.release(offset),
            final(self)@.wf(),
            final(self).memory() == old(self).memory(),
            r.offset == old(self)@.released_at(offset),
            r.len == old(self)@.released_len(offset),
            r.next == (if old(self)@.merges_next(offset) {
                Some(
                    (
                        old(self)@.blocks[offset].next->0,
                        old(self)@.blocks[old(self)@.blocks[offset].next->0].len,
                    ),
                )
            } else {
                None
            }),
            r.pre == (if old(self)@.merges_pre(offset) {
                Some(
                    (
                        old(self)@.blocks[offset].pre->0,
                        old(self)@.blocks[old(self)@.blocks[offset].pre->0].len,
                    ),
                )
            } else {
                None
            }),
    {
        proof {
            let c = self@;
            lemma_release_wf(c, offset);
            assert(c.linked(offset));
            if c.blocks[offset].next is Some {
                assert(c.linked(c.blocks[offset].next->0));
            }
            if c.blocks[offset].pre is Some {
                assert(c.linked(c.blocks[offset].pre->0));
            }
        }
        let mut block = self.block(offset).unwrap();
        let next = self.merge_with_next(&mut block);
        let pre = self.merge_with_pre(offset, block);
        let at = match pre {
            Some((p, _)) => p,
            None => offset,
        };
        let len = match pre {
            Some((_, l)) => l + block.len,
            None => block.len,
        };
        proof {
            let c = old(self)@;
            if block.next is Some {
                assert(c.linked(block.next->0));
            }
        }
        self.relink(block.next, at);
        assert(final(self)@.blocks =~= old(self)@.release(offset).blocks);
        Released { offset: at, len, next, pre }
    }
}

} // verus!
