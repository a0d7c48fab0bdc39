//! What holds of every well-formed chunk and of the operations on chunks,
//! stated over the model that the contracts of the allocator speak of.
use crate::allocator::growth_target;
use crate::allocator::spec_chunk_size;
use crate::model::BlockIndex;
use crate::model::ChunkView;
use crate::model::ManagerView;
use crate::model_proofs::lemma_carve_used;
use crate::model_proofs::lemma_carve_wf;
use crate::model_proofs::lemma_fresh_allocated_wf;
use crate::model_proofs::lemma_no_overlap;
use crate::model_proofs::lemma_release_carve;
use crate::model_proofs::lemma_release_used;
use vstd::prelude::*;

verus! {

impl ChunkView {
    /// The offsets of the blocks met on the way from offset `o` to the end
    /// of the chunk, each block leading to the one right behind it.
    pub open spec fn chain(self, o: nat) -> Seq<u64>
        decreases self.size - o,
    {
        if o < self.size <= u64::MAX && self.blocks.contains_key(o as u64)
            && self.blocks[o as u64].len > 0 && o + self.blocks[o as u64].len <= self.size {
            seq![o as u64] + self.chain(o + self.blocks[o as u64].len as nat)
        } else {
            Seq::empty()
        }
    }

    /// The sum of the lengths of the blocks at `offsets`.
    pub open spec fn length_sum(self, offsets: Seq<u64>) -> nat
        decreases offsets.len(),
    {
        if offsets.len() == 0 {
            0
        } else {
            self.blocks[offsets[0]].len as nat + self.length_sum(offsets.drop_first())
        }
    }
}

/// The chain from a block holds that block first, then the chain from the
/// offset right behind it.
proof fn lemma_chain_step(c: ChunkView, o: u64)
    requires
        c.wf(),
        c.blocks.contains_key(o),
    ensures
        c.chain(o as nat).len() > 0,
        c.chain(o as nat)[0] == o,
        c.chain(o as nat).drop_first() == c.chain((o + c.blocks[o].len) as nat),
        c.length_sum(c.chain(o as nat)) == c.blocks[o].len + c.length_sum(
            c.chain((o + c.blocks[o].len) as nat),
        ),
{
    assert(c.linked(o));
    let rest = c.chain((o + c.blocks[o].len) as nat);
    assert(c.chain(o as nat) == seq![o] + rest);
    assert((seq![o] + rest).drop_first() =~= rest);
}

/// The lengths along the chain from a block add up to what lies between
/// the block's offset and the end of the chunk.
proof fn lemma_chain_sum(c: ChunkView, o: u64)
    requires
        c.wf(),
        c.blocks.contains_key(o),
    ensures
        c.length_sum(c.chain(o as nat)) == c.size - o,
    decreases c.size - o,
{
    assert(c.linked(o));
    lemma_chain_step(c, o);
    if c.blocks[o].next is Some {
        lemma_chain_sum(c, c.blocks[o].next->0);
    } else {
        assert(c.chain(c.size) =~= Seq::empty());
    }
}

/// The chain from a block reaches every block at a higher offset.
proof fn lemma_chain_reaches(c: ChunkView, o: u64, k: u64)
    requires
        c.wf(),
        c.blocks.contains_key(o),
        c.blocks.contains_key(k),
        o <= k,
    ensures
        c.chain(o as nat).contains(k),
    decreases c.size - o,
{
    assert(c.linked(o));
    assert(c.linked(k));
    lemma_chain_step(c, o);
    let s = c.chain(o as nat);
    if k == o {
        assert(s[0] == k);
    } else {
        lemma_no_overlap(c, o, k);
        let n = c.blocks[o].next->0;
        lemma_chain_reaches(c, n, k);
        let j = choose|j: int| 0 <= j < s.drop_first().len() && s.drop_first()[j] == k;
        assert(s[j + 1] == k);
    }
}

/// Each offset on the chain from a block is a block, and each block on it
/// leads to the block that follows it on the chain.
proof fn lemma_chain_links(c: ChunkView, o: u64, i: int)
    requires
        c.wf(),
        c.blocks.contains_key(o),
        0 <= i < c.chain(o as nat).len(),
    ensures
        c.blocks.contains_key(c.chain(o as nat)[i]),
        i + 1 < c.chain(o as nat).len() ==> c.blocks[c.chain(o as nat)[i]].next == Some(
            c.chain(o as nat)[i + 1],
        ),
        i + 1 == c.chain(o as nat).len() ==> c.blocks[c.chain(o as nat)[i]].next is None,
    decreases i,
{
    assert(c.linked(o));
    lemma_chain_step(c, o);
    let s = c.chain(o as nat);
    if c.blocks[o].next is Some {
        let n = c.blocks[o].next->0;
        lemma_chain_step(c, n);
        if i > 0 {
            lemma_chain_links(c, n, i - 1);
            assert(s.drop_first()[i - 1] == s[i]);
            if i + 1 < s.len() {
                assert(s.drop_first()[i] == s[i + 1]);
            }
        } else {
            assert(s.drop_first()[0] == s[1]);
        }
    } else {
        assert(c.chain(c.size) =~= Seq::empty());
    }
}

/// The offsets on the chain from a block do not lie below it.
proof fn lemma_chain_from(c: ChunkView, o: u64, i: int)
    requires
        c.wf(),
        c.blocks.contains_key(o),
        0 <= i < c.chain(o as nat).len(),
    ensures
        o <= c.chain(o as nat)[i],
    decreases i,
{
    assert(c.linked(o));
    lemma_chain_step(c, o);
    let s = c.chain(o as nat);
    if i > 0 {
        if c.blocks[o].next is Some {
            lemma_chain_from(c, c.blocks[o].next->0, i - 1);
            assert(s.drop_first()[i - 1] == s[i]);
        } else {
            assert(c.chain(c.size) =~= Seq::empty());
        }
    }
}

/// The offsets on the chain from a block go up.
proof fn lemma_chain_rises(c: ChunkView, o: u64, i: int, j: int)
    requires
        c.wf(),
        c.blocks.contains_key(o),
        0 <= i < j < c.chain(o as nat).len(),
    ensures
        c.chain(o as nat)[i] < c.chain(o as nat)[j],
    decreases i,
{
    assert(c.linked(o));
    lemma_chain_step(c, o);
    let s = c.chain(o as nat);
    if c.blocks[o].next is Some {
        let n = c.blocks[o].next->0;
        assert(s.drop_first()[j - 1] == s[j]);
        if i > 0 {
            assert(s.drop_first()[i - 1] == s[i]);
            lemma_chain_rises(c, n, i - 1, j - 1);
        } else {
            lemma_chain_from(c, n, j - 1);
        }
    } else {
        assert(c.chain(c.size) =~= Seq::empty());
    }
}

/// No adjacent free blocks: walking the chain of a well-formed chunk from
/// offset 0 never shows two free blocks in a row.
pub proof fn law_no_adjacent_free(c: ChunkView, i: int)
    requires
        c.wf(),
        0 <= i,
        i + 1 < c.chain(0).len(),
    ensures
        c.blocks[c.chain(0)[i]].used || c.blocks[c.chain(0)[i + 1]].used,
{
    lemma_chain_links(c, 0, i);
    assert(c.linked(c.chain(0)[i]));
}

/// Conservation: the chain of a well-formed chunk from offset 0 holds every
/// block of the chunk once, in the order of their offsets, and nothing
/// else, and the lengths of the blocks on it add up to the size of the
/// chunk.
pub proof fn law_conservation(c: ChunkView)
    requires
        c.wf(),
    ensures
        forall|o: u64| c.blocks.contains_key(o) <==> #[trigger] c.chain(0).contains(o),
        forall|i: int, j: int|
            0 <= i < j < c.chain(0).len() ==> #[trigger] c.chain(0)[i] < #[trigger] c.chain(0)[j],
        c.length_sum(c.chain(0)) == c.size,
{
    lemma_chain_sum(c, 0);
    assert forall|i: int, j: int| 0 <= i < j < c.chain(0).len() implies #[trigger] c.chain(0)[i]
        < #[trigger] c.chain(0)[j] by {
        lemma_chain_rises(c, 0, i, j);
    }
    assert forall|o: u64| c.blocks.contains_key(o) <==> #[trigger] c.chain(0).contains(o) by {
        if c.blocks.contains_key(o) {
            lemma_chain_reaches(c, 0, o);
        }
        if c.chain(0).contains(o) {
            let i = choose|i: int| 0 <= i < c.chain(0).len() && c.chain(0)[i] == o;
            lemma_chain_links(c, 0, i);
        }
    }
}

/// Round trip: taking bytes from a free block and releasing them at once
/// gives back the chunks as they were, whatever else is in use.
pub proof fn law_round_trip(v: ManagerView, src: BlockIndex, len: u64, alignment: u64)
    requires
        v.wf(),
        v.candidate(src, len, alignment),
    ensures
        v.carve(src, len, alignment).release(ManagerView::carved_at(src, alignment)) == v,
{
    let c = v.chunks[src.chunk_index];
    assert(c.wf());
    lemma_release_carve(c, src.offset, len, alignment);
    assert(v.carve(src, len, alignment).release(ManagerView::carved_at(src, alignment)).chunks
        =~= v.chunks);
}

/// Alignment: the used block that is taken from a free block starts at a
/// multiple of the alignment and lies inside that free block.
pub proof fn law_alignment(v: ManagerView, src: BlockIndex, len: u64, alignment: u64)
    requires
        v.wf(),
        v.candidate(src, len, alignment),
    ensures
        ManagerView::carved_at(src, alignment).offset % alignment == 0,
        src.offset <= ManagerView::carved_at(src, alignment).offset,
        ManagerView::carved_at(src, alignment).offset + len <= src.offset + v.block(src).len,
{
    assert(v.chunks[src.chunk_index].wf());
    lemma_carve_wf(v.chunks[src.chunk_index], src.offset, len, alignment);
}

/// No double allocation: of two allocations in a row, without a release in
/// between, the second does not overlap the first.
pub proof fn law_no_double_allocation(
    v: ManagerView,
    src1: BlockIndex,
    len1: u64,
    alignment1: u64,
    src2: BlockIndex,
    len2: u64,
    alignment2: u64,
)
    requires
        v.wf(),
        v.candidate(src1, len1, alignment1),
        v.carve(src1, len1, alignment1).candidate(src2, len2, alignment2),
    ensures
        ({
            let first = ManagerView::carved_at(src1, alignment1);
            let second = ManagerView::carved_at(src2, alignment2);
            first.chunk_index == second.chunk_index ==> first.offset + len1 <= second.offset
                || second.offset + len2 <= first.offset
        }),
{
    let first = ManagerView::carved_at(src1, alignment1);
    let second = ManagerView::carved_at(src2, alignment2);
    let w = v.carve(src1, len1, alignment1);
    assert(v.chunks[src1.chunk_index].wf());
    lemma_carve_wf(v.chunks[src1.chunk_index], src1.offset, len1, alignment1);
    if first.chunk_index == second.chunk_index {
        let d = w.chunks[first.chunk_index];
        lemma_carve_wf(d, src2.offset, len2, alignment2);
        if first.offset < src2.offset {
            lemma_no_overlap(d, first.offset, src2.offset);
        } else {
            lemma_no_overlap(d, src2.offset, first.offset);
        }
    }
}

/// Growth: the chunk asked for when no free block can hold a request is at
/// least twice the request and twice what was taken in so far, and a chunk
/// of at least that size holds the request in its first block.
pub proof fn law_growth(total_size: u64, size: u64, committed: u64)
    requires
        size > 0,
        spec_chunk_size(growth_target(total_size, size)) matches Some(asked) && committed
            >= asked,
    ensures
        spec_chunk_size(growth_target(total_size, size))->0 >= 2 * size,
        spec_chunk_size(growth_target(total_size, size))->0 >= 2 * total_size,
        ChunkView::fresh_allocated(committed, size).wf(),
        ChunkView::fresh_allocated(committed, size).has_used(0),
        ChunkView::fresh_allocated(committed, size).blocks[0].len == size,
{
    lemma_fresh_allocated_wf(committed, size);
}

/// A well-formed chunk without a used block is one free block.
pub proof fn law_all_free(c: ChunkView)
    requires
        c.wf(),
        forall|o: u64| c.blocks.contains_key(o) ==> !(#[trigger] c.blocks[o]).used,
    ensures
        c.entirely_free(),
{
    assert(c.linked(0));
    assert forall|k: u64| c.blocks.contains_key(k) implies k == 0 by {
        if k != 0 {
            lemma_no_overlap(c, 0, k);
            assert(c.linked(k));
            assert(c.blocks.contains_key(c.blocks[0].next->0));
            assert(!c.blocks[c.blocks[0].next->0].used);
        }
    }
    assert(c.blocks.dom() =~= set![0u64]);
}

/// Reclamation: a chunk all of whose blocks were released is removed, and a
/// chunk with a block in use stays as it is.
pub proof fn law_reclamation(v: ManagerView, c: usize)
    requires
        v.wf(),
        v.chunks.contains_key(c),
    ensures
        (forall|o: u64| v.chunks[c].blocks.contains_key(o) ==> !(#[trigger] v.chunks[c].blocks[o]).used)
            ==> !v.reclaim().chunks.contains_key(c),
        (exists|o: u64| #[trigger] v.chunks[c].has_used(o)) ==> v.reclaim().chunks.contains_key(c)
            && v.reclaim().chunks[c] == v.chunks[c],
{
    assert(v.chunks[c].wf());
    if forall|o: u64| v.chunks[c].blocks.contains_key(o) ==> !(#[trigger] v.chunks[c].blocks[o]).used {
        law_all_free(v.chunks[c]);
    }
    if exists|o: u64| #[trigger] v.chunks[c].has_used(o) {
        let o = choose|o: u64| #[trigger] v.chunks[c].has_used(o);
        if v.chunks[c].entirely_free() {
            assert(v.chunks[c].blocks.dom().contains(o));
        }
    }
}

/// Handles stay valid: a block in use is still in use, where it was and as
/// long as it was, after bytes were taken from a free block.
pub proof fn law_allocation_keeps_handles(
    v: ManagerView,
    src: BlockIndex,
    len: u64,
    alignment: u64,
    held: BlockIndex,
)
    requires
        v.wf(),
        v.candidate(src, len, alignment),
        v.has_used(held),
    ensures
        v.carve(src, len, alignment).has_used(held),
        v.carve(src, len, alignment).block(held).len == v.block(held).len,
        held != ManagerView::carved_at(src, alignment),
{
    let c = v.chunks[src.chunk_index];
    assert(c.wf());
    lemma_carve_used(c, src.offset, len, alignment);
    lemma_carve_wf(c, src.offset, len, alignment);
    if held.chunk_index == src.chunk_index {
        assert(v.carve(src, len, alignment).chunks[held.chunk_index].has_used(held.offset));
        if held.offset == ChunkView::carved_at(src.offset, alignment) {
            if held.offset != src.offset {
                lemma_no_overlap(c, src.offset, held.offset);
            }
        }
    }
}

/// Handles stay valid: a block in use is still in use, where it was and as
/// long as it was, after another block was released.
pub proof fn law_release_keeps_handles(v: ManagerView, released: BlockIndex, held: BlockIndex)
    requires
        v.wf(),
        v.has_used(released),
        v.has_used(held),
        held != released,
    ensures
        v.release(released).has_used(held),
        v.release(released).block(held).len == v.block(held).len,
{
    let c = v.chunks[released.chunk_index];
    assert(c.wf());
    lemma_release_used(c, released.offset);
    if held.chunk_index == released.chunk_index {
        assert(v.release(released).chunks[held.chunk_index].has_used(held.offset));
    }
}

/// Handles stay valid: reclaiming leaves every block in use as it was.
pub proof fn law_reclaim_keeps_handles(v: ManagerView, held: BlockIndex)
    requires
        v.wf(),
        v.has_used(held),
    ensures
        v.reclaim().has_used(held),
        v.reclaim().chunks[held.chunk_index] == v.chunks[held.chunk_index],
{
    law_reclamation(v, held.chunk_index);
    assert(v.chunks[held.chunk_index].has_used(held.offset));
}

} // verus!
