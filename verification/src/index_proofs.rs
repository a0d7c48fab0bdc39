//! Proofs that the list of free blocks follows the chunks through every
//! operation of the manager.
use crate::model::padding;
use crate::model::BlockIndex;
use crate::model::ChunkView;
use crate::model::ManagerView;
use crate::model_proofs::lemma_carve_free;
use crate::model_proofs::lemma_carve_wf;
use crate::model_proofs::lemma_entirely_free;
use crate::model_proofs::lemma_fresh_allocated_wf;
use crate::model_proofs::lemma_fresh_wf;
use crate::model_proofs::lemma_release_free;
use crate::model_proofs::lemma_release_wf;
use crate::unused_index::index_matches;
use crate::unused_index::lemma_with_entry;
use crate::unused_index::lemma_without_entry;
use crate::unused_index::listed;
use crate::unused_index::with_entry;
use crate::unused_index::without_entry;
use vstd::prelude::*;

verus! {

/// The list after `len` bytes were carved from the free block of
/// `block_len` bytes at `src`.
pub open spec fn carve_index(
    ix: Map<u64, Set<(u64, usize)>>,
    block_len: u64,
    src: BlockIndex,
    len: u64,
    alignment: u64,
) -> Map<u64, Set<(u64, usize)>> {
    let pad = padding(src.offset, alignment);
    let rest = block_len - pad - len;
    let end = ChunkView::carved_at(src.offset, alignment) + len;
    let taken = without_entry(ix, block_len, (src.offset, src.chunk_index));
    let padded = if pad > 0 {
        with_entry(taken, pad as u64, (src.offset, src.chunk_index))
    } else {
        taken
    };
    if rest > 0 {
        with_entry(padded, rest as u64, (end as u64, src.chunk_index))
    } else {
        padded
    }
}

/// The list after the used block at `idx` of chunk `c` was released.
pub open spec fn release_index(ix: Map<u64, Set<(u64, usize)>>, c: ChunkView, idx: BlockIndex) -> Map<
    u64,
    Set<(u64, usize)>,
> {
    let b = c.blocks[idx.offset];
    let behind = if c.merges_next(idx.offset) {
        without_entry(ix, c.blocks[b.next->0].len, (b.next->0, idx.chunk_index))
    } else {
        ix
    };
    let before = if c.merges_pre(idx.offset) {
        without_entry(behind, c.blocks[b.pre->0].len, (b.pre->0, idx.chunk_index))
    } else {
        behind
    };
    with_entry(
        before,
        c.released_len(idx.offset) as u64,
        (c.released_at(idx.offset), idx.chunk_index),
    )
}

/// A new chunk that is one free block adds that block to the list.
pub proof fn lemma_index_add(ix: Map<u64, Set<(u64, usize)>>, v: ManagerView, id: usize, size: u64)
    requires
        v.wf(),
        index_matches(ix, v),
        !v.chunks.contains_key(id),
        size > 0,
    ensures
        v.with_chunk(id, ChunkView::fresh(size)).wf(),
        index_matches(with_entry(ix, size, (0, id)), v.with_chunk(id, ChunkView::fresh(size))),
{
    let w = v.with_chunk(id, ChunkView::fresh(size));
    let jx = with_entry(ix, size, (0, id));
    lemma_fresh_wf(size);
    lemma_with_entry(ix, size, (0, id));
    assert forall|c: usize| w.chunks.contains_key(c) implies #[trigger] w.chunks[c].wf() by {
        if c != id {
            assert(v.chunks[c].wf());
        }
    }
    assert forall|len: u64, item: (u64, usize)|
        #![trigger listed(jx, len, item)]
        #![trigger w.free_blocks(len).contains(item)]
        listed(jx, len, item) <==> w.free_blocks(len).contains(item) by {
        if item.1 != id {
            assert(listed(ix, len, item) <==> v.free_blocks(len).contains(item));
        } else {
            assert(!v.free_blocks(len).contains(item));
            assert(!listed(ix, len, item));
        }
    }
}

/// A new chunk whose first block is in use adds what is left behind that
/// block, if anything, to the list.
pub proof fn lemma_index_add_allocated(
    ix: Map<u64, Set<(u64, usize)>>,
    v: ManagerView,
    id: usize,
    size: u64,
    len: u64,
)
    requires
        v.wf(),
        index_matches(ix, v),
        !v.chunks.contains_key(id),
        0 < len <= size,
    ensures
        v.with_chunk(id, ChunkView::fresh_allocated(size, len)).wf(),
        index_matches(
            if len < size {
                with_entry(ix, (size - len) as u64, (len, id))
            } else {
                ix
            },
            v.with_chunk(id, ChunkView::fresh_allocated(size, len)),
        ),
{
    let w = v.with_chunk(id, ChunkView::fresh_allocated(size, len));
    let jx = if len < size {
        with_entry(ix, (size - len) as u64, (len, id))
    } else {
        ix
    };
    lemma_fresh_allocated_wf(size, len);
    lemma_with_entry(ix, (size - len) as u64, (len, id));
    assert forall|c: usize| w.chunks.contains_key(c) implies #[trigger] w.chunks[c].wf() by {
        if c != id {
            assert(v.chunks[c].wf());
        }
    }
    assert forall|l: u64, item: (u64, usize)|
        #![trigger listed(jx, l, item)]
        #![trigger w.free_blocks(l).contains(item)]
        listed(jx, l, item) <==> w.free_blocks(l).contains(item) by {
        if item.1 != id {
            assert(listed(ix, l, item) <==> v.free_blocks(l).contains(item));
        } else {
            assert(!v.free_blocks(l).contains(item));
            assert(!listed(ix, l, item));
        }
    }
}

/// Carving keeps the chunks well formed, and the list follows.
pub proof fn lemma_index_carve(
    ix: Map<u64, Set<(u64, usize)>>,
    v: ManagerView,
    src: BlockIndex,
    len: u64,
    alignment: u64,
)
    requires
        v.wf(),
        index_matches(ix, v),
        v.candidate(src, len, alignment),
    ensures
        v.carve(src, len, alignment).wf(),
        index_matches(
            carve_index(ix, v.block(src).len, src, len, alignment),
            v.carve(src, len, alignment),
        ),
{
    let c = v.chunks[src.chunk_index];
    let id = src.chunk_index;
    let w = v.carve(src, len, alignment);
    let block_len = v.block(src).len;
    let pad = padding(src.offset, alignment);
    let rest = block_len - pad - len;
    let end = (ChunkView::carved_at(src.offset, alignment) + len) as u64;
    let taken = without_entry(ix, block_len, (src.offset, id));
    let padded = if pad > 0 {
        with_entry(taken, pad as u64, (src.offset, id))
    } else {
        taken
    };
    let jx = carve_index(ix, block_len, src, len, alignment);
    assert(c.wf());
    lemma_carve_wf(c, src.offset, len, alignment);
    lemma_carve_free(c, src.offset, len, alignment);
    lemma_without_entry(ix, block_len, (src.offset, id));
    lemma_with_entry(taken, pad as u64, (src.offset, id));
    lemma_with_entry(padded, rest as u64, (end, id));
    assert forall|k: usize| w.chunks.contains_key(k) implies #[trigger] w.chunks[k].wf() by {
        if k != id {
            assert(v.chunks[k].wf());
        }
    }
    assert forall|l: u64, item: (u64, usize)|
        #![trigger listed(jx, l, item)]
        #![trigger w.free_blocks(l).contains(item)]
        listed(jx, l, item) <==> w.free_blocks(l).contains(item) by {
        assert(listed(ix, l, item) <==> v.free_blocks(l).contains(item));
        assert(listed(taken, l, item) <==> listed(ix, l, item) && !(l == block_len && item == (
            src.offset,
            id,
        )));
        assert(listed(padded, l, item) <==> listed(taken, l, item) || (pad > 0 && l == pad
            && item == (src.offset, id)));
        assert(listed(jx, l, item) <==> listed(padded, l, item) || (rest > 0 && l == rest
            && item == (end, id)));
        if item.1 == id {
            assert(w.chunks[id].has_free(item.0, l) <==> (c.has_free(item.0, l) && item.0
                != src.offset) || (pad > 0 && item.0 == src.offset && l == pad) || (rest > 0
                && item.0 == end && l == rest));
        }
    }
}

/// Releasing keeps the chunks well formed, and the list follows.
pub proof fn lemma_index_release(ix: Map<u64, Set<(u64, usize)>>, v: ManagerView, idx: BlockIndex)
    requires
        v.wf(),
        index_matches(ix, v),
        v.has_used(idx),
    ensures
        v.release(idx).wf(),
        index_matches(release_index(ix, v.chunks[idx.chunk_index], idx), v.release(idx)),
{
    let c = v.chunks[idx.chunk_index];
    let id = idx.chunk_index;
    let o = idx.offset;
    let b = c.blocks[o];
    let w = v.release(idx);
    let behind = if c.merges_next(o) {
        without_entry(ix, c.blocks[b.next->0].len, (b.next->0, id))
    } else {
        ix
    };
    let before = if c.merges_pre(o) {
        without_entry(behind, c.blocks[b.pre->0].len, (b.pre->0, id))
    } else {
        behind
    };
    let jx = release_index(ix, c, idx);
    assert(c.wf());
    lemma_release_wf(c, o);
    lemma_release_free(c, o);
    lemma_without_entry(ix, c.blocks[b.next->0].len, (b.next->0, id));
    lemma_without_entry(behind, c.blocks[b.pre->0].len, (b.pre->0, id));
    lemma_with_entry(before, c.released_len(o) as u64, (c.released_at(o), id));
    assert forall|k: usize| w.chunks.contains_key(k) implies #[trigger] w.chunks[k].wf() by {
        if k != id {
            assert(v.chunks[k].wf());
        }
    }
    assert forall|l: u64, item: (u64, usize)|
        #![trigger listed(jx, l, item)]
        #![trigger w.free_blocks(l).contains(item)]
        listed(jx, l, item) <==> w.free_blocks(l).contains(item) by {
        assert(listed(ix, l, item) <==> v.free_blocks(l).contains(item));
        assert(listed(behind, l, item) <==> listed(ix, l, item) && !(c.merges_next(o) && l
            == c.blocks[b.next->0].len && item == (b.next->0, id)));
        assert(listed(before, l, item) <==> listed(behind, l, item) && !(c.merges_pre(o) && l
            == c.blocks[b.pre->0].len && item == (b.pre->0, id)));
        assert(listed(jx, l, item) <==> listed(before, l, item) || (l == c.released_len(o)
            && item == (c.released_at(o), id)));
        if item.1 == id {
            assert(w.chunks[id].has_free(item.0, l) <==> (c.has_free(item.0, l) && !(
            c.merges_next(o) && b.next == Some(item.0)) && !(c.merges_pre(o) && b.pre == Some(
                item.0,
            ))) || (item.0 == c.released_at(o) && l == c.released_len(o)));
        }
    }
}

/// Dropping an entirely free chunk takes its one block off the list.
pub proof fn lemma_index_drop(ix: Map<u64, Set<(u64, usize)>>, v: ManagerView, id: usize)
    requires
        v.wf(),
        index_matches(ix, v),
        v.chunks.contains_key(id),
        v.chunks[id].entirely_free(),
    ensures
        (ManagerView { chunks: v.chunks.remove(id) }).wf(),
        index_matches(
            without_entry(ix, v.chunks[id].size as u64, (0, id)),
            ManagerView { chunks: v.chunks.remove(id) },
        ),
{
    let w = ManagerView { chunks: v.chunks.remove(id) };
    let size = v.chunks[id].size as u64;
    let jx = without_entry(ix, size, (0, id));
    assert(v.chunks[id].wf());
    lemma_entirely_free(v.chunks[id]);
    lemma_without_entry(ix, size, (0, id));
    assert forall|k: usize| w.chunks.contains_key(k) implies #[trigger] w.chunks[k].wf() by {
        assert(v.chunks[k].wf());
    }
    assert forall|l: u64, item: (u64, usize)|
        #![trigger listed(jx, l, item)]
        #![trigger w.free_blocks(l).contains(item)]
        listed(jx, l, item) <==> w.free_blocks(l).contains(item) by {
        assert(listed(ix, l, item) <==> v.free_blocks(l).contains(item));
    }
}

} // verus!
