//! Proofs about the model of a chunk: construction, carving and releasing
//! keep it well formed.
use crate::model::padding;
use crate::model::Block;
use crate::model::ChunkView;
use vstd::prelude::*;

verus! {

/// A new chunk is well formed and entirely free.
pub proof fn lemma_fresh_wf(size: u64)
    requires
        size > 0,
    ensures
        ChunkView::fresh(size).wf(),
        ChunkView::fresh(size).entirely_free(),
{
}

/// A new chunk with its first block in use is well formed.
pub proof fn lemma_fresh_allocated_wf(size: u64, len: u64)
    requires
        0 < len <= size,
    ensures
        ChunkView::fresh_allocated(size, len).wf(),
        ChunkView::fresh_allocated(size, len).has_used(0),
{
}

/// Two blocks of a well-formed chunk do not overlap: the one at the lower
/// offset ends before the other starts.
pub proof fn lemma_no_overlap(c: ChunkView, a: u64, b: u64)
    requires
        c.wf(),
        c.blocks.contains_key(a),
        c.blocks.contains_key(b),
        a < b,
    ensures
        a + c.blocks[a].len <= b,
    decreases b,
{
    let p = c.blocks[b].pre->0;
    assert(c.linked(b));
    assert(c.linked(p));
    if p > a {
        lemma_no_overlap(c, a, p);
    } else if p < a {
        lemma_no_overlap(c, p, a);
    }
}

/// No block of a well-formed chunk starts inside another.
pub proof fn lemma_interior_empty(c: ChunkView, o: u64)
    requires
        c.wf(),
        c.blocks.contains_key(o),
    ensures
        forall|k: u64| o < k < o + c.blocks[o].len ==> !c.blocks.contains_key(k),
{
    assert forall|k: u64| o < k < o + c.blocks[o].len implies !c.blocks.contains_key(k) by {
        if c.blocks.contains_key(k) {
            lemma_no_overlap(c, o, k);
        }
    }
}

/// The padding is less than the alignment and leads to a multiple of it.
pub proof fn lemma_padding(offset: u64, alignment: u64)
    requires
        alignment > 0,
    ensures
        padding(offset, alignment) < alignment,
        (offset + padding(offset, alignment)) % (alignment as int) == 0,
{
    let m = offset % alignment;
    if m != 0 {
        assert((offset + (alignment - m)) % (alignment as int) == 0) by (nonlinear_arith)
            requires
                m == offset % alignment,
                alignment > 0,
        ;
    }
}

/// `d` is `c` with the free block at `src` replaced by up to three blocks:
/// `pad` free bytes (if any), `len` used bytes, and `rest` free bytes (if
/// any), all linked up with each other and with the old neighbours.
spec fn carved_shape(c: ChunkView, d: ChunkView, src: u64, pad: nat, len: u64, rest: nat) -> bool {
    let b = c.blocks[src];
    let at = (src + pad) as u64;
    let end = (at + len) as u64;
    &&& d.size == c.size
    &&& pad + len + rest == b.len
    &&& forall|k: u64| #[trigger]
        d.blocks.contains_key(k) <==> c.blocks.contains_key(k) || k == at || (rest > 0 && k == end)
    &&& pad > 0 ==> d.blocks[src] == Block {
        len: pad as u64,
        used: false,
        pre: b.pre,
        next: Some(at),
    }
    &&& d.blocks[at] == Block {
        len: len,
        used: true,
        pre: if pad == 0 {
            b.pre
        } else {
            Some(src)
        },
        next: if rest == 0 {
            b.next
        } else {
            Some(end)
        },
    }
    &&& rest > 0 ==> d.blocks[end] == Block {
        len: rest as u64,
        used: false,
        pre: Some(at),
        next: b.next,
    }
    &&& b.next matches Some(n) ==> d.blocks[n] == Block {
        len: c.blocks[n].len,
        used: c.blocks[n].used,
        pre: Some(if rest == 0 {
            at
        } else {
            end
        }),
        next: c.blocks[n].next,
    }
    &&& forall|k: u64|
        c.blocks.contains_key(k) && k != src && b.next != Some(k) ==> #[trigger] d.blocks[k]
            == c.blocks[k]
}

/// What carving writes has the shape that `carved_shape` describes.
proof fn lemma_carve_shape(c: ChunkView, src: u64, len: u64, alignment: u64)
    requires
        c.wf(),
        c.can_carve(src, len, alignment),
    ensures
        carved_shape(
            c,
            c.carve(src, len, alignment),
            src,
            padding(src, alignment),
            len,
            (c.blocks[src].len - padding(src, alignment) - len) as nat,
        ),
{
    lemma_interior_empty(c, src);
    assert(c.linked(src));
    if c.blocks[src].next is Some {
        assert(c.linked(c.blocks[src].next->0));
    }
}

/// A chunk of that shape is well formed.
proof fn lemma_carved_shape_wf(c: ChunkView, d: ChunkView, src: u64, pad: nat, len: u64, rest: nat)
    requires
        c.wf(),
        c.blocks.contains_key(src),
        !c.blocks[src].used,
        len > 0,
        carved_shape(c, d, src, pad, len, rest),
    ensures
        d.wf(),
{
    let b = c.blocks[src];
    let at = (src + pad) as u64;
    let end = (at + len) as u64;
    lemma_interior_empty(c, src);
    assert(c.linked(src));
    assert(d.blocks.dom() =~= c.blocks.dom().insert(at).insert(
        if rest > 0 {
            end
        } else {
            at
        },
    ));
    if b.next is Some {
        assert(c.linked(b.next->0));
    }
    if b.pre is Some {
        assert(c.linked(b.pre->0));
    }
    assert forall|o: u64| d.blocks.contains_key(o) implies #[trigger] d.linked(o) by {
        if o == at || o == src || (rest > 0 && o == end) {
        } else {
            assert(c.linked(o));
            if c.blocks[o].next is Some {
                assert(c.linked(c.blocks[o].next->0));
            }
            if c.blocks[o].pre is Some {
                assert(c.linked(c.blocks[o].pre->0));
            }
        }
    }
}

/// Carving keeps a chunk well formed and yields a used block of the
/// requested length at a multiple of the alignment, inside the block it was
/// taken from.
pub proof fn lemma_carve_wf(c: ChunkView, src: u64, len: u64, alignment: u64)
    requires
        c.wf(),
        c.can_carve(src, len, alignment),
    ensures
        c.carve(src, len, alignment).wf(),
        c.carve(src, len, alignment).has_used(ChunkView::carved_at(src, alignment)),
        c.carve(src, len, alignment).blocks[ChunkView::carved_at(src, alignment)].len == len,
        ChunkView::carved_at(src, alignment) % alignment == 0,
        src <= ChunkView::carved_at(src, alignment),
        ChunkView::carved_at(src, alignment) + len <= src + c.blocks[src].len,
{
    let pad = padding(src, alignment);
    let rest = (c.blocks[src].len - pad - len) as nat;
    lemma_padding(src, alignment);
    assert(c.linked(src));
    lemma_carve_shape(c, src, len, alignment);
    lemma_carved_shape_wf(c, c.carve(src, len, alignment), src, pad, len, rest);
}

/// Releasing a used block keeps a chunk well formed and leaves its bytes in
/// a free block.
pub proof fn lemma_release_wf(c: ChunkView, o: u64)
    requires
        c.wf(),
        c.has_used(o),
    ensures
        c.release(o).wf(),
        c.release(o).has_free(c.released_at(o), c.released_len(o) as u64),
        c.released_at(o) + c.released_len(o) <= c.size,
        c.released_at(o) <= o,
        o + c.blocks[o].len <= c.released_at(o) + c.released_len(o),
{
    let b = c.blocks[o];
    let d = c.release(o);
    let at = c.released_at(o);
    let next = d.blocks[at].next;
    assert(c.linked(o));
    if b.next is Some {
        assert(c.linked(b.next->0));
    }
    if b.pre is Some {
        assert(c.linked(b.pre->0));
    }
    if next is Some {
        assert(c.linked(next->0));
    }
    assert(c.linked(at));
    if c.blocks[at].pre is Some {
        assert(c.linked(c.blocks[at].pre->0));
    }
    assert forall|k: u64| d.blocks.contains_key(k) implies #[trigger] d.linked(k) by {
        assert(c.linked(k));
        if k != at && next != Some(k) {
            if c.blocks[k].next is Some {
                assert(c.linked(c.blocks[k].next->0));
            }
            if c.blocks[k].pre is Some {
                assert(c.linked(c.blocks[k].pre->0));
            }
        } else if next == Some(k) {
            if c.blocks[k].next is Some {
                assert(c.linked(c.blocks[k].next->0));
            }
        }
    }
}

/// Releasing the block that was just carved gives back the chunk as it was.
pub proof fn lemma_release_carve(c: ChunkView, src: u64, len: u64, alignment: u64)
    requires
        c.wf(),
        c.can_carve(src, len, alignment),
    ensures
        c.carve(src, len, alignment).release(ChunkView::carved_at(src, alignment)) == c,
{
    let b = c.blocks[src];
    let pad = padding(src, alignment);
    let rest = (b.len - pad - len) as nat;
    let at = ChunkView::carved_at(src, alignment);
    let d = c.carve(src, len, alignment);
    let e = d.release(at);
    lemma_padding(src, alignment);
    lemma_carve_shape(c, src, len, alignment);
    lemma_interior_empty(c, src);
    assert(c.linked(src));
    if b.next is Some {
        assert(c.linked(b.next->0));
    }
    if b.pre is Some {
        assert(c.linked(b.pre->0));
    }
    assert(d.merges_next(at) <==> rest > 0);
    assert(d.merges_pre(at) <==> pad > 0);
    assert(d.released_at(at) == src);
    assert(d.released_len(at) == b.len);
    assert(e.blocks =~= c.blocks);
}

/// The free blocks after carving: those from before but the one at `src`,
/// the padding in front of the used block, and what is left behind it.
pub proof fn lemma_carve_free(c: ChunkView, src: u64, len: u64, alignment: u64)
    requires
        c.wf(),
        c.can_carve(src, len, alignment),
    ensures
        forall|k: u64, l: u64| #[trigger]
            c.carve(src, len, alignment).has_free(k, l) <==> (c.has_free(k, l) && k != src) || (
            padding(src, alignment) > 0 && k == src && l == padding(src, alignment)) || (
            c.blocks[src].len - padding(src, alignment) - len > 0 && k == ChunkView::carved_at(
                src,
                alignment,
            ) + len && l == c.blocks[src].len - padding(src, alignment) - len),
{
    let d = c.carve(src, len, alignment);
    let pad = padding(src, alignment);
    let rest = (c.blocks[src].len - pad - len) as nat;
    let at = ChunkView::carved_at(src, alignment);
    lemma_padding(src, alignment);
    lemma_carve_shape(c, src, len, alignment);
    lemma_interior_empty(c, src);
    assert(c.linked(src));
    assert forall|k: u64, l: u64| #[trigger]
        d.has_free(k, l) <==> (c.has_free(k, l) && k != src) || (pad > 0 && k == src && l == pad)
            || (rest > 0 && k == at + len && l == rest) by {
        if c.blocks.contains_key(k) && k != src {
            if c.blocks[src].next == Some(k) {
            } else {
                assert(d.blocks[k] == c.blocks[k]);
            }
        }
    }
}

/// The free blocks after releasing: those from before but the neighbours
/// that were merged, and the block that holds the released bytes.
pub proof fn lemma_release_free(c: ChunkView, o: u64)
    requires
        c.wf(),
        c.has_used(o),
    ensures
        forall|k: u64, l: u64| #[trigger]
            c.release(o).has_free(k, l) <==> (c.has_free(k, l) && !(c.merges_next(o)
                && c.blocks[o].next == Some(k)) && !(c.merges_pre(o) && c.blocks[o].pre == Some(
                k,
            ))) || (k == c.released_at(o) && l == c.released_len(o)),
{
    let b = c.blocks[o];
    let d = c.release(o);
    let at = c.released_at(o);
    lemma_release_wf(c, o);
    assert(c.linked(o));
    if b.next is Some {
        assert(c.linked(b.next->0));
    }
    if b.pre is Some {
        assert(c.linked(b.pre->0));
    }
    assert forall|k: u64, l: u64| #[trigger]
        d.has_free(k, l) <==> (c.has_free(k, l) && !(c.merges_next(o) && b.next == Some(k)) && !(
        c.merges_pre(o) && b.pre == Some(k))) || (k == at && l == c.released_len(o)) by {}
}

/// A well-formed chunk with a single block holds it at offset 0, and it
/// spans the chunk.
pub proof fn lemma_single_block(c: ChunkView)
    requires
        c.wf(),
        c.blocks.len() == 1,
    ensures
        c.blocks.dom() =~= set![0u64],
        c.blocks[0].len == c.size,
{
    Set::lemma_is_singleton(c.blocks.dom());
    assert forall|k: u64| c.blocks.contains_key(k) implies k == 0 by {
        assert(c.blocks.dom().contains(k) && c.blocks.dom().contains(0));
    }
    assert(c.blocks.dom() =~= set![0u64]);
    assert(c.linked(0));
    if c.blocks[0].next is Some {
        assert(c.blocks.dom().contains(c.blocks[0].next->0));
    }
}

/// An entirely free chunk is a single free block that spans it.
pub proof fn lemma_entirely_free(c: ChunkView)
    requires
        c.wf(),
        c.entirely_free(),
    ensures
        c.blocks.len() == 1,
        c.has_free(0, c.size as u64),
{
    assert(c.blocks.dom() =~= Set::empty().insert(0u64));
    assert(c.linked(0));
    if c.blocks[0].next is Some {
        assert(c.blocks.dom().contains(c.blocks[0].next->0));
    }
}

/// The used blocks after carving: those from before, as long as they were,
/// and the one that was carved.
pub proof fn lemma_carve_used(c: ChunkView, src: u64, len: u64, alignment: u64)
    requires
        c.wf(),
        c.can_carve(src, len, alignment),
    ensures
        forall|k: u64| #[trigger]
            c.carve(src, len, alignment).has_used(k) <==> c.has_used(k) || k
                == ChunkView::carved_at(src, alignment),
        forall|k: u64|
            c.has_used(k) ==> (#[trigger] c.carve(src, len, alignment).blocks[k]).len
                == c.blocks[k].len,
{
    let d = c.carve(src, len, alignment);
    let at = ChunkView::carved_at(src, alignment);
    lemma_padding(src, alignment);
    lemma_carve_shape(c, src, len, alignment);
    lemma_interior_empty(c, src);
    assert(c.linked(src));
    assert forall|k: u64| #[trigger] d.has_used(k) <==> c.has_used(k) || k == at by {
        if c.blocks.contains_key(k) && k != src && c.blocks[src].next != Some(k) {
            assert(d.blocks[k] == c.blocks[k]);
        }
    }
    assert forall|k: u64| c.has_used(k) implies (#[trigger] d.blocks[k]).len
        == c.blocks[k].len by {
        if c.blocks[src].next != Some(k) {
            assert(d.blocks[k] == c.blocks[k]);
        }
    }
}

/// The used blocks after releasing: those from before but the one that was
/// released, as long as they were.
pub proof fn lemma_release_used(c: ChunkView, o: u64)
    requires
        c.wf(),
        c.has_used(o),
    ensures
        forall|k: u64| #[trigger] c.release(o).has_used(k) <==> c.has_used(k) && k != o,
        forall|k: u64|
            c.has_used(k) && k != o ==> (#[trigger] c.release(o).blocks[k]).len
                == c.blocks[k].len,
{
    let b = c.blocks[o];
    let d = c.release(o);
    lemma_release_wf(c, o);
    assert(c.linked(o));
    if b.next is Some {
        assert(c.linked(b.next->0));
    }
    if b.pre is Some {
        assert(c.linked(b.pre->0));
    }
    assert forall|k: u64| #[trigger] d.has_used(k) <==> c.has_used(k) && k != o by {}
    assert forall|k: u64| c.has_used(k) && k != o implies (#[trigger] d.blocks[k]).len
        == c.blocks[k].len by {}
}

} // verus!
