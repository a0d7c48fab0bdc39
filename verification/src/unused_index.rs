//! The list of free blocks: for each length, the free blocks of that length
//! as pairs of offset and chunk index.
use crate::model::ManagerView;
use rustc_hash::FxHashSet;
use std::collections::BTreeMap;
use vstd::prelude::*;

verus! {

/// What the list holds: each length that is listed, with its blocks.
pub open spec fn buckets(blocks: BTreeMap<u64, FxHashSet<(u64, usize)>>) -> Map<
    u64,
    Set<(u64, usize)>,
> {
    Map::new(|len: u64| blocks@.contains_key(len), |len: u64| blocks@[len]@)
}

/// `item` is listed under `len`.
pub open spec fn listed(ix: Map<u64, Set<(u64, usize)>>, len: u64, item: (u64, usize)) -> bool {
    ix.contains_key(len) && ix[len].contains(item)
}

/// The list with `item` under `len`.
pub open spec fn with_entry(ix: Map<u64, Set<(u64, usize)>>, len: u64, item: (u64, usize)) -> Map<
    u64,
    Set<(u64, usize)>,
> {
    if ix.contains_key(len) {
        ix.insert(len, ix[len].insert(item))
    } else {
        ix.insert(len, Set::empty().insert(item))
    }
}

/// Whether taking `item` out from under `len` leaves nothing under `len`.
pub open spec fn empties(ix: Map<u64, Set<(u64, usize)>>, len: u64, item: (u64, usize)) -> bool {
    ix.contains_key(len) && ix[len].remove(item).is_empty()
}

/// The list without `item` under `len`; a length with no block left is no
/// longer listed.
pub open spec fn without_entry(
    ix: Map<u64, Set<(u64, usize)>>,
    len: u64,
    item: (u64, usize),
) -> Map<u64, Set<(u64, usize)>> {
    if !ix.contains_key(len) {
        ix
    } else if empties(ix, len, item) {
        ix.remove(len)
    } else {
        ix.insert(len, ix[len].remove(item))
    }
}

/// No length is listed without a block.
pub open spec fn no_empty_bucket(ix: Map<u64, Set<(u64, usize)>>) -> bool {
    forall|len: u64| #[trigger] ix.contains_key(len) ==> !ix[len].is_empty()
}

/// The list holds exactly the free blocks of `v`, each under its length,
/// and no length without a block.
pub open spec fn index_matches(ix: Map<u64, Set<(u64, usize)>>, v: ManagerView) -> bool {
    &&& no_empty_bucket(ix)
    &&& forall|len: u64, item: (u64, usize)|
        #![trigger listed(ix, len, item)]
        #![trigger v.free_blocks(len).contains(item)]
        listed(ix, len, item) <==> v.free_blocks(len).contains(item)
}

/// What `with_entry` lists, and that it lists no length without a block.
pub proof fn lemma_with_entry(ix: Map<u64, Set<(u64, usize)>>, len: u64, item: (u64, usize))
    ensures
        forall|l: u64, i: (u64, usize)| #[trigger]
            listed(with_entry(ix, len, item), l, i) <==> listed(ix, l, i) || (l == len && i
                == item),
        no_empty_bucket(ix) ==> no_empty_bucket(with_entry(ix, len, item)),
{
    let jx = with_entry(ix, len, item);
    assert(jx[len].contains(item));
    assert forall|l: u64| no_empty_bucket(ix) && #[trigger] jx.contains_key(l) implies !jx[l].is_empty() by {
        if l != len {
            assert(ix.contains_key(l));
        }
    }
}

/// What `without_entry` lists, and that it lists no length without a block.
pub proof fn lemma_without_entry(ix: Map<u64, Set<(u64, usize)>>, len: u64, item: (u64, usize))
    ensures
        forall|l: u64, i: (u64, usize)| #[trigger]
            listed(without_entry(ix, len, item), l, i) <==> listed(ix, l, i) && !(l == len && i
                == item),
        no_empty_bucket(ix) ==> no_empty_bucket(without_entry(ix, len, item)),
{
    let jx = without_entry(ix, len, item);
    assert forall|l: u64, i: (u64, usize)| #[trigger]
        listed(jx, l, i) <==> listed(ix, l, i) && !(l == len && i == item) by {
        if l == len && ix.contains_key(len) && empties(ix, len, item) {
            if i != item {
                assert(ix[len].remove(item).contains(i) == ix[len].contains(i));
            }
        }
    }
    assert forall|l: u64| no_empty_bucket(ix) && #[trigger] jx.contains_key(l) implies !jx[l].is_empty() by {
        if l != len {
            assert(ix.contains_key(l));
        }
    }
}

} // verus!
