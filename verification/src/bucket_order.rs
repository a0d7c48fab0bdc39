//! The lengths under which free blocks are listed, in ascending order.
use rustc_hash::FxHashSet;
use std::collections::BTreeMap;
use vstd::prelude::*;
use vstd::std_specs::btree::axiom_increasing_seq_meaning;
use vstd::std_specs::cmp::OrdSpec;
use vstd::std_specs::iter::IteratorSpec;

verus! {

/// The listed lengths, each once, shortest first.
pub fn bucket_lengths(blocks: &BTreeMap<u64, FxHashSet<(u64, usize)>>) -> (lengths: Vec<u64>)
    ensures
        lengths@.to_set() == blocks@.dom(),
        forall|i: int, j: int| 0 <= i < j < lengths@.len() ==> lengths@[i] < lengths@[j],
{
    let mut lengths: Vec<u64> = Vec::new();
    for len in it: blocks.keys()
        invariant
            lengths@.len() == it.index(),
            forall|i: int| 0 <= i < lengths@.len() ==> lengths@[i] == *it.seq()[i],
            it.seq() == blocks.keys().remaining(),
    {
        lengths.push(*len);
    }
    proof {
        let keys = blocks.keys().remaining();
        assert(lengths@ =~= keys.unref());
        axiom_increasing_seq_meaning::<&u64>(keys);
        assert forall|i: int, j: int| 0 <= i < j < lengths@.len() implies lengths@[i]
            < lengths@[j] by {
            assert(OrdSpec::cmp_spec(&keys[i], &keys[j]) is Less);
        }
    }
    lengths
}

} // verus!
