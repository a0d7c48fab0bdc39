//! Round-robin distribution of items over one group per worker thread.
use vstd::prelude::*;

verus! {

/// Calls `rayon::current_num_threads`. The count depends on the thread pool
/// of the calling thread, so nothing is said about which number comes back
/// beyond what holds of every pool: a registry is never built with zero
/// threads.
#[verifier::external_body]
fn worker_thread_count() -> (n: usize)
    ensures
        n >= 1,
{
    rayon::current_num_threads()
}

/// Items spread over a fixed number of groups, filled in turn.
pub struct ParallelGroup<T> {
    groups: Vec<Vec<T>>,
    cursor: usize,
}

impl<T> ParallelGroup<T> {
    /// The groups, in order, each with its items in insertion order.
    pub closed spec fn groups(&self) -> Seq<Seq<T>> {
        Seq::new(self.groups@.len(), |i: int| self.groups@[i]@)
    }

    /// The group that receives the next pushed item.
    pub closed spec fn cursor(&self) -> int {
        self.cursor as int
    }

    /// There is at least one group and the cursor points at one of them.
    pub closed spec fn wf(&self) -> bool {
        self.cursor < self.groups@.len()
    }

    /// `wf` in terms of the public model.
    pub proof fn lemma_wf(&self)
        ensures
            self.wf() <==> 0 <= self.cursor() < self.groups().len(),
    {
    }

    /// An empty collection with `count` groups.
    pub fn with_groups(count: usize) -> (r: Self)
        requires
            count >= 1,
        ensures
            r.wf(),
            r.cursor() == 0,
            r.groups().len() == count,
            forall|i: int| 0 <= i < count ==> (#[trigger] r.groups()[i]).len() == 0,
    {
        let mut groups: Vec<Vec<T>> = Vec::new();
        let mut i: usize = 0;
        while i < count
            invariant
                i <= count,
                groups@.len() == i,
                forall|j: int| 0 <= j < i ==> (#[trigger] groups@[j])@.len() == 0,
            decreases count - i,
        {
            groups.push(Vec::new());
            i = i + 1;
        }
        ParallelGroup { groups, cursor: 0 }
    }

    /// An empty collection with one group per thread of the current pool.
    pub fn new() -> (r: Self)
        ensures
            r.wf(),
            r.cursor() == 0,
            r.groups().len() >= 1,
            forall|i: int| 0 <= i < r.groups().len() ==> (#[trigger] r.groups()[i]).len() == 0,
    {
        let count = worker_thread_count();
        Self::with_groups(count)
    }

    /// Appends `t` to the group under the cursor and moves the cursor to the
    /// next group, wrapping around after the last.
    pub fn push(&mut self, t: T)
        requires
            old(self).wf(),
        ensures
            final(self).wf(),
            final(self).groups() == old(self).groups().update(
                old(self).cursor(),
                old(self).groups()[old(self).cursor()].push(t),
            ),
            final(self).cursor() == (old(self).cursor() + 1) % (old(self).groups().len() as int),
    {
        let cursor = self.cursor;
        let count = self.groups.len();
        self.groups[cursor].push(t);
        self.cursor = (cursor + 1) % count;
        assert(final(self).groups() =~= old(self).groups().update(
            old(self).cursor(),
            old(self).groups()[old(self).cursor()].push(t),
        ));
    }

    /// Empties every group. The number of groups and the cursor stay.
    pub fn clear(&mut self)
        requires
            old(self).wf(),
        ensures
            final(self).wf(),
            final(self).cursor() == old(self).cursor(),
            final(self).groups().len() == old(self).groups().len(),
            forall|i: int| 0 <= i < final(self).groups().len() ==> (#[trigger] final(self).groups()[i]).len() == 0,
    {
        let count = self.groups.len();
        let mut i: usize = 0;
        while i < count
            invariant
                i <= count,
                count == self.groups@.len(),
                self.cursor == old(self).cursor,
                forall|j: int| 0 <= j < i ==> (#[trigger] self.groups@[j])@.len() == 0,
            decreases count - i,
        {
            self.groups[i].clear();
            i = i + 1;
        }
    }

    /// The items of group `thread_index`, if there is such a group.
    pub fn get_group_by_thread(&self, thread_index: usize) -> (r: Option<&[T]>)
        ensures
            r is Some <==> thread_index < self.groups().len(),
            r matches Some(s) ==> s@ == self.groups()[thread_index as int],
    {
        if thread_index < self.groups.len() {
            Some(self.groups[thread_index].as_slice())
        } else {
            None
        }
    }
}

} // verus!
