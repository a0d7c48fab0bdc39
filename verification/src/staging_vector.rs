//! Placement of short-lived buffers in mapped memory: each request gets the
//! bytes behind the next multiple of the alignment in the current region,
//! or a new region when they do not fit there.
use vstd::prelude::*;

verus! {

/// Where a request of a staging vector goes.
#[derive(Debug, PartialEq, Eq, Clone, Copy)]
pub enum StagingPlacement {
    /// At `offset` of the region with this index.
    At { memory: usize, offset: u64 },
    /// In a new region of `size` bytes, which has to be committed, mapped
    /// and handed to `add_memory`.
    Grow { size: u64 },
}

/// The first multiple of `alignment` behind `offset`.
pub open spec fn next_aligned(offset: u64, alignment: u64) -> int {
    offset + alignment - offset % alignment
}

/// The larger of `a` and `b`.
pub open spec fn larger(a: u64, b: u64) -> u64 {
    if a >= b {
        a
    } else {
        b
    }
}

/// The regions of a staging vector, by their sizes, and the place in them
/// where the next request is tried.
pub struct StagingVector {
    memory_sizes: Vec<u64>,
    current_device_memory: usize,
    current_offset: u64,
    alignment: u64,
}

impl StagingVector {
    /// The sizes of the regions, in the order in which they were added.
    pub closed spec fn memory_sizes(&self) -> Seq<u64> {
        self.memory_sizes@
    }

    /// The index of the region in which the next request is tried.
    pub closed spec fn current_memory(&self) -> int {
        self.current_device_memory as int
    }

    /// The offset behind which the next request is tried.
    pub closed spec fn current_offset(&self) -> u64 {
        self.current_offset
    }

    /// The alignment of every request.
    pub closed spec fn alignment(&self) -> u64 {
        self.alignment
    }

    /// The current region is one of the regions, and the alignment is not 0.
    pub closed spec fn wf(&self) -> bool {
        &&& self.current_device_memory < self.memory_sizes@.len()
        &&& self.alignment > 0
    }

    /// What `wf` says of the model.
    pub proof fn lemma_wf(&self)
        ensures
            self.wf() <==> 0 <= self.current_memory() < self.memory_sizes().len()
                && self.alignment() > 0,
    {
    }

    /// A staging vector with one region of `capacity` bytes.
    pub fn new(capacity: u64, alignment: u64) -> (r: Self)
        requires
            alignment > 0,
        ensures
            r.wf(),
            r.memory_sizes() == seq![capacity],
            r.current_memory() == 0,
            r.current_offset() == 0,
            r.alignment() == alignment,
    {
        let mut memory_sizes: Vec<u64> = Vec::new();
        memory_sizes.push(capacity);
        Self { memory_sizes, current_device_memory: 0, current_offset: 0, alignment }
    }

    /// Where `size` bytes go: behind the next multiple of the alignment in
    /// the current region if they end inside it, else in a new region as
    /// large as the current one, or as the request if that is more. The
    /// place where requests are tried moves only with `add_memory` and
    /// `clear`.
    pub fn allocate(&self, size: u64) -> (r: StagingPlacement)
        requires
            self.wf(),
        ensures
            r == (if next_aligned(self.current_offset(), self.alignment()) + size
                <= self.memory_sizes()[self.current_memory()] {
                StagingPlacement::At {
                    memory: self.current_memory() as usize,
                    offset: next_aligned(self.current_offset(), self.alignment()) as u64,
                }
            } else {
                StagingPlacement::Grow {
                    size: larger(self.memory_sizes()[self.current_memory()], size),
                }
            }),
    {
        let alignment = self.alignment;
        let memory_size = self.memory_sizes[self.current_device_memory];
        let skipped = alignment - self.current_offset % alignment;
        let fits = match self.current_offset.checked_add(skipped) {
            Some(offset) => match offset.checked_add(size) {
                Some(end) => end <= memory_size,
                None => false,
            },
            None => false,
        };
        if fits {
            StagingPlacement::At {
                memory: self.current_device_memory,
                offset: self.current_offset + skipped,
            }
        } else {
            StagingPlacement::Grow {
                size: if memory_size >= size {
                    memory_size
                } else {
                    size
                },
            }
        }
    }

    /// Takes in a new region of `size` bytes, which becomes the current one,
    /// and returns where the request that asked for it goes: to its start.
    pub fn add_memory(&mut self, size: u64) -> (r: StagingPlacement)
        requires
            old(self).wf(),
        ensures
            final(self).wf(),
            final(self).memory_sizes() == old(self).memory_sizes().push(size),
            final(self).current_memory() == old(self).memory_sizes().len(),
            final(self).current_offset() == 0,
            final(self).alignment() == old(self).alignment(),
            r == (StagingPlacement::At { memory: old(self).memory_sizes().len() as usize, offset: 0 }),
    {
        self.current_device_memory = self.memory_sizes.len();
        self.memory_sizes.push(size);
        self.current_offset = 0;
        StagingPlacement::At { memory: self.current_device_memory, offset: 0 }
    }

    /// Goes back to the start of the first region. The regions stay.
    pub fn clear(&mut self)
        requires
            old(self).wf(),
        ensures
            final(self).wf(),
            final(self).memory_sizes() == old(self).memory_sizes(),
            final(self).current_memory() == 0,
            final(self).current_offset() == 0,
            final(self).alignment() == old(self).alignment(),
    {
        self.current_device_memory = 0;
        self.current_offset = 0;
    }
}

} // verus!
