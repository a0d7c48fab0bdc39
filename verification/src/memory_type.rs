//! Choosing the kind of memory for a resource: each kind a device offers has
//! property flags and lies in a heap of some size; a resource says by a bit
//! mask which kinds it can live in.
use vstd::prelude::*;

verus! {

/// The number of kinds of memory that a bit mask of 32 bits can tell apart.
pub const MAX_MEMORY_TYPES: usize = 32;

/// One kind of memory of a device.
#[derive(Clone, Copy, Debug, PartialEq, Eq)]
pub struct MemoryTypeInfo {
    /// What the memory can do, one bit per property.
    pub property_flags: u32,
    /// The size of the heap that the memory is taken from.
    pub heap_size: u64,
}

/// Whether the kind of memory at `index` is allowed by `memory_type_bits`
/// and has every property in `flags`.
pub open spec fn compatible(
    memory_types: Seq<MemoryTypeInfo>,
    memory_type_bits: u32,
    flags: u32,
    index: int,
) -> bool {
    &&& 0 <= index < memory_types.len()
    &&& index < 32
    &&& (1u32 << (index as u32)) & memory_type_bits != 0
    &&& memory_types[index].property_flags & flags == flags
}

/// Whether the kind of memory at `index` is allowed by `memory_type_bits`
/// and has every property in `flags`.
pub fn is_compatible(
    memory_types: &[MemoryTypeInfo],
    memory_type_bits: u32,
    flags: u32,
    index: usize,
) -> (r: bool)
    requires
        index < memory_types@.len(),
        index < MAX_MEMORY_TYPES,
    ensures
        r == compatible(memory_types@, memory_type_bits, flags, index as int),
{
    let bit: u32 = 1u32 << (index as u32);
    bit & memory_type_bits != 0 && memory_types[index].property_flags & flags == flags
}

/// The first kind of memory that `memory_type_bits` allows and that has
/// every property in `flags`.
pub fn find_memory_type_index(
    memory_types: &[MemoryTypeInfo],
    memory_type_bits: u32,
    flags: u32,
) -> (r: Option<usize>)
    requires
        memory_types@.len() <= MAX_MEMORY_TYPES,
    ensures
        match r {
            Some(index) => {
                &&& compatible(memory_types@, memory_type_bits, flags, index as int)
                &&& forall|j: int|
                    0 <= j < index ==> !compatible(memory_types@, memory_type_bits, flags, j)
            },
            None => forall|j: int| !compatible(memory_types@, memory_type_bits, flags, j),
        },
{
    let mut index: usize = 0;
    while index < memory_types.len()
        invariant
            index <= memory_types@.len() <= MAX_MEMORY_TYPES,
            forall|j: int| 0 <= j < index ==> !compatible(memory_types@, memory_type_bits, flags, j),
        decreases memory_types@.len() - index,
    {
        if is_compatible(memory_types, memory_type_bits, flags, index) {
            return Some(index);
        }
        index = index + 1;
    }
    None
}

/// Among the kinds of memory that `memory_type_bits` allows and that have
/// every property in `property_flags`, the one in the largest heap: the
/// first of them, if several heaps are that large. A kind in an empty heap
/// is never chosen.
pub fn get_suitable_memory_type(
    memory_types: &[MemoryTypeInfo],
    memory_type_bits: u32,
    property_flags: u32,
) -> (r: Option<usize>)
    requires
        memory_types@.len() <= MAX_MEMORY_TYPES,
    ensures
        match r {
            Some(index) => {
                &&& compatible(memory_types@, memory_type_bits, property_flags, index as int)
                &&& memory_types@[index as int].heap_size > 0
                &&& forall|j: int|
                    compatible(memory_types@, memory_type_bits, property_flags, j)
                        ==> memory_types@[j].heap_size <= memory_types@[index as int].heap_size
                &&& forall|j: int|
                    0 <= j < index && compatible(memory_types@, memory_type_bits, property_flags, j)
                        ==> memory_types@[j].heap_size < memory_types@[index as int].heap_size
            },
            None => forall|j: int|
                compatible(memory_types@, memory_type_bits, property_flags, j)
                    ==> memory_types@[j].heap_size == 0,
        },
{
    let mut max_heap_size: u64 = 0;
    let mut result: Option<usize> = None;
    let mut index: usize = 0;
    while index < memory_types.len()
        invariant
            index <= memory_types@.len() <= MAX_MEMORY_TYPES,
            forall|j: int|
                0 <= j < index && compatible(memory_types@, memory_type_bits, property_flags, j)
                    ==> memory_types@[j].heap_size <= max_heap_size,
            match result {
                Some(best) => {
                    &&& best < index
                    &&& compatible(memory_types@, memory_type_bits, property_flags, best as int)
                    &&& memory_types@[best as int].heap_size == max_heap_size
                    &&& max_heap_size > 0
                    &&& forall|j: int|
                        0 <= j < best && compatible(
                            memory_types@,
                            memory_type_bits,
                            property_flags,
                            j,
                        ) ==> memory_types@[j].heap_size < max_heap_size
                },
                None => max_heap_size == 0,
            },
        decreases memory_types@.len() - index,
    {
        if is_compatible(memory_types, memory_type_bits, property_flags, index) {
            if memory_types[index].heap_size > max_heap_size {
                // find the largest heap
                max_heap_size = memory_types[index].heap_size;
                result = Some(index);
            }
        }
        index = index + 1;
    }
    result
}

/// Whether a resource gets memory of its own rather than a block of a
/// shared chunk: when the caller asks for it, or when the device prefers or
/// requires it for the resource (each told by a number that is not 0).
pub fn uses_dedicated_memory(
    dedicated: bool,
    prefers_dedicated_allocation: u32,
    requires_dedicated_allocation: u32,
) -> (r: bool)
    ensures
        r == (dedicated || prefers_dedicated_allocation != 0 || requires_dedicated_allocation
            != 0),
{
    dedicated || prefers_dedicated_allocation != 0 || requires_dedicated_allocation != 0
}

} // verus!
