//! Sub-allocation of device memory.
//!
//! Memory is taken from a device in large chunks. A [`chunk_manager::ChunkManager`]
//! splits the chunks into blocks, hands out a shortest free block that can
//! hold a request at the requested alignment, merges free neighbours when a
//! block comes back, and gives up chunks in which nothing is in use. An
//! [`allocator::BlockBasedAllocator`] adds the policy by which new chunks are
//! asked for.
//!
//! The contracts speak of a model of the chunks ([`model`]); what holds of
//! every well-formed model is proved in [`laws`].
//!
//! Beside the allocator stand the choice of a kind of memory for a resource
//! ([`memory_type`]), the placement of short-lived buffers
//! ([`staging_vector`]) and the distribution of work items over worker
//! threads ([`parallel_group`]).
pub mod allocator;
pub mod bucket_order;
pub mod chunk;
pub mod chunk_manager;
pub mod fx_collections;
pub mod index_proofs;
pub mod laws;
pub mod memory_type;
pub mod model;
pub mod model_proofs;
pub mod parallel_group;
pub mod staging_vector;
pub mod unused_index;
