//! Fixed-capacity data structures and a slab-style pool allocator for
//! kernel-object management without a general-purpose heap.
//!
//! Three concrete containers (a LIFO stack, a FIFO ring queue and a binary
//! max-heap priority queue) implement a small core interface and inherit a
//! richer safe facade from it.  A pool allocator built on the ring queue
//! hands out and reclaims statically pooled objects through guards with
//! double-free protection.

pub mod allocator;
pub mod container;
pub mod context;
pub mod flags;
pub mod priority;
pub mod prio_queue;
pub mod process;
pub mod queue;
pub mod stack;
