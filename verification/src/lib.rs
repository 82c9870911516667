//! Verified core of a small x86_64 kernel: the heap allocators' bookkeeping,
//! the heap's page layout and the interrupt numbering.

pub mod allocator;
pub mod interrupts;
