//! A minimal cooperatively-switched process kernel core: a round-robin
//! scheduler over an intrusive process list, a hardware-style context
//! switch protocol, and a three-tier heap allocator (bump, first-fit
//! with coalescing, and size-class segregated free lists with fallback).
//!
//! The kernel's bookkeeping is modeled over plain address arithmetic:
//! stack regions and heap regions are ranges of addresses, and every
//! allocator decision is verified against that model. The privileged
//! register and memory traffic itself belongs to the hardware shell
//! around this crate.

pub mod allocator;
pub mod linked_list;
pub mod process;
pub mod scheduler;
