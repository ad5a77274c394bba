//! An emulated memory management unit (MMU) for a user-space instruction-set
//! emulator.
//!
//! The [`Mmu`] owns a flat byte arena together with a parallel arena of
//! byte-granular permissions, tracks modified 1024-byte blocks so that a fork
//! can be restored from a donor in time proportional to what was touched, and
//! hosts a strict guard-page bump allocator that turns out-of-bounds accesses,
//! uses after free, double frees and reads of uninitialized memory into
//! errors.

use vstd::prelude::*;

pub mod bits;
pub mod display;
pub mod laws;
pub mod lebytes;
pub mod mmu;
pub mod types;

verus! {

pub use crate::lebytes::LeBytes;
pub use crate::mmu::Mmu;
pub use crate::mmu::MmuView;
pub use crate::types::DIRTY_BLOCK_SIZE;
pub use crate::types::Error;
pub use crate::types::PERM_EXEC;
pub use crate::types::PERM_RAW;
pub use crate::types::PERM_READ;
pub use crate::types::PERM_WRITE;
pub use crate::types::Perm;
pub use crate::types::VirtAddr;

} // verus!
