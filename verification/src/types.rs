//! Permission flags, virtual addresses and the memory error taxonomy.

use vstd::prelude::*;

verus! {

/// Executable memory. Aimed to be used with `Perm`.
pub const PERM_EXEC: u8 = 0x1;

/// Writable memory. Aimed to be used with `Perm`.
pub const PERM_WRITE: u8 = 0x2;

/// Readable memory. Aimed to be used with `Perm`.
pub const PERM_READ: u8 = 0x4;

/// Read-after-write memory. Aimed to be used with `Perm`.
///
/// This permission should be set when allocating writable memory. If a memory
/// position has this flag and is written, the READ permission will be
/// automatically assigned afterwards. This allows us to detect accesses to
/// uninitialized memory.
pub const PERM_RAW: u8 = 0x8;

/// Block size used for resetting and tracking memory which has been modified.
/// Memory is considered dirty after writing to it and after changing its
/// permissions.
///
/// The block size must be a power of two. This is a requirement imposed by the
/// JIT compiler.
pub const DIRTY_BLOCK_SIZE: usize = 1024;

/// Memory permissions: a bitset over the `PERM_*` flags. Bits outside the
/// four defined flags are permitted and preserved; operations only test the
/// defined bits.
#[derive(Debug, Clone, Copy, PartialEq, Eq, Structural)]
pub struct Perm(pub u8);

impl Perm {
    /// True when `flag` (one of the `PERM_*` constants) is present.
    pub open spec fn has(self, flag: u8) -> bool {
        self.0 & flag != 0
    }

    /// True when every flag of `expected` is present.
    pub open spec fn grants(self, expected: Perm) -> bool {
        self.0 & expected.0 == expected.0
    }

    /// The permission byte after a checked write that expected `expected`:
    /// when writing was expected and the byte was marked read-after-write,
    /// the RAW flag is traded for READ; otherwise the byte is unchanged.
    /// This is the sole mechanism by which RAW is ever cleared.
    pub open spec fn promote(self, expected: Perm) -> Perm {
        if expected.has(PERM_WRITE) && self.has(PERM_RAW) {
            Perm((self.0 | PERM_READ) & !PERM_RAW)
        } else {
            self
        }
    }
}

/// Virtual address: an index into the linear arena.
#[derive(Debug, Clone, Copy, PartialEq, Eq, PartialOrd, Ord, Hash, Structural)]
pub struct VirtAddr(pub usize);

/// Memory error. Errors carry the address and size of the whole access that
/// failed, not the offending byte.
#[derive(Debug)]
pub enum Error {
    /// Memory address is out of range.
    InvalidAddress { addr: VirtAddr, size: usize },

    /// Integer overflow when computing address.
    AddressIntegerOverflow { addr: VirtAddr, size: usize },

    /// Read fault trying to read non readable memory.
    ReadFault { addr: VirtAddr, size: usize },

    /// Write fault trying to write non writable memory.
    WriteFault { addr: VirtAddr, size: usize },

    /// Exec fault trying to execute non executable memory.
    ExecFault { addr: VirtAddr, size: usize },

    /// Fault due to reading uninitialized memory.
    UninitFault { addr: VirtAddr, size: usize },

    /// Unknown memory access error.
    UnkFault { addr: VirtAddr, size: usize, exp: Perm, cur: Perm },

    /// Invalid free due to double free or heap corruption.
    InvalidFree { addr: VirtAddr },
}

} // verus!
