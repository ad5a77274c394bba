//! Tests of the library's stated properties on concrete values: the
//! checker after a permission change, the allocator's guard and RAW
//! behavior, fork independence, reset idempotence, dirty accounting and the
//! integer round trips.

use mmu::DIRTY_BLOCK_SIZE;
use mmu::Error;
use mmu::Mmu;
use mmu::PERM_EXEC;
use mmu::PERM_RAW;
use mmu::PERM_READ;
use mmu::PERM_WRITE;
use mmu::Perm;
use mmu::VirtAddr;

#[test]
fn check_succeeds_after_set_perms() {
    let mut mmu = Mmu::new(DIRTY_BLOCK_SIZE);
    for p in [
        Perm(PERM_READ),
        Perm(PERM_WRITE),
        Perm(PERM_EXEC),
        Perm(PERM_READ | PERM_WRITE | PERM_EXEC),
        Perm(PERM_WRITE | PERM_RAW),
    ] {
        mmu.set_perms(VirtAddr(16), 32, p).unwrap();
        mmu.check_perms(VirtAddr(16), 32, p).unwrap();
    }
}

#[test]
fn write_no_perms_after_new() {
    let mut mmu = Mmu::new(DIRTY_BLOCK_SIZE);
    match mmu.write(VirtAddr(0), &[1, 2, 3, 4]) {
        Err(Error::WriteFault { addr, size }) => {
            assert_eq!(addr, VirtAddr(0));
            assert_eq!(size, 4);
        }
        other => panic!("Wrong result {:?}", other),
    }
    mmu.set_perms(VirtAddr(0), 4, Perm(PERM_READ | PERM_WRITE))
        .unwrap();
    mmu.write(VirtAddr(0), &[1, 2, 3, 4]).unwrap();
    let mut got = [0u8; 4];
    mmu.read(VirtAddr(0), &mut got).unwrap();
    assert_eq!(&got, &[1, 2, 3, 4]);
}

#[test]
fn unk_fault_carries_permissions() {
    let mut mmu = Mmu::new(DIRTY_BLOCK_SIZE);
    mmu.set_perms(VirtAddr(0), 2, Perm(PERM_READ)).unwrap();
    match mmu.check_perms(VirtAddr(0), 2, Perm(0x40)) {
        Err(Error::UnkFault {
            addr,
            size,
            exp,
            cur,
        }) => {
            assert_eq!(addr, VirtAddr(0));
            assert_eq!(size, 2);
            assert_eq!(exp, Perm(0x40));
            assert_eq!(cur, Perm(PERM_READ));
        }
        other => panic!("Wrong result {:?}", other),
    }
}

#[test]
fn alloc_readable_writable_guarded() {
    let mut mmu = Mmu::new(1024 * DIRTY_BLOCK_SIZE);
    let p = mmu.malloc(0x20, false).unwrap();

    // The whole allocation is writable and readable.
    mmu.check_perms(p, 0x20, Perm(PERM_READ | PERM_WRITE))
        .unwrap();

    // The byte just past it is a guard: neither readable nor writable.
    let guard = VirtAddr(p.0 + 0x20);
    match mmu.read(guard, &mut [0u8; 1]) {
        Err(Error::ReadFault { .. }) => {}
        other => panic!("Wrong result {:?}", other),
    }
    match mmu.write(guard, &[0u8; 1]) {
        Err(Error::WriteFault { .. }) => {}
        other => panic!("Wrong result {:?}", other),
    }
}

#[test]
fn alloc_spacing_keeps_a_guard_window() {
    let mut mmu = Mmu::new(1024 * DIRTY_BLOCK_SIZE);
    mmu.set_brk(VirtAddr(0));
    let p1 = mmu.malloc(0x30, false).unwrap();
    let p2 = mmu.malloc(0x30, false).unwrap();
    assert!(p2.0 >= p1.0 + 0x1000);
    assert_eq!(p2.0 % 16, 0);
    mmu.free(p1).unwrap();
    mmu.free(p2).unwrap();
}

#[test]
fn raw_alloc_read_before_write_faults() {
    let mut mmu = Mmu::new(1024 * DIRTY_BLOCK_SIZE);
    let p = mmu.malloc(0x10, true).unwrap();
    match mmu.read(p, &mut [0u8; 1]) {
        Err(Error::UninitFault { .. }) => {}
        other => panic!("Wrong result {:?}", other),
    }
}

#[test]
fn raw_alloc_poke_does_not_disarm() {
    // A bypass write must not clear the RAW flag: only a checked write does.
    let mut mmu = Mmu::new(1024 * DIRTY_BLOCK_SIZE);
    let p = mmu.malloc(0x10, true).unwrap();
    mmu.poke(p, &[1, 2, 3, 4]).unwrap();
    match mmu.read(p, &mut [0u8; 4]) {
        Err(Error::UninitFault { .. }) => {}
        other => panic!("Wrong result {:?}", other),
    }
}

#[test]
fn freed_memory_is_inaccessible() {
    let mut mmu = Mmu::new(1024 * DIRTY_BLOCK_SIZE);
    let p = mmu.malloc(0x10, false).unwrap();
    mmu.write(p, &[7u8; 0x10]).unwrap();
    mmu.free(p).unwrap();

    match mmu.read(p, &mut [0u8; 0x10]) {
        Err(Error::ReadFault { .. }) => {}
        other => panic!("Wrong result {:?}", other),
    }
    match mmu.write(p, &[7u8; 0x10]) {
        Err(Error::WriteFault { .. }) => {}
        other => panic!("Wrong result {:?}", other),
    }
    match mmu.free(p) {
        Err(Error::InvalidFree { addr }) => assert_eq!(addr, p),
        other => panic!("Wrong result {:?}", other),
    }
}

#[test]
fn alloc_size_tracks_live_allocations() {
    let mut mmu = Mmu::new(1024 * DIRTY_BLOCK_SIZE);
    let p = mmu.malloc(0x28, false).unwrap();
    assert_eq!(mmu.alloc_size(p), Some(0x28));
    assert_eq!(mmu.alloc_size(VirtAddr(p.0 + 1)), None);
    mmu.free(p).unwrap();
    assert_eq!(mmu.alloc_size(p), None);
}

#[test]
fn fork_leaves_donor_untouched() {
    let mut mmu = Mmu::new(4 * DIRTY_BLOCK_SIZE);
    mmu.set_perms(VirtAddr(0), 8, Perm(PERM_READ | PERM_WRITE))
        .unwrap();
    mmu.write(VirtAddr(0), &[9, 9, 9, 9]).unwrap();

    let mut fork = mmu.fork();
    assert_eq!(fork.dirty_len(), 0);
    fork.write(VirtAddr(0), &[1, 2, 3, 4]).unwrap();
    fork.set_perms(VirtAddr(100), 4, Perm(PERM_WRITE)).unwrap();

    let mut got = [0u8; 4];
    mmu.peek(VirtAddr(0), &mut got).unwrap();
    assert_eq!(&got, &[9, 9, 9, 9]);
    assert_eq!(mmu.perms(VirtAddr(100), 4).unwrap(), &[Perm(0); 4]);
}

#[test]
fn reset_twice_is_a_no_op() {
    let mmu = Mmu::new(16 * DIRTY_BLOCK_SIZE);
    let mut fork = mmu.fork();

    fork.poke(VirtAddr(10), &[1, 2, 3]).unwrap();
    assert!(fork.dirty_len() > 0);

    fork.reset(&mmu);
    assert_eq!(fork.dirty_len(), 0);

    fork.reset(&mmu);
    assert_eq!(fork.dirty_len(), 0);

    let mut got = [9u8; 3];
    fork.peek(VirtAddr(10), &mut got).unwrap();
    assert_eq!(&got, &[0, 0, 0]);
}

#[test]
fn dirty_len_grows_by_fresh_blocks_only() {
    let mut mmu = Mmu::new(16 * DIRTY_BLOCK_SIZE);

    // A zero-length write dirties no blocks.
    mmu.poke(VirtAddr(5), &[]).unwrap();
    assert_eq!(mmu.dirty_len(), 0);

    mmu.poke(VirtAddr(0), &[1]).unwrap();
    assert_eq!(mmu.dirty_len(), 1);

    // Touching the same block again adds nothing.
    mmu.poke(VirtAddr(100), &[1, 2]).unwrap();
    assert_eq!(mmu.dirty_len(), 1);

    // A range ending exactly on a block boundary stays in one block.
    mmu.poke(VirtAddr(2 * DIRTY_BLOCK_SIZE - 4), &[1, 2, 3, 4])
        .unwrap();
    assert_eq!(mmu.dirty_len(), 2);
    assert_eq!(mmu.dirty_ptr(), &[0, 1]);

    // A straddling range dirties both blocks, in first-dirtied order.
    mmu.poke(VirtAddr(3 * DIRTY_BLOCK_SIZE - 2), &[1, 2, 3, 4])
        .unwrap();
    assert_eq!(mmu.dirty_ptr(), &[0, 1, 2, 3]);
}

#[test]
fn dirty_bitmap_mirrors_dirty_list() {
    let mut mmu = Mmu::new(4 * DIRTY_BLOCK_SIZE);
    mmu.poke(VirtAddr(DIRTY_BLOCK_SIZE), &[1]).unwrap();
    mmu.poke(VirtAddr(3 * DIRTY_BLOCK_SIZE), &[1]).unwrap();

    assert_eq!(mmu.dirty_ptr(), &[1, 3]);
    let bitmap = mmu.dirty_bitmap_ptr();
    assert_eq!(bitmap.len(), 1);
    assert_eq!(bitmap[0], (1u64 << 1) | (1u64 << 3));

    assert_eq!(mmu.memory_ptr().len(), 4 * DIRTY_BLOCK_SIZE);
    assert_eq!(mmu.perms_ptr().len(), 4 * DIRTY_BLOCK_SIZE);
}

#[test]
fn set_brk_moves_the_allocation_cursor() {
    let mut mmu = Mmu::new(1024 * DIRTY_BLOCK_SIZE);
    assert_eq!(mmu.brk(), VirtAddr(0));
    mmu.set_brk(VirtAddr(0x2000));
    assert_eq!(mmu.brk(), VirtAddr(0x2000));
    let p = mmu.malloc(8, false).unwrap();
    assert_eq!(p, VirtAddr(0x2000));
    assert!(mmu.brk().0 > 0x2000);
}

#[test]
fn signed_int_round_trips() {
    let mut mmu = Mmu::new(DIRTY_BLOCK_SIZE);
    mmu.set_perms(VirtAddr(0), 64, Perm(PERM_READ | PERM_WRITE))
        .unwrap();

    mmu.write_int::<i8>(VirtAddr(0), -5).unwrap();
    assert_eq!(mmu.read_int::<i8>(VirtAddr(0)).unwrap(), -5);
    assert_eq!(mmu.read_int::<u8>(VirtAddr(0)).unwrap(), 0xfb);

    mmu.write_int::<i16>(VirtAddr(8), -2).unwrap();
    assert_eq!(mmu.read_int::<i16>(VirtAddr(8)).unwrap(), -2);

    mmu.write_int::<i32>(VirtAddr(16), -123456).unwrap();
    assert_eq!(mmu.read_int::<i32>(VirtAddr(16)).unwrap(), -123456);

    mmu.write_int::<i64>(VirtAddr(24), i64::MIN).unwrap();
    assert_eq!(mmu.read_int::<i64>(VirtAddr(24)).unwrap(), i64::MIN);

    mmu.write_int::<i128>(VirtAddr(32), -1).unwrap();
    assert_eq!(mmu.read_int::<i128>(VirtAddr(32)).unwrap(), -1);
}

#[test]
fn int_writes_are_little_endian() {
    let mut mmu = Mmu::new(DIRTY_BLOCK_SIZE);
    mmu.set_perms(VirtAddr(0), 8, Perm(PERM_READ | PERM_WRITE))
        .unwrap();
    mmu.write_int::<u32>(VirtAddr(0), 0x11223344).unwrap();
    let mut got = [0u8; 4];
    mmu.read(VirtAddr(0), &mut got).unwrap();
    assert_eq!(&got, &[0x44, 0x33, 0x22, 0x11]);
}

#[test]
fn int_read_wider_than_write_zero_extends() {
    let mut mmu = Mmu::new(DIRTY_BLOCK_SIZE);
    mmu.set_perms(VirtAddr(0), 16, Perm(PERM_READ | PERM_WRITE))
        .unwrap();
    mmu.write_int::<u16>(VirtAddr(0), 0xbeef).unwrap();
    assert_eq!(mmu.read_int::<u64>(VirtAddr(0)).unwrap(), 0xbeef);
}

#[test]
fn perm_display_shows_rwx() {
    assert_eq!(Perm(PERM_READ | PERM_WRITE).display(), "RW-");
    assert_eq!(Perm(PERM_READ | PERM_WRITE | PERM_EXEC).display(), "RWX");
    assert_eq!(Perm(PERM_EXEC).display(), "--X");
    assert_eq!(Perm(0).display(), "---");
    // The RAW flag is not displayed.
    assert_eq!(Perm(PERM_WRITE | PERM_RAW).display(), "-W-");
}

#[test]
fn error_display_names_kind_and_range() {
    assert_eq!(
        Error::InvalidAddress {
            addr: VirtAddr(0x1f),
            size: 16
        }
        .display(),
        "invalid address: addr=0x1f size=16"
    );
    assert_eq!(
        Error::AddressIntegerOverflow {
            addr: VirtAddr(usize::MAX),
            size: 1
        }
        .display(),
        format!("integer overflow: addr={:#x} size=1", usize::MAX)
    );
    assert_eq!(
        Error::WriteFault {
            addr: VirtAddr(0),
            size: 4
        }
        .display(),
        "write fault: addr=0x0 size=4"
    );
    assert_eq!(
        Error::UninitFault {
            addr: VirtAddr(0x30),
            size: 6
        }
        .display(),
        "uninit fault: addr=0x30 size=6"
    );
    assert_eq!(
        Error::UnkFault {
            addr: VirtAddr(2),
            size: 2,
            exp: Perm(PERM_EXEC),
            cur: Perm(PERM_READ | PERM_WRITE),
        }
        .display(),
        "unknown fault: addr=0x2 size=2 exp=--X cur=RW-"
    );
    assert_eq!(
        Error::InvalidFree {
            addr: VirtAddr(0x1020)
        }
        .display(),
        "invalid free: addr=0x1020"
    );
    assert_eq!(VirtAddr(0xdead_beef).display(), "0xdeadbeef");
}

#[test]
fn reset_restores_permissions_too() {
    let mmu = Mmu::new(4 * DIRTY_BLOCK_SIZE);
    let mut fork = mmu.fork();
    fork.set_perms(VirtAddr(8), 4, Perm(PERM_READ | PERM_WRITE))
        .unwrap();
    assert_eq!(
        fork.perms(VirtAddr(8), 4).unwrap(),
        &[Perm(PERM_READ | PERM_WRITE); 4]
    );
    fork.reset(&mmu);
    assert_eq!(fork.perms(VirtAddr(8), 4).unwrap(), &[Perm(0); 4]);
}

#[test]
fn reset_restores_brk_and_allocations() {
    let mut mmu = Mmu::new(1024 * DIRTY_BLOCK_SIZE);
    let kept = mmu.malloc(0x10, false).unwrap();
    let mut fork = mmu.fork();

    let p = fork.malloc(0x10, false).unwrap();
    assert_eq!(fork.alloc_size(p), Some(0x10));

    fork.reset(&mmu);
    assert_eq!(fork.brk(), mmu.brk());
    assert_eq!(fork.alloc_size(p), None);
    assert_eq!(fork.alloc_size(kept), Some(0x10));
}
