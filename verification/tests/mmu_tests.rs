//! Behavioral tests of the MMU: construction, permission checks, access
//! primitives, RAW promotion, dirty tracking with reset, the integer
//! helpers and the guard-page allocator.

use mmu::DIRTY_BLOCK_SIZE;
use mmu::Error;
use mmu::Mmu;
use mmu::PERM_EXEC;
use mmu::PERM_RAW;
use mmu::PERM_READ;
use mmu::PERM_WRITE;
use mmu::Perm;
use mmu::VirtAddr;

/// Checks the observable state of a freshly created MMU of `size` bytes:
/// zero-filled memory, no permissions, clean dirty state, zero break and no
/// allocations.
fn assert_fresh(mmu: &Mmu, size: usize) {
    assert_eq!(mmu.size(), size);
    assert_eq!(mmu.memory_len(), size);
    assert_eq!(mmu.dirty_len(), 0);
    assert_eq!(mmu.brk(), VirtAddr(0));
    assert_eq!(mmu.alloc_size(VirtAddr(0)), None);

    let mut got = vec![1u8; size];
    mmu.peek(VirtAddr(0), &mut got).unwrap();
    assert!(got.iter().all(|&b| b == 0));

    let perms = mmu.perms(VirtAddr(0), size).unwrap();
    assert!(perms.iter().all(|&p| p == Perm(0)));
}

#[test]
fn mmu_new_edge_size_equal() {
    let mmu = Mmu::new(2 * DIRTY_BLOCK_SIZE);
    assert_fresh(&mmu, 2 * DIRTY_BLOCK_SIZE);
    assert_eq!(mmu.dirty_capacity(), 2);
}

#[test]
fn mmu_new_edge_size_below() {
    let mmu = Mmu::new(2 * DIRTY_BLOCK_SIZE - 1);
    assert_fresh(&mmu, 2 * DIRTY_BLOCK_SIZE - 1);
    assert_eq!(mmu.dirty_capacity(), 2);
}

#[test]
fn mmu_new_edge_size_above() {
    let mmu = Mmu::new(2 * DIRTY_BLOCK_SIZE + 1);
    assert_fresh(&mmu, 2 * DIRTY_BLOCK_SIZE + 1);
    assert_eq!(mmu.dirty_capacity(), 3);
}

#[test]
fn mmu_check_perms() {
    let mut mmu = Mmu::new(DIRTY_BLOCK_SIZE);
    mmu.set_perms(VirtAddr(0), 8, Perm(PERM_WRITE | PERM_READ))
        .unwrap();
    mmu.check_perms(VirtAddr(0), 8, Perm(PERM_WRITE | PERM_READ))
        .unwrap();
}

#[test]
#[should_panic]
fn mmu_check_perms_subset() {
    let mut mmu = Mmu::new(DIRTY_BLOCK_SIZE);
    mmu.set_perms(VirtAddr(0), 8, Perm(PERM_WRITE)).unwrap();

    mmu.check_perms(VirtAddr(0), 8, Perm(PERM_WRITE | PERM_READ))
        .unwrap();
}

#[test]
fn mmu_check_perms_oob() {
    let mut mmu = Mmu::new(DIRTY_BLOCK_SIZE);
    match mmu.set_perms(VirtAddr(DIRTY_BLOCK_SIZE + 5), 16, Perm(PERM_WRITE)) {
        Err(Error::InvalidAddress { .. }) => return,
        Err(err) => panic!("Wrong error {:?}", err),
        _ => panic!("The function didn't return an error"),
    }
}

#[test]
fn mmu_check_perms_integer_overflow() {
    let mut mmu = Mmu::new(DIRTY_BLOCK_SIZE);
    match mmu.set_perms(VirtAddr(usize::MAX), 1, Perm(PERM_WRITE)) {
        Err(Error::AddressIntegerOverflow { .. }) => return,
        Err(err) => panic!("Wrong error {:?}", err),
        _ => panic!("The function didn't return an error"),
    }
}

#[test]
fn mmu_poke_peek() {
    let mut mmu = Mmu::new(DIRTY_BLOCK_SIZE);
    mmu.poke(VirtAddr(0), &[1, 2, 3, 4]).unwrap();

    let mut got = [0u8; 4];
    mmu.peek(VirtAddr(0), &mut got).unwrap();

    assert_eq!(&got, &[1, 2, 3, 4]);
}

#[test]
fn mmu_write_read() {
    let mut mmu = Mmu::new(DIRTY_BLOCK_SIZE);

    mmu.set_perms(VirtAddr(0), 4, Perm(PERM_READ | PERM_WRITE))
        .unwrap();
    mmu.write(VirtAddr(0), &[1, 2, 3, 4]).unwrap();

    let mut got = [0u8; 4];
    mmu.read(VirtAddr(0), &mut got).unwrap();

    assert_eq!(&got, &[1, 2, 3, 4]);
}

#[test]
fn mmu_write_fault() {
    let mut mmu = Mmu::new(DIRTY_BLOCK_SIZE);
    match mmu.write(VirtAddr(0), &[1, 2, 3, 4]) {
        Err(Error::WriteFault { .. }) => return,
        Err(err) => panic!("Wrong error {:?}", err),
        _ => panic!("The function didn't return an error"),
    }
}

#[test]
fn mmu_read_fault() {
    let mmu = Mmu::new(DIRTY_BLOCK_SIZE);

    let mut tmp = [0u8; 2];
    match mmu.read(VirtAddr(0), &mut tmp) {
        Err(Error::ReadFault { .. }) => return,
        Err(err) => panic!("Wrong error {:?}", err),
        _ => panic!("The function didn't return an error"),
    }
}

#[test]
fn mmu_exec_exec_fault() {
    let mmu = Mmu::new(DIRTY_BLOCK_SIZE);

    let mut tmp = [0u8; 2];
    match mmu.read_with_perms(VirtAddr(0), &mut tmp, Perm(PERM_EXEC)) {
        Err(Error::ExecFault { .. }) => return,
        Err(err) => panic!("Wrong error {:?}", err),
        _ => panic!("The function didn't return an error"),
    }
}

#[test]
fn mmu_exec_unk_fault() {
    let mmu = Mmu::new(DIRTY_BLOCK_SIZE);

    let mut tmp = [0u8; 2];
    match mmu.read_with_perms(VirtAddr(0), &mut tmp, Perm(1 << 7)) {
        Err(Error::UnkFault { .. }) => return,
        Err(err) => panic!("Wrong error {:?}", err),
        _ => panic!("The function didn't return an error"),
    }
}

#[test]
fn mmu_raw_after_write() {
    let mut mmu = Mmu::new(DIRTY_BLOCK_SIZE);
    mmu.set_perms(VirtAddr(0), 3, Perm(PERM_WRITE | PERM_RAW))
        .unwrap();
    mmu.write(VirtAddr(0), &[1, 2]).unwrap();

    let mut got = [0u8; 4];
    mmu.peek(VirtAddr(0), &mut got).unwrap();
    assert_eq!(&got, &[1, 2, 0, 0]);
    assert_eq!(
        mmu.perms(VirtAddr(0), 4).unwrap(),
        &[
            Perm(PERM_WRITE | PERM_READ),
            Perm(PERM_WRITE | PERM_READ),
            Perm(PERM_WRITE | PERM_RAW),
            Perm(0)
        ]
    );
}

#[test]
fn mmu_raw_ok() {
    let mut mmu = Mmu::new(DIRTY_BLOCK_SIZE);
    mmu.set_perms(VirtAddr(0), 2, Perm(PERM_READ | PERM_WRITE))
        .unwrap();
    mmu.set_perms(VirtAddr(2), 2, Perm(PERM_WRITE | PERM_RAW))
        .unwrap();
    mmu.write(VirtAddr(0), &[1, 2, 3, 4]).unwrap();

    let mut got = [0u8; 4];
    mmu.read(VirtAddr(0), &mut got).unwrap();

    assert_eq!(&got, &[1, 2, 3, 4]);
}

#[test]
fn mmu_raw_uninit() {
    let mut mmu = Mmu::new(DIRTY_BLOCK_SIZE);
    mmu.set_perms(VirtAddr(0), 2, Perm(PERM_READ)).unwrap();
    mmu.set_perms(VirtAddr(2), 2, Perm(PERM_WRITE | PERM_RAW))
        .unwrap();

    let mut tmp = [0u8; 2];
    match mmu.read(VirtAddr(1), &mut tmp) {
        Err(Error::UninitFault { .. }) => return,
        Err(err) => panic!("Wrong error {:?}", err),
        _ => panic!("The function didn't return an error"),
    }
}

#[test]
fn mmu_raw_read_fault() {
    let mut mmu = Mmu::new(DIRTY_BLOCK_SIZE);
    mmu.set_perms(VirtAddr(0), 2, Perm(PERM_WRITE)).unwrap();
    mmu.set_perms(VirtAddr(2), 2, Perm(PERM_WRITE | PERM_RAW))
        .unwrap();

    let mut tmp = [0u8; 2];
    match mmu.read(VirtAddr(1), &mut tmp) {
        Err(Error::ReadFault { .. }) => return,
        Err(err) => panic!("Wrong error {:?}", err),
        _ => panic!("The function didn't return an error"),
    }
}

#[test]
fn mmu_reset() {
    let mmu = Mmu::new(1024 * DIRTY_BLOCK_SIZE);
    let mut mmu_fork = mmu.fork();

    mmu_fork
        .set_perms(VirtAddr(DIRTY_BLOCK_SIZE + 4), 4, Perm(PERM_WRITE))
        .unwrap();
    mmu_fork
        .write(VirtAddr(DIRTY_BLOCK_SIZE + 4), &[1, 2, 3, 4])
        .unwrap();

    let mut got = [0u8; 4];

    mmu_fork
        .peek(VirtAddr(DIRTY_BLOCK_SIZE + 4), &mut got)
        .unwrap();
    assert_eq!(&got, &[1, 2, 3, 4]);

    mmu_fork.reset(&mmu);

    mmu_fork
        .peek(VirtAddr(DIRTY_BLOCK_SIZE + 4), &mut got)
        .unwrap();
    assert_eq!(&got, &[0, 0, 0, 0]);
}

#[test]
fn mmu_reset_two_blocks() {
    let mmu = Mmu::new(1024 * DIRTY_BLOCK_SIZE);
    let mut mmu_fork = mmu.fork();

    mmu_fork
        .set_perms(VirtAddr(DIRTY_BLOCK_SIZE - 2), 4, Perm(PERM_WRITE))
        .unwrap();
    mmu_fork
        .write(VirtAddr(DIRTY_BLOCK_SIZE - 2), &[1, 2, 3, 4])
        .unwrap();

    let mut got = [0u8; 4];

    mmu_fork
        .peek(VirtAddr(DIRTY_BLOCK_SIZE - 2), &mut got)
        .unwrap();
    assert_eq!(&got, &[1, 2, 3, 4]);

    mmu_fork.reset(&mmu);

    mmu_fork
        .peek(VirtAddr(DIRTY_BLOCK_SIZE - 2), &mut got)
        .unwrap();
    assert_eq!(&got, &[0, 0, 0, 0]);
}

#[test]
fn mmu_reset_one_of_two_blocks() {
    let mut mmu = Mmu::new(1024 * DIRTY_BLOCK_SIZE);

    mmu.poke(VirtAddr(DIRTY_BLOCK_SIZE - 2), &[1, 2]).unwrap();

    let mut mmu_fork = mmu.fork();

    mmu_fork.poke(VirtAddr(DIRTY_BLOCK_SIZE), &[3, 4]).unwrap();

    let mut got = [0u8; 4];
    mmu_fork
        .peek(VirtAddr(DIRTY_BLOCK_SIZE - 2), &mut got)
        .unwrap();
    assert_eq!(&got, &[1, 2, 3, 4]);

    mmu_fork.reset(&mmu);

    mmu_fork
        .peek(VirtAddr(DIRTY_BLOCK_SIZE - 2), &mut got)
        .unwrap();
    assert_eq!(&got, &[1, 2, 0, 0]);
}

#[test]
fn mmu_reset_all() {
    let mmu = Mmu::new(1024 * DIRTY_BLOCK_SIZE);
    let mut mmu_fork = mmu.fork();

    mmu_fork
        .set_perms(
            VirtAddr(0),
            1024 * DIRTY_BLOCK_SIZE,
            Perm(PERM_WRITE | PERM_RAW),
        )
        .unwrap();
    mmu_fork
        .write(VirtAddr(DIRTY_BLOCK_SIZE + 4), &[1, 2, 3, 4])
        .unwrap();

    let mut got = [0u8; 4];

    mmu_fork
        .read(VirtAddr(DIRTY_BLOCK_SIZE + 4), &mut got)
        .unwrap();
    assert_eq!(&got, &[1, 2, 3, 4]);

    mmu_fork.reset(&mmu);

    mmu_fork.peek(VirtAddr(4), &mut got).unwrap();
    assert_eq!(&got, &[0, 0, 0, 0]);
}

#[test]
fn mmu_write_read_int() {
    let mut mmu_init = Mmu::new(DIRTY_BLOCK_SIZE);

    mmu_init
        .set_perms(VirtAddr(0), DIRTY_BLOCK_SIZE, Perm(PERM_READ | PERM_WRITE))
        .unwrap();

    let mut mmu = mmu_init.fork();

    const VAL_U8: u8 = 0x11;
    const VAL_U16: u16 = 0x1122;
    const VAL_U32: u32 = 0x11223344;
    const VAL_U64: u64 = 0x1122334455667788;
    const VAL_U128: u128 = 0x11223344556677881122334455667788;

    // u8
    mmu.write_int::<u8>(VirtAddr(0), VAL_U8).unwrap();
    let got = mmu.peek_int::<u128>(VirtAddr(0)).unwrap();
    assert_eq!(got, VAL_U8 as u128);

    // u16
    mmu.reset(&mmu_init);
    mmu.write_int::<u16>(VirtAddr(0), VAL_U16).unwrap();
    let got = mmu.peek_int::<u128>(VirtAddr(0)).unwrap();
    assert_eq!(got, VAL_U16 as u128);

    // u32
    mmu.reset(&mmu_init);
    mmu.write_int::<u32>(VirtAddr(0), VAL_U32).unwrap();
    let got = mmu.peek_int::<u128>(VirtAddr(0)).unwrap();
    assert_eq!(got, VAL_U32 as u128);

    // u64
    mmu.reset(&mmu_init);
    mmu.write_int::<u64>(VirtAddr(0), VAL_U64).unwrap();
    let got = mmu.peek_int::<u128>(VirtAddr(0)).unwrap();
    assert_eq!(got, VAL_U64 as u128);

    // u128
    mmu.reset(&mmu_init);
    mmu.write_int::<u128>(VirtAddr(0), VAL_U128).unwrap();
    let got = mmu.peek_int::<u128>(VirtAddr(0)).unwrap();
    assert_eq!(got, VAL_U128 as u128);
}

#[test]
fn mmu_poke_peek_int() {
    let mut mmu_init = Mmu::new(DIRTY_BLOCK_SIZE);

    mmu_init
        .set_perms(VirtAddr(0), DIRTY_BLOCK_SIZE, Perm(PERM_READ | PERM_WRITE))
        .unwrap();

    let mut mmu = mmu_init.fork();

    const VAL_U8: u8 = 0x11;
    const VAL_U16: u16 = 0x1122;
    const VAL_U32: u32 = 0x11223344;
    const VAL_U64: u64 = 0x1122334455667788;
    const VAL_U128: u128 = 0x11223344556677881122334455667788;

    // u8
    mmu.poke_int::<u8>(VirtAddr(0), VAL_U8).unwrap();
    let got = mmu.peek_int::<u128>(VirtAddr(0)).unwrap();
    assert_eq!(got, VAL_U8 as u128);

    // u16
    mmu.reset(&mmu_init);
    mmu.poke_int::<u16>(VirtAddr(0), VAL_U16).unwrap();
    let got = mmu.peek_int::<u128>(VirtAddr(0)).unwrap();
    assert_eq!(got, VAL_U16 as u128);

    // u32
    mmu.reset(&mmu_init);
    mmu.poke_int::<u32>(VirtAddr(0), VAL_U32).unwrap();
    let got = mmu.peek_int::<u128>(VirtAddr(0)).unwrap();
    assert_eq!(got, VAL_U32 as u128);

    // u64
    mmu.reset(&mmu_init);
    mmu.poke_int::<u64>(VirtAddr(0), VAL_U64).unwrap();
    let got = mmu.peek_int::<u128>(VirtAddr(0)).unwrap();
    assert_eq!(got, VAL_U64 as u128);

    // u128
    mmu.reset(&mmu_init);
    mmu.poke_int::<u128>(VirtAddr(0), VAL_U128).unwrap();
    let got = mmu.peek_int::<u128>(VirtAddr(0)).unwrap();
    assert_eq!(got, VAL_U128 as u128);
}

#[test]
fn mmu_malloc_free() {
    let mut mmu = Mmu::new(1024 * DIRTY_BLOCK_SIZE);
    mmu.set_brk(VirtAddr(0));

    let ptr1 = mmu.malloc(0x30, false).unwrap();
    mmu.write(ptr1, &[0x41; 0x30]).unwrap();

    let ptr2 = mmu.malloc(0x30, false).unwrap();
    mmu.write(ptr2, &[0x41; 0x30]).unwrap();

    mmu.free(ptr1).unwrap();
    mmu.free(ptr2).unwrap();
}

#[test]
fn mmu_malloc_invalid_size() {
    let mut mmu = Mmu::new(DIRTY_BLOCK_SIZE);
    mmu.set_brk(VirtAddr(0));

    match mmu.malloc(0x30, false) {
        Err(Error::InvalidAddress { .. }) => return,
        Err(err) => panic!("Wrong error {:?}", err),
        _ => panic!("The function didn't return an error"),
    }
}

#[test]
fn mmu_malloc_oob() {
    let mut mmu = Mmu::new(1024 * DIRTY_BLOCK_SIZE);
    mmu.set_brk(VirtAddr(0));
    let ptr = mmu.malloc(0x30, false).unwrap();
    match mmu.write(ptr, &[0x41; 0x31]) {
        Err(Error::WriteFault { .. }) => return,
        Err(err) => panic!("Wrong error {:?}", err),
        _ => panic!("The function didn't return an error"),
    }
}

#[test]
fn mmu_malloc_invalid_free() {
    let mut mmu = Mmu::new(1024 * DIRTY_BLOCK_SIZE);
    mmu.set_brk(VirtAddr(0));
    let ptr = mmu.malloc(0x30, false).unwrap();
    match mmu.free(VirtAddr(ptr.0 + 1)) {
        Err(Error::InvalidFree { .. }) => return,
        Err(err) => panic!("Wrong error {:?}", err),
        _ => panic!("The function didn't return an error"),
    }
}

#[test]
fn mmu_malloc_double_free() {
    let mut mmu = Mmu::new(1024 * DIRTY_BLOCK_SIZE);
    mmu.set_brk(VirtAddr(0));
    let ptr = mmu.malloc(0x30, false).unwrap();
    mmu.free(ptr).unwrap();
    match mmu.free(ptr) {
        Err(Error::InvalidFree { .. }) => return,
        Err(err) => panic!("Wrong error {:?}", err),
        _ => panic!("The function didn't return an error"),
    }
}

#[test]
fn mmu_malloc_uaf() {
    let mut mmu = Mmu::new(1024 * DIRTY_BLOCK_SIZE);
    mmu.set_brk(VirtAddr(0));
    let ptr = mmu.malloc(0x30, false).unwrap();
    mmu.free(ptr).unwrap();

    match mmu.write(ptr, &[0x41; 1]) {
        Err(Error::WriteFault { .. }) => return,
        Err(err) => panic!("Wrong error {:?}", err),
        _ => panic!("The function didn't return an error"),
    }
}

#[test]
fn mmu_malloc_raw() {
    let mut mmu = Mmu::new(1024 * DIRTY_BLOCK_SIZE);
    mmu.set_brk(VirtAddr(0));

    let ptr = mmu.malloc(0x30, true).unwrap();

    let want = vec![1, 2, 3, 4, 5];
    mmu.write(ptr, &want).unwrap();

    let mut got = vec![0; 5];
    mmu.read(ptr, &mut got).unwrap();

    mmu.free(ptr).unwrap();

    assert_eq!(want, got);
}

#[test]
fn mmu_malloc_raw_uninit() {
    let mut mmu = Mmu::new(1024 * DIRTY_BLOCK_SIZE);
    mmu.set_brk(VirtAddr(0));

    let ptr = mmu.malloc(0x30, true).unwrap();

    let want = vec![1, 2, 3, 4, 5];
    mmu.write(ptr, &want).unwrap();

    let mut got = vec![0; 6];
    match mmu.read(ptr, &mut got) {
        Err(Error::UninitFault { .. }) => return,
        Err(err) => panic!("Wrong error {:?}", err),
        _ => panic!("The function didn't return an error"),
    }
}
