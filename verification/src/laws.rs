//! Laws of the permission checker, the allocator and the integer helpers,
//! stated over the specification view and proved once and for all.
//!
//! Each law is phrased over the facts that the operations' own contracts
//! establish, so a caller can chain an operation's `ensures` with a law here
//! to reason about what a later check or read will report.

use crate::bits::lemma_perm_constants;
use crate::bits::lemma_u8_and_self;
use crate::lebytes::LeBytes;
use crate::lebytes::lemma_int_round_trip;
use crate::lebytes::padded16;
use crate::mmu::MmuView;
use crate::mmu::byte_ok;
use crate::mmu::lemma_range_fault_ok;
use crate::mmu::lemma_range_fault_skip;
use crate::mmu::spec_check;
use crate::mmu::write_outcome;
use crate::types::Error;
use crate::types::PERM_RAW;
use crate::types::PERM_READ;
use crate::types::PERM_WRITE;
use crate::types::Perm;
use crate::types::VirtAddr;
use vstd::prelude::*;

verus! {

/// After permissions `p` are set on a whole range, a check of that range
/// against `p` succeeds. The one exception is a `p` that both demands
/// reading and marks the bytes read-after-write: the RAW protocol reports
/// such bytes as uninitialized until they are written.
pub proof fn lemma_check_after_set_perms(perms: Seq<Perm>, addr: VirtAddr, size: usize, p: Perm)
    requires
        addr.0 + size <= perms.len(),
        perms.len() <= usize::MAX,
        forall|i: int| addr.0 <= i < addr.0 + size ==> #[trigger] perms[i] == p,
        !(p.has(PERM_READ) && p.has(PERM_RAW)),
    ensures
        spec_check(perms, addr, size, p) is Ok,
{
    lemma_u8_and_self(p.0);
    assert forall|k: int| addr.0 <= k < addr.0 + size implies byte_ok(
        #[trigger] perms[k],
        p,
    ) by {
        assert(perms[k] == p);
    }
    lemma_range_fault_ok(perms, addr, size, p);
}

/// For a non-raw allocation of `n` bytes at `p`: the allocated range checks
/// out for reading and for writing, while a range that starts inside it but
/// runs onto the guard byte just past it faults — as a write fault when
/// writing was expected, as a read fault when reading was.
pub proof fn lemma_alloc_rw_guard(v: MmuView, p: VirtAddr, n: usize, a: VirtAddr, s: usize)
    requires
        p.0 + n < v.perms.len(),
        v.perms.len() <= usize::MAX,
        forall|i: int|
            p.0 <= i < p.0 + n ==> #[trigger] v.perms[i] == (Perm(PERM_WRITE | PERM_READ)),
        v.perms[p.0 + n] == (Perm(0)),
        p.0 <= a.0 <= p.0 + n,
        a.0 + s <= p.0 + n + 1,
    ensures
        a.0 + s <= p.0 + n ==> spec_check(v.perms, a, s, Perm(PERM_READ)) is Ok,
        a.0 + s <= p.0 + n ==> spec_check(v.perms, a, s, Perm(PERM_WRITE)) is Ok,
        a.0 + s == p.0 + n + 1 ==> spec_check(v.perms, a, s, Perm(PERM_WRITE)) == Err::<
            (),
            Error,
        >(Error::WriteFault { addr: a, size: s }),
        a.0 + s == p.0 + n + 1 ==> spec_check(v.perms, a, s, Perm(PERM_READ)) == Err::<
            (),
            Error,
        >(Error::ReadFault { addr: a, size: s }),
    {
    lemma_perm_constants();
    assert forall|k: int|
        a.0 <= k < p.0 + n implies byte_ok(#[trigger] v.perms[k], Perm(PERM_READ)) && byte_ok(
        v.perms[k],
        Perm(PERM_WRITE),
    ) by {
        assert(v.perms[k] == Perm(PERM_WRITE | PERM_READ));
    }
    if a.0 + s <= p.0 + n {
        lemma_range_fault_ok(v.perms, a, s, Perm(PERM_READ));
        lemma_range_fault_ok(v.perms, a, s, Perm(PERM_WRITE));
    } else if a.0 + s == p.0 + n + 1 {
        lemma_range_fault_skip(v.perms, a, s, Perm(PERM_READ), a.0 as int, p.0 + n);
        lemma_range_fault_skip(v.perms, a, s, Perm(PERM_WRITE), a.0 as int, p.0 + n);
        assert(v.perms[p.0 + n] == Perm(0));
    }
}

/// For a raw allocation whose first `k` bytes have been written — and so
/// promoted from RAW to readable — a read that stays within the written
/// prefix checks out.
pub proof fn lemma_raw_read_ok(v: MmuView, p: VirtAddr, k: usize, a: VirtAddr, s: usize)
    requires
        p.0 + k <= v.perms.len() <= usize::MAX,
        forall|i: int|
            p.0 <= i < p.0 + k ==> #[trigger] v.perms[i] == (Perm(PERM_WRITE | PERM_READ)),
        p.0 <= a.0,
        a.0 + s <= p.0 + k,
    ensures
        spec_check(v.perms, a, s, Perm(PERM_READ)) is Ok,
{
    lemma_perm_constants();
    assert forall|t: int| a.0 <= t < a.0 + s implies byte_ok(
        #[trigger] v.perms[t],
        Perm(PERM_READ),
    ) by {
        assert(v.perms[t] == Perm(PERM_WRITE | PERM_READ));
    }
    lemma_range_fault_ok(v.perms, a, s, Perm(PERM_READ));
}

/// For a raw allocation whose first `k` bytes have been written, a read
/// that crosses into the unwritten bytes reports an uninitialized fault:
/// the RAW flag survives until a checked write clears it.
pub proof fn lemma_raw_read_uninit(
    v: MmuView,
    p: VirtAddr,
    k: usize,
    n: usize,
    a: VirtAddr,
    s: usize,
)
    requires
        p.0 + n <= v.perms.len() <= usize::MAX,
        k <= n,
        forall|i: int|
            p.0 <= i < p.0 + k ==> #[trigger] v.perms[i] == (Perm(PERM_WRITE | PERM_READ)),
        forall|i: int|
            p.0 + k <= i < p.0 + n ==> #[trigger] v.perms[i] == (Perm(PERM_WRITE | PERM_RAW)),
        p.0 <= a.0 <= p.0 + k,
        p.0 + k < a.0 + s,
        a.0 + s <= p.0 + n,
    ensures
        spec_check(v.perms, a, s, Perm(PERM_READ)) == Err::<(), Error>(
            Error::UninitFault { addr: a, size: s },
        ),
{
    lemma_perm_constants();
    assert forall|t: int| a.0 <= t < p.0 + k implies byte_ok(
        #[trigger] v.perms[t],
        Perm(PERM_READ),
    ) by {
        assert(v.perms[t] == Perm(PERM_WRITE | PERM_READ));
    }
    lemma_range_fault_skip(v.perms, a, s, Perm(PERM_READ), a.0 as int, p.0 + k);
    assert(v.perms[p.0 + k] == Perm(PERM_WRITE | PERM_RAW));
}

/// After a free zeroed the permissions of `[p, p + n)`, any nonempty access
/// inside the freed range faults: a write fault when writing was expected,
/// a read fault when reading was. (A second free of `p` reports an invalid
/// free by the contract of the free operation itself, since `p` has left
/// the allocation map.)
pub proof fn lemma_freed_faults(v: MmuView, p: VirtAddr, n: usize, a: VirtAddr, s: usize)
    requires
        v.perms.len() <= usize::MAX,
        p.0 + n <= v.perms.len(),
        forall|i: int| p.0 <= i < p.0 + n ==> #[trigger] v.perms[i] == (Perm(0)),
        p.0 <= a.0,
        a.0 + s <= p.0 + n,
        s >= 1,
    ensures
        spec_check(v.perms, a, s, Perm(PERM_WRITE)) == Err::<(), Error>(
            Error::WriteFault { addr: a, size: s },
        ),
        spec_check(v.perms, a, s, Perm(PERM_READ)) == Err::<(), Error>(
            Error::ReadFault { addr: a, size: s },
        ),
{
    lemma_perm_constants();
    assert(v.perms[a.0 as int] == Perm(0));
}

/// What `write_int` leaves in memory reads back as the written value: the
/// write-then-read round trip of the integer helpers, for every integer
/// type and value.
pub proof fn lemma_write_read_int<T: LeBytes>(
    pre: MmuView,
    post: MmuView,
    addr: VirtAddr,
    value: T::Target,
)
    requires
        write_outcome(pre, post, addr, T::spec_enc(value), Perm(PERM_WRITE)),
    ensures
        T::spec_dec(padded16(post.mem.subrange(addr.0 as int, addr.0 + T::spec_width())))
            == value,
{
    T::lemma_width();
    assert(post.mem.subrange(addr.0 as int, addr.0 + T::spec_width()) =~= T::spec_enc(value));
    lemma_int_round_trip::<T>(post.mem.subrange(addr.0 as int, addr.0 + T::spec_width()), value);
}

} // verus!
