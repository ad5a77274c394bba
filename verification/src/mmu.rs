//! The emulated memory management unit.
//!
//! The specification model of an [`Mmu`] is its [`MmuView`]: the byte arena,
//! the parallel permission arena, the ordered sequence of dirtied block
//! indices, the program break and the map of live allocations. Every public
//! operation is specified exactly over this view.

use vstd::prelude::*;

use crate::bits::bit64;
use crate::bits::lemma_bit64_set;
use crate::bits::lemma_bit64_zero;
use crate::lebytes::LeBytes;
use crate::lebytes::padded16;
use crate::types::DIRTY_BLOCK_SIZE;
use crate::types::Error;
use crate::types::PERM_EXEC;
use crate::types::PERM_RAW;
use crate::types::PERM_READ;
use crate::types::PERM_WRITE;
use crate::types::Perm;
use crate::types::VirtAddr;
use vstd::arithmetic::div_mod::lemma_div_is_ordered;
use vstd::arithmetic::div_mod::lemma_div_multiples_vanish_fancy;
use vstd::arithmetic::div_mod::lemma_div_nonincreasing;
use vstd::arithmetic::div_mod::lemma_div_plus_one;
use vstd::arithmetic::div_mod::lemma_fundamental_div_mod;
use vstd::slice::slice_subrange;

verus! {

/// The specification-level state of an [`Mmu`].
pub struct MmuView {
    /// Contents of the byte arena.
    pub mem: Seq<u8>,
    /// Byte-level permissions, parallel to `mem`.
    pub perms: Seq<Perm>,
    /// Indices of the blocks dirtied since the last reset, in first-dirtied
    /// order, each at most once.
    pub dirty: Seq<usize>,
    /// Program break: the next allocation is placed here.
    pub brk: VirtAddr,
    /// Live allocations: base address to size in bytes.
    pub allocs: Map<VirtAddr, usize>,
}

/// Number of dirty-tracking blocks covering an arena of `size` bytes
/// (`size >= 1`): the last block may be partial.
pub open spec fn num_blocks(size: int) -> int {
    (size - 1) / (DIRTY_BLOCK_SIZE as int) + 1
}

/// The block that byte `i` belongs to.
pub open spec fn block_of(i: int) -> int {
    i / (DIRTY_BLOCK_SIZE as int)
}

impl MmuView {
    /// Size of the arena in bytes.
    pub open spec fn size(self) -> int {
        self.mem.len() as int
    }

    /// True when block `b` has been dirtied since the last reset.
    pub open spec fn is_dirty(self, b: int) -> bool {
        self.dirty.contains(b as usize)
    }

    /// True when a reset against `donor` restores byte equality: outside the
    /// dirtied blocks, this view already agrees with the donor. A fork starts
    /// in this relation to its donor, and every mutating operation preserves
    /// it, because whatever an operation changes it also marks dirty.
    pub open spec fn tracks(self, donor: MmuView) -> bool {
        &&& self.mem.len() == donor.mem.len()
        &&& self.perms.len() == donor.perms.len()
        &&& forall|i: int|
            #![trigger self.mem[i]]
            #![trigger self.perms[i]]
            0 <= i < self.mem.len() && !self.is_dirty(block_of(i)) ==> self.mem[i] == donor.mem[i]
                && self.perms[i] == donor.perms[i]
    }
}

/// True when no two entries of the allocation list share a base address.
pub open spec fn alloc_keys_unique(s: Seq<(VirtAddr, usize)>) -> bool {
    forall|i: int, j: int| 0 <= i < j < s.len() ==> (#[trigger] s[i]).0 != (#[trigger] s[j]).0
}

/// The map held by an association list of (base address, size) pairs.
pub open spec fn alloc_map_of(s: Seq<(VirtAddr, usize)>) -> Map<VirtAddr, usize>
    decreases s.len(),
{
    if s.len() == 0 {
        Map::empty()
    } else {
        alloc_map_of(s.drop_last()).insert(s.last().0, s.last().1)
    }
}

/// The fault reported for the bytes `[i, addr.0 + size)` of a permission
/// arena, when `expected` is demanded of each of them. Bytes are inspected in
/// order and the first violation decides: a byte still marked read-after-write
/// is an uninit fault whenever reading is expected; otherwise a byte that does
/// not grant every expected flag faults according to the strongest expected
/// flag. The reported range is the whole access, not the offending byte.
pub open spec fn range_fault(
    perms: Seq<Perm>,
    addr: VirtAddr,
    size: usize,
    expected: Perm,
    i: int,
) -> Result<(), Error>
    decreases addr.0 + size - i,
{
    if i >= addr.0 + size {
        Ok(())
    } else if expected.has(PERM_READ) && perms[i].has(PERM_RAW) {
        Err(Error::UninitFault { addr, size })
    } else if !perms[i].grants(expected) {
        if expected.has(PERM_READ) {
            Err(Error::ReadFault { addr, size })
        } else if expected.has(PERM_WRITE) {
            Err(Error::WriteFault { addr, size })
        } else if expected.has(PERM_EXEC) {
            Err(Error::ExecFault { addr, size })
        } else {
            Err(Error::UnkFault { addr, size, exp: expected, cur: perms[i] })
        }
    } else {
        range_fault(perms, addr, size, expected, i + 1)
    }
}

/// True when a byte with permissions `cur` passes a check that expects
/// `expected`: it grants every expected flag, and it is not a
/// read-after-write byte under a read expectation.
pub open spec fn byte_ok(cur: Perm, expected: Perm) -> bool {
    !(expected.has(PERM_READ) && cur.has(PERM_RAW)) && cur.grants(expected)
}

/// Checking skips over bytes that check out: the fault of a range is the
/// fault of its first suspect byte.
pub proof fn lemma_range_fault_skip(
    perms: Seq<Perm>,
    addr: VirtAddr,
    size: usize,
    expected: Perm,
    i: int,
    j: int,
)
    requires
        addr.0 <= i <= j <= addr.0 + size,
        forall|k: int| i <= k < j ==> byte_ok(#[trigger] perms[k], expected),
    ensures
        range_fault(perms, addr, size, expected, i) == range_fault(perms, addr, size, expected, j),
    decreases j - i,
{
    if i < j {
        assert(byte_ok(perms[i], expected));
        lemma_range_fault_skip(perms, addr, size, expected, i + 1, j);
    }
}

/// A range whose bytes all check out checks out as a whole.
pub proof fn lemma_range_fault_ok(
    perms: Seq<Perm>,
    addr: VirtAddr,
    size: usize,
    expected: Perm,
)
    requires
        forall|k: int| addr.0 <= k < addr.0 + size ==> byte_ok(#[trigger] perms[k], expected),
    ensures
        range_fault(perms, addr, size, expected, addr.0 as int) is Ok,
{
    lemma_range_fault_skip(perms, addr, size, expected, addr.0 as int, addr.0 + size);
}

/// What checking the range `[addr, addr + size)` against `expected` reports:
/// overflowing and out-of-range accesses fail before any byte is inspected,
/// then the bytes decide as [`range_fault`] says.
pub open spec fn spec_check(
    perms: Seq<Perm>,
    addr: VirtAddr,
    size: usize,
    expected: Perm,
) -> Result<(), Error> {
    if addr.0 + size > usize::MAX {
        Err(Error::AddressIntegerOverflow { addr, size })
    } else if addr.0 + size > perms.len() {
        Err(Error::InvalidAddress { addr, size })
    } else {
        range_fault(perms, addr, size, expected, addr.0 as int)
    }
}

/// First block of the span dirtied by a byte range starting at `addr`.
pub open spec fn span_start(addr: VirtAddr) -> int {
    block_of(addr.0 as int)
}

/// One past the last block of the span dirtied by the byte range
/// `[addr, addr + len)`. A zero-length range dirties no blocks, and a range
/// ending exactly on a block boundary does not dirty the next block.
pub open spec fn span_end(addr: VirtAddr, len: int) -> int {
    if len <= 0 {
        block_of(addr.0 as int)
    } else {
        block_of(addr.0 + len - 1) + 1
    }
}

/// The dirty list after marking the blocks `[b, end)`: each block not yet
/// present is appended, in increasing block order.
pub open spec fn spec_mark(dirty: Seq<usize>, b: int, end: int) -> Seq<usize>
    decreases end - b,
{
    if b >= end {
        dirty
    } else {
        spec_mark(
            if dirty.contains(b as usize) {
                dirty
            } else {
                dirty.push(b as usize)
            },
            b + 1,
            end,
        )
    }
}

/// A sequence contains an element after a push exactly when it contained it
/// before or the element was the one pushed.
pub proof fn lemma_push_contains(s: Seq<usize>, x: usize, y: usize)
    ensures
        s.push(x).contains(y) <==> (s.contains(y) || x == y),
{
    if s.contains(y) {
        let i = choose|i: int| 0 <= i < s.len() && s[i] == y;
        assert(s.push(x)[i] == y);
    }
    if x == y {
        assert(s.push(x)[s.len() as int] == y);
    }
    if s.push(x).contains(y) {
        let i = choose|i: int| 0 <= i < s.push(x).len() && s.push(x)[i] == y;
        if i < s.len() {
            assert(s[i] == y);
        }
    }
}

/// After marking `[b, end)`, the dirty list contains exactly the blocks it
/// already contained and those of the marked span.
pub proof fn lemma_mark_contains(dirty: Seq<usize>, b: int, end: int, x: usize)
    requires
        0 <= b,
        end <= usize::MAX,
    ensures
        spec_mark(dirty, b, end).contains(x) <==> (dirty.contains(x) || b <= x < end),
    decreases end - b,
{
    if b < end {
        if dirty.contains(b as usize) {
            lemma_mark_contains(dirty, b + 1, end, x);
        } else {
            lemma_mark_contains(dirty.push(b as usize), b + 1, end, x);
            lemma_push_contains(dirty, b as usize, x);
        }
    }
}

/// Marking a span whose blocks are all already present changes nothing.
pub proof fn lemma_mark_absorbed(dirty: Seq<usize>, b: int, end: int)
    requires
        forall|x: int| b <= x < end ==> dirty.contains(#[trigger] (x as usize)),
    ensures
        spec_mark(dirty, b, end) == dirty,
    decreases end - b,
{
    if b < end {
        assert(dirty.contains(b as usize));
        lemma_mark_absorbed(dirty, b + 1, end);
    }
}

/// What every mutating byte-range operation guarantees about the arenas:
/// no byte and no permission outside `[addr, addr + len)` changes, and the
/// dirtied span of that range is appended to the dirty list.
pub open spec fn mutated_range(pre: MmuView, post: MmuView, addr: VirtAddr, len: int) -> bool {
    &&& post.mem.len() == pre.mem.len()
    &&& post.perms.len() == pre.perms.len()
    &&& post.dirty == spec_mark(pre.dirty, span_start(addr), span_end(addr, len))
    &&& forall|i: int|
        #![trigger post.mem[i]]
        #![trigger post.perms[i]]
        0 <= i < pre.mem.len() && !(addr.0 <= i < addr.0 + len) ==> post.mem[i] == pre.mem[i]
            && post.perms[i] == pre.perms[i]
}

/// The byte arena after `src` is copied over the range starting at `addr`.
pub open spec fn spec_overlay(mem: Seq<u8>, addr: VirtAddr, src: Seq<u8>) -> Seq<u8> {
    Seq::new(
        mem.len(),
        |i: int|
            if addr.0 <= i < addr.0 + src.len() {
                src[i - addr.0]
            } else {
                mem[i]
            },
    )
}

/// Everything a successful checked write with expected permissions
/// `expected` does: `src` is copied over the range, each byte of the range
/// has its permission promoted (RAW traded for READ exactly when writing was
/// expected), the range is marked dirty, and nothing else changes.
pub open spec fn write_outcome(
    pre: MmuView,
    post: MmuView,
    addr: VirtAddr,
    src: Seq<u8>,
    expected: Perm,
) -> bool {
    &&& addr.0 + src.len() <= pre.size()
    &&& mutated_range(pre, post, addr, src.len() as int)
    &&& post.mem == spec_overlay(pre.mem, addr, src)
    &&& forall|i: int|
        addr.0 <= i < addr.0 + src.len() ==> #[trigger] post.perms[i] == pre.perms[i].promote(
            expected,
        )
    &&& post.brk == pre.brk
    &&& post.allocs == pre.allocs
}

/// Every byte of a nonempty range lies in a block of the range's span.
pub proof fn lemma_block_in_span(addr: VirtAddr, len: int, i: int)
    requires
        0 < len,
        addr.0 <= i < addr.0 + len,
    ensures
        span_start(addr) <= block_of(i) < span_end(addr, len),
{
    lemma_div_is_ordered(addr.0 as int, i, DIRTY_BLOCK_SIZE as int);
    lemma_div_is_ordered(i, addr.0 + len - 1, DIRTY_BLOCK_SIZE as int);
}

/// Mutating a byte range preserves the tracking relation against any donor:
/// whatever changed is inside the range, and the whole range was marked
/// dirty. Together with [`Mmu::fork`] and [`Mmu::reset`] this is what makes
/// a fork restorable: a fork tracks its donor from the start, every mutation
/// keeps it tracking, and a reset of a tracking fork restores byte equality.
pub proof fn lemma_mutation_tracks(
    pre: MmuView,
    post: MmuView,
    addr: VirtAddr,
    len: int,
    d: MmuView,
)
    requires
        mutated_range(pre, post, addr, len),
        addr.0 + len <= pre.mem.len(),
        pre.mem.len() <= usize::MAX,
        pre.tracks(d),
    ensures
        post.tracks(d),
{
    assert forall|i: int|
        0 <= i < post.mem.len() && !post.is_dirty(block_of(i)) implies #[trigger] post.mem[i]
        == d.mem[i] && post.perms[i] == d.perms[i] by {
        lemma_div_nonincreasing(i, DIRTY_BLOCK_SIZE as int);
        if len > 0 {
            lemma_div_nonincreasing(addr.0 + len - 1, DIRTY_BLOCK_SIZE as int);
        } else {
            lemma_div_nonincreasing(addr.0 as int, DIRTY_BLOCK_SIZE as int);
        }
        lemma_mark_contains(pre.dirty, span_start(addr), span_end(addr, len), block_of(i) as usize);
        // The block of `i` is not dirty afterwards, so it was not dirty
        // before and lies outside the span of the mutated range.
        assert(!pre.is_dirty(block_of(i)));
        if addr.0 <= i < addr.0 + len {
            lemma_block_in_span(addr, len, i);
        }
        assert(!(addr.0 <= i < addr.0 + len));
        assert(0 <= i < pre.mem.len());
        assert(post.mem[i] == pre.mem[i]);
        assert(post.perms[i] == pre.perms[i]);
        assert(pre.mem[i] == d.mem[i]);
        assert(pre.perms[i] == d.perms[i]);
    }
}

/// The size the allocator actually reserves for a request of `size` bytes:
/// rounded so that the next allocation starts 16-byte aligned and at least
/// one guard region of zero-permission bytes lies past the requested bytes.
pub open spec fn spec_aligned_size(size: usize) -> usize
    recommends
        size + 0xfff <= usize::MAX,
{
    ((size + 0xfff) as usize) & !0xfusize
}

/// The reserved size of an allocation stays within a page of the request:
/// it is 16-byte aligned and leaves between `0xff0` and `0xfff` bytes of
/// guard slack past the requested bytes, so the byte right after a
/// successful allocation always lies in the zero-permission guard region.
pub proof fn lemma_aligned_size_bounds(size: usize)
    requires
        size + 0xfff <= usize::MAX,
    ensures
        size + 0xff0 <= spec_aligned_size(size) <= size + 0xfff,
        spec_aligned_size(size) % 16 == 0,
{
    crate::bits::lemma_align16((size + 0xfff) as usize);
}

/// Each entry of an allocation list with unique keys is in its map, with its
/// size, and every address in the map has an entry.
proof fn lemma_alloc_map_props(s: Seq<(VirtAddr, usize)>)
    requires
        alloc_keys_unique(s),
    ensures
        forall|k: int|
            0 <= k < s.len() ==> alloc_map_of(s).dom().contains((#[trigger] s[k]).0)
                && alloc_map_of(s)[s[k].0] == s[k].1,
        forall|a: VirtAddr|
            alloc_map_of(s).dom().contains(a) ==> exists|k: int|
                0 <= k < s.len() && (#[trigger] s[k]).0 == a,
    decreases s.len(),
{
    if s.len() > 0 {
        assert(alloc_keys_unique(s.drop_last()));
        lemma_alloc_map_props(s.drop_last());
        assert forall|k: int|
            0 <= k < s.len() implies alloc_map_of(s).dom().contains((#[trigger] s[k]).0)
            && alloc_map_of(s)[s[k].0] == s[k].1 by {
            if k < s.len() - 1 {
                assert(s.drop_last()[k] == s[k]);
                assert(s[k].0 != s.last().0);
            }
        }
        assert forall|a: VirtAddr| alloc_map_of(s).dom().contains(a) implies exists|k: int|
            0 <= k < s.len() && (#[trigger] s[k]).0 == a by {
            if a == s.last().0 {
                assert(s[s.len() - 1].0 == a);
            } else {
                assert(alloc_map_of(s.drop_last()).dom().contains(a));
                let k = choose|k: int| 0 <= k < s.drop_last().len() && (#[trigger] s.drop_last()[k]).0 == a;
                assert(s[k].0 == a);
            }
        }
    }
}

/// Removing the entry at `k` from an allocation list with unique keys
/// removes exactly its address from the map.
proof fn lemma_alloc_map_remove(s: Seq<(VirtAddr, usize)>, k: int)
    requires
        alloc_keys_unique(s),
        0 <= k < s.len(),
    ensures
        alloc_keys_unique(s.remove(k)),
        alloc_map_of(s.remove(k)) == alloc_map_of(s).remove(s[k].0),
    decreases s.len(),
{
    lemma_alloc_map_props(s);
    if k == s.len() - 1 {
        assert(s.remove(k) =~= s.drop_last());
        assert(alloc_keys_unique(s.drop_last()));
        lemma_alloc_map_props(s.drop_last());
        // The last address is in no earlier entry, so it is not in the map
        // of the rest.
        assert(!alloc_map_of(s.drop_last()).dom().contains(s[k].0));
        assert(alloc_map_of(s.drop_last()) =~= alloc_map_of(s).remove(s[k].0));
    } else {
        assert(alloc_keys_unique(s.drop_last()));
        lemma_alloc_map_remove(s.drop_last(), k);
        assert(s.remove(k).drop_last() =~= s.drop_last().remove(k));
        assert(s.remove(k).last() == s.last());
        assert(alloc_keys_unique(s.remove(k)));
        assert(alloc_map_of(s.remove(k)) == alloc_map_of(s.drop_last().remove(k)).insert(
            s.last().0,
            s.last().1,
        ));
        assert(alloc_map_of(s.drop_last().remove(k)) == alloc_map_of(s.drop_last()).remove(
            s[k].0,
        ));
        // Insert of the last entry and removal of a different address
        // commute.
        assert(s[k].0 != s.last().0);
        assert(alloc_map_of(s.drop_last()).remove(s[k].0).insert(s.last().0, s.last().1)
            =~= alloc_map_of(s.drop_last()).insert(s.last().0, s.last().1).remove(s[k].0));
    }
}

/// True when block `b` occurs among the first `upto` entries of the dirty
/// list.
spec fn dirty_upto(dirty: Seq<usize>, upto: int, b: usize) -> bool {
    exists|k: int| 0 <= k < upto && (#[trigger] dirty[k]) == b
}

/// Taking one more entry of the dirty list into account covers exactly that
/// entry's block in addition.
proof fn lemma_dirty_upto_step(d: Seq<usize>, j: int, b: usize)
    requires
        0 <= j < d.len(),
    ensures
        dirty_upto(d, j + 1, b) <==> (dirty_upto(d, j, b) || d[j] == b),
{
    if dirty_upto(d, j + 1, b) {
        let k = choose|k: int| 0 <= k < j + 1 && (#[trigger] d[k]) == b;
        if k < j {
            assert(dirty_upto(d, j, b));
        }
    }
    if dirty_upto(d, j, b) {
        let k = choose|k: int| 0 <= k < j && (#[trigger] d[k]) == b;
        assert(0 <= k < j + 1 && d[k] == b);
    }
    if d[j] == b {
        assert(0 <= j < j + 1 && d[j] == b);
    }
}

/// The whole dirty list covers exactly the blocks it contains.
proof fn lemma_dirty_upto_full(d: Seq<usize>, b: usize)
    ensures
        dirty_upto(d, d.len() as int, b) <==> d.contains(b),
{
    if dirty_upto(d, d.len() as int, b) {
        let k = choose|k: int| 0 <= k < d.len() && (#[trigger] d[k]) == b;
        assert(d[k] == b);
    }
    if d.contains(b) {
        let k = choose|k: int| 0 <= k < d.len() && d[k] == b;
        assert(0 <= k < d.len() && d[k] == b);
    }
}

/// The dirty list of a well-formed MMU never holds a block twice; together
/// with the prefix clause in every mutating operation's contract, the list
/// only ever grows between resets, by fresh blocks.
pub proof fn lemma_dirty_unique(m: Mmu)
    requires
        m.wf(),
    ensures
        forall|j: int, k: int| 0 <= j < k < m@.dirty.len() ==> m@.dirty[j] != m@.dirty[k],
{
}

/// The byte arena after a reset of `pre` against `donor`: dirtied blocks
/// come from the donor, all other bytes are kept.
spec fn reset_mem(pre: Mmu, donor: Mmu) -> Seq<u8> {
    Seq::new(
        pre.memory@.len(),
        |i: int|
            if pre.dirty@.contains(block_of(i) as usize) {
                donor.memory@[i]
            } else {
                pre.memory@[i]
            },
    )
}

/// The permission arena after a reset of `pre` against `donor`.
spec fn reset_perms(pre: Mmu, donor: Mmu) -> Seq<Perm> {
    Seq::new(
        pre.perms@.len(),
        |i: int|
            if pre.dirty@.contains(block_of(i) as usize) {
                donor.perms@[i]
            } else {
                pre.perms@[i]
            },
    )
}

/// Records `addr -> size` in an allocation list: an existing entry for the
/// same address is replaced, as a map insert demands.
fn allocs_insert(v: &mut Vec<(VirtAddr, usize)>, addr: VirtAddr, size: usize)
    requires
        alloc_keys_unique(old(v)@),
    ensures
        alloc_keys_unique(final(v)@),
        alloc_map_of(final(v)@) == alloc_map_of(old(v)@).insert(addr, size),
        forall|t: int|
            0 <= t < final(v)@.len() ==> (#[trigger] final(v)@[t]) == (addr, size) || old(
                v,
            )@.contains(final(v)@[t]),
{
    let ghost v0 = old(v)@;
    match allocs_find(v, addr) {
        Some(k) => {
            let _ = v.remove(k);
            proof {
                lemma_alloc_map_remove(v0, k as int);
                v0.remove_ensures(k as int);
                assert(forall|t: int|
                    0 <= t < v@.len() ==> v0.contains(#[trigger] v@[t]));
                assert(forall|t: int| 0 <= t < v@.len() ==> (#[trigger] v@[t]).0 != addr);
            }
            let ghost v1 = v@;
            v.push((addr, size));
            proof {
                assert(v@.drop_last() =~= v1);
                assert(alloc_map_of(v@) == alloc_map_of(v1).insert(addr, size));
                assert(alloc_map_of(v@) =~= alloc_map_of(v0).insert(addr, size));
                assert(alloc_keys_unique(v@));
            }
        },
        None => {
            let ghost v1 = v@;
            v.push((addr, size));
            proof {
                assert(v@.drop_last() =~= v1);
                assert(alloc_map_of(v@) == alloc_map_of(v1).insert(addr, size));
                assert(alloc_keys_unique(v@));
                assert(forall|t: int|
                    0 <= t < v@.len() - 1 ==> v0.contains(#[trigger] v@[t]));
            }
        },
    }
}

/// Index of the entry of `addr` in an allocation list, if any.
fn allocs_find(v: &Vec<(VirtAddr, usize)>, addr: VirtAddr) -> (r: Option<usize>)
    ensures
        match r {
            Some(k) => k < v@.len() && v@[k as int].0 == addr,
            None => forall|t: int| 0 <= t < v@.len() ==> (#[trigger] v@[t]).0 != addr,
        },
{
    let n = v.len();
    let mut k: usize = 0;
    while k < n
        invariant
            k <= n,
            n == v@.len(),
            forall|t: int| 0 <= t < k ==> (#[trigger] v@[t]).0 != addr,
        decreases n - k,
    {
        if v[k].0.0 == addr.0 {
            proof {
                assert(v@[k as int].0 == addr);
            }
            return Some(k);
        }
        k = k + 1;
    }
    None
}

/// Block `b` of an arena with `nb` blocks lives at a valid word of a bitmap
/// of `(nb + 63) / 64` words, and its word and bit indices identify it.
proof fn lemma_word_index(b: int, nb: int)
    requires
        0 <= b < nb,
    ensures
        0 <= b / 64 < (nb + 63) / 64,
        b == 64 * (b / 64) + b % 64,
        0 <= b % 64 < 64,
    {
    lemma_fundamental_div_mod(b, 64);
    lemma_div_is_ordered(b, nb - 1, 64);
    lemma_div_plus_one(nb - 1, 64);
    assert((nb - 1) / 64 + 1 == (63 + nb) / 64);
}

/// Emulated memory management unit.
pub struct Mmu {
    /// Memory size.
    size: usize,
    /// Memory contents.
    memory: Vec<u8>,
    /// Byte-level memory permissions.
    perms: Vec<Perm>,
    /// Block indices in `memory` which are dirty.
    dirty: Vec<usize>,
    /// Tracks which parts of memory have been dirtied: bit `b % 64` of word
    /// `b / 64` corresponds to block `b`.
    dirty_bitmap: Vec<u64>,
    /// Number of block indices `dirty` was sized for: one per block.
    dirty_cap: usize,
    /// Program break. Memory is allocated starting at this address.
    brk: VirtAddr,
    /// List of active allocations.
    active_allocs: Vec<(VirtAddr, usize)>,
}

impl View for Mmu {
    type V = MmuView;

    closed spec fn view(&self) -> MmuView {
        MmuView {
            mem: self.memory@,
            perms: self.perms@,
            dirty: self.dirty@,
            brk: self.brk,
            allocs: alloc_map_of(self.active_allocs@),
        }
    }
}

impl Mmu {
    /// Internal coherence of an `Mmu`: the arenas have the declared size, the
    /// dirty list holds valid block indices without repetition, the packed
    /// bitmap mirrors the dirty list bit for bit, and the allocation list has
    /// unique keys and stays inside the arena.
    pub closed spec fn wf(self) -> bool {
        let nb = num_blocks(self.size as int);
        &&& self.memory@.len() == self.size
        &&& self.perms@.len() == self.size
        &&& self.size >= DIRTY_BLOCK_SIZE
        &&& self.dirty_cap == nb
        &&& self.dirty_bitmap@.len() == (nb + 63) / 64
        &&& forall|j: int|
            0 <= j < self.dirty@.len() ==> (#[trigger] self.dirty@[j]) < nb
        &&& forall|j: int, k: int|
            0 <= j < k < self.dirty@.len() ==> self.dirty@[j] != self.dirty@[k]
        &&& forall|b: int|
            0 <= b < nb ==> (bit64(#[trigger] self.dirty_bitmap@[b / 64], (b % 64) as u64)
                <==> self.dirty@.contains(b as usize))
        &&& forall|w: int, j: int|
            0 <= w < self.dirty_bitmap@.len() && 0 <= j < 64 && 64 * w + j >= nb
                ==> !(#[trigger] bit64(self.dirty_bitmap@[w], j as u64))
        &&& forall|w: int|
            0 <= w < self.dirty_bitmap@.len() && #[trigger] self.dirty_bitmap@[w] != 0
                ==> exists|j: int|
                0 <= j < self.dirty@.len() && (#[trigger] self.dirty@[j]) / 64 == w
        &&& alloc_keys_unique(self.active_allocs@)
        &&& forall|j: int|
            0 <= j < self.active_allocs@.len()
                ==> ((#[trigger] self.active_allocs@[j]).0.0 as int) + self.active_allocs@[j].1
                <= self.size
    }

    /// Returns a new Mmu with a given memory `size`, zero-filled and with no
    /// permissions, no dirty blocks, a zero program break and no allocations.
    pub fn new(size: usize) -> (r: Mmu)
        requires
            size >= DIRTY_BLOCK_SIZE,
        ensures
            r.wf(),
            r@.mem == Seq::new(size as nat, |i: int| 0u8),
            r@.perms == Seq::new(size as nat, |i: int| Perm(0)),
            r@.dirty == Seq::<usize>::empty(),
            r@.brk == VirtAddr(0),
            r@.allocs == Map::<VirtAddr, usize>::empty(),
    {
        let dirty_size = (size - 1) / DIRTY_BLOCK_SIZE + 1;
        let dirty_bitmap_size = (dirty_size + 63) / 64;

        let r = Mmu {
            size,
            memory: byte_arena(size),
            perms: perm_arena(size),
            dirty: Vec::with_capacity(dirty_size),
            dirty_bitmap: zero_words(dirty_bitmap_size),
            dirty_cap: dirty_size,
            brk: VirtAddr(0),
            active_allocs: Vec::new(),
        };
        proof {
            lemma_bit64_zero();
            assert(r@.mem =~= Seq::new(size as nat, |i: int| 0u8));
            assert(r@.perms =~= Seq::new(size as nat, |i: int| Perm(0)));
            assert(r@.allocs =~= Map::<VirtAddr, usize>::empty());
        }
        r
    }

    /// Returns the size of the memory.
    pub fn size(&self) -> (r: usize)
        requires
            self.wf(),
        ensures
            r == self@.size(),
    {
        self.size
    }

    /// Returns a copy of the MMU. It marks all memory as clean in the new
    /// copy, so the copy tracks `self` as its donor.
    pub fn fork(&self) -> (r: Mmu)
        requires
            self.wf(),
        ensures
            r.wf(),
            r@.mem == self@.mem,
            r@.perms == self@.perms,
            r@.dirty == Seq::<usize>::empty(),
            r@.brk == self@.brk,
            r@.allocs == self@.allocs,
            r@.tracks(self@),
    {
        let r = Mmu {
            size: self.size,
            memory: copy_bytes(&self.memory),
            perms: copy_perms(&self.perms),
            dirty: Vec::with_capacity(self.dirty_cap),
            dirty_bitmap: zero_words((self.dirty_cap + 63) / 64),
            dirty_cap: self.dirty_cap,
            brk: self.brk,
            active_allocs: copy_allocs(&self.active_allocs),
        };
        proof {
            lemma_bit64_zero();
            assert(r@.allocs =~= self@.allocs);
        }
        r
    }

    /// Restores memory to the original state `other`: each dirty block is
    /// copied back from the donor, byte contents and permissions alike, the
    /// dirty state is cleared, and the break and the allocations are taken
    /// from the donor. Work is proportional to what was dirtied, not to the
    /// arena. A receiver that tracks the donor — as every fork of it does,
    /// however it was mutated since — ends byte-equal to the donor; a
    /// receiver with no dirty blocks keeps its bytes untouched.
    pub fn reset(&mut self, other: &Mmu)
        requires
            old(self).wf(),
            other.wf(),
            old(self)@.size() == other@.size(),
        ensures
            final(self).wf(),
            final(self)@.dirty == Seq::<usize>::empty(),
            final(self)@.brk == other@.brk,
            final(self)@.allocs == other@.allocs,
            final(self)@.mem.len() == old(self)@.mem.len(),
            final(self)@.perms.len() == old(self)@.perms.len(),
            forall|i: int|
                #![trigger final(self)@.mem[i]]
                #![trigger final(self)@.perms[i]]
                0 <= i < old(self)@.mem.len() ==> final(self)@.mem[i] == (if old(
                    self,
                )@.is_dirty(block_of(i)) {
                    other@.mem[i]
                } else {
                    old(self)@.mem[i]
                }) && final(self)@.perms[i] == (if old(self)@.is_dirty(block_of(i)) {
                    other@.perms[i]
                } else {
                    old(self)@.perms[i]
                }),
            old(self)@.tracks(other@) ==> final(self)@.mem == other@.mem && final(self)@.perms
                == other@.perms && final(self)@.tracks(other@),
            old(self)@.dirty.len() == 0 ==> final(self)@.mem == old(self)@.mem && final(self)@.perms
                == old(self)@.perms,
    {
        let n = self.dirty.len();
        let mut j: usize = 0;

        // Restore the dirtied blocks and zero their bitmap words.
        while j < n
            invariant
                old(self).wf(),
                other.wf(),
                old(self).size == other.size,
                j <= n,
                n == old(self).dirty@.len(),
                self.size == old(self).size,
                self.dirty@ == old(self).dirty@,
                self.dirty_cap == old(self).dirty_cap,
                self.dirty_bitmap@.len() == old(self).dirty_bitmap@.len(),
                self.brk == old(self).brk,
                self.active_allocs@ == old(self).active_allocs@,
                self.memory@.len() == self.size,
                self.perms@.len() == self.size,
                forall|w: int|
                    0 <= w < self.dirty_bitmap@.len() && #[trigger] self.dirty_bitmap@[w] != 0
                        ==> exists|k: int|
                        j <= k < n && ((#[trigger] old(self).dirty@[k]) as int) / 64 == w,
                forall|i: int|
                    #![trigger self.memory@[i]]
                    #![trigger self.perms@[i]]
                    0 <= i < self.size ==> self.memory@[i] == (if dirty_upto(
                        old(self).dirty@,
                        j as int,
                        block_of(i) as usize,
                    ) {
                        other.memory@[i]
                    } else {
                        old(self).memory@[i]
                    }) && self.perms@[i] == (if dirty_upto(
                        old(self).dirty@,
                        j as int,
                        block_of(i) as usize,
                    ) {
                        other.perms@[i]
                    } else {
                        old(self).perms@[i]
                    }),
            decreases n - j,
        {
            let ghost it0 = *self;
            let ghost nb = num_blocks(self.size as int);

            let block = self.dirty[j];
            proof {
                lemma_word_index(block as int, nb);
                lemma_fundamental_div_mod(self.size as int - 1, DIRTY_BLOCK_SIZE as int);
                assert(block as int * (DIRTY_BLOCK_SIZE as int) <= self.size - 1);
            }
            let start = block * DIRTY_BLOCK_SIZE;
            let end = if self.size - start > DIRTY_BLOCK_SIZE {
                start + DIRTY_BLOCK_SIZE
            } else {
                self.size
            };

            self.dirty_bitmap[block / 64] = 0;

            let ghost pre_j = *self;
            let mut i: usize = start;
            while i < end
                invariant
                    start <= i <= end,
                    end <= self.size,
                    self.size == pre_j.size,
                    other.wf(),
                    other.size == self.size,
                    self.memory@.len() == self.size,
                    self.perms@.len() == self.size,
                    self.dirty@ == pre_j.dirty@,
                    self.dirty_bitmap@ == pre_j.dirty_bitmap@,
                    self.dirty_cap == pre_j.dirty_cap,
                    self.brk == pre_j.brk,
                    self.active_allocs@ == pre_j.active_allocs@,
                    forall|x: int|
                        #![trigger self.memory@[x]]
                        #![trigger self.perms@[x]]
                        0 <= x < self.size ==> self.memory@[x] == (if start <= x < i {
                            other.memory@[x]
                        } else {
                            pre_j.memory@[x]
                        }) && self.perms@[x] == (if start <= x < i {
                            other.perms@[x]
                        } else {
                            pre_j.perms@[x]
                        }),
                decreases end - i,
            {
                self.memory[i] = other.memory[i];
                self.perms[i] = other.perms[i];
                i = i + 1;
            }

            j = j + 1;

            proof {
                let d = old(self).dirty@;

                // The restored range is exactly the in-arena part of the
                // block, so a byte changed here is a byte of this block.
                assert forall|x: int|
                    #![trigger self.memory@[x]]
                    #![trigger self.perms@[x]]
                    0 <= x < self.size implies self.memory@[x] == (if dirty_upto(
                    d,
                    j as int,
                    block_of(x) as usize,
                ) {
                    other.memory@[x]
                } else {
                    old(self).memory@[x]
                }) && self.perms@[x] == (if dirty_upto(d, j as int, block_of(x) as usize) {
                    other.perms@[x]
                } else {
                    old(self).perms@[x]
                }) by {
                    lemma_dirty_upto_step(d, j as int - 1, block_of(x) as usize);
                    lemma_fundamental_div_mod(x, DIRTY_BLOCK_SIZE as int);
                    if start <= x < end {
                        lemma_div_multiples_vanish_fancy(
                            block as int,
                            x - start,
                            DIRTY_BLOCK_SIZE as int,
                        );
                        assert(block_of(x) == block);
                    } else {
                        assert(block_of(x) != block);
                    }
                }

                // Every still-nonzero word owes its bits to a block that is
                // yet to be processed.
                assert forall|w: int|
                    0 <= w < self.dirty_bitmap@.len() && #[trigger] self.dirty_bitmap@[w] != 0
                        implies exists|k: int|
                    j <= k < n && ((#[trigger] old(self).dirty@[k]) as int) / 64 == w by {
                    assert(it0.dirty_bitmap@[w] != 0);
                    let k = choose|k: int|
                        j - 1 <= k < n && ((#[trigger] old(self).dirty@[k]) as int) / 64 == w;
                    assert(w != block as int / 64);
                    assert(k >= j);
                    assert(j <= k < n && ((old(self).dirty@[k]) as int) / 64 == w);
                }
            }
        }

        proof {
            assert forall|i: int|
                0 <= i < self.size implies #[trigger] self.memory@[i] == reset_mem(
                *old(self),
                *other,
            )[i] && self.perms@[i] == reset_perms(*old(self), *other)[i] by {
                lemma_dirty_upto_full(old(self).dirty@, block_of(i) as usize);
            }
            assert(self.memory@ =~= reset_mem(*old(self), *other));
            assert(self.perms@ =~= reset_perms(*old(self), *other));
        }

        self.dirty.clear();

        self.brk = other.brk;

        self.active_allocs.clear();
        let m = other.active_allocs.len();
        let mut t: usize = 0;
        while t < m
            invariant
                t <= m,
                m == other.active_allocs@.len(),
                self.active_allocs@ == other.active_allocs@.subrange(0, t as int),
                self.size == old(self).size,
                self.dirty@ == Seq::<usize>::empty(),
                self.dirty_cap == old(self).dirty_cap,
                self.dirty_bitmap@.len() == old(self).dirty_bitmap@.len(),
                self.brk == other.brk,
                self.memory@ == reset_mem(*old(self), *other),
                self.perms@ == reset_perms(*old(self), *other),
                forall|w: int|
                    0 <= w < self.dirty_bitmap@.len() ==> #[trigger] self.dirty_bitmap@[w] == 0,
            decreases m - t,
        {
            let entry = other.active_allocs[t];
            self.active_allocs.push(entry);
            proof {
                assert(self.active_allocs@ =~= other.active_allocs@.subrange(0, t as int + 1));
            }
            t = t + 1;
        }

        proof {
            assert(self.active_allocs@ =~= other.active_allocs@);
            assert(self@.allocs =~= other@.allocs);
            lemma_bit64_zero();
            self.lemma_reset_wf(*old(self), *other);
        }
    }

    /// Returns the length of the internal memory buffer.
    pub fn memory_len(&self) -> (r: usize)
        requires
            self.wf(),
        ensures
            r == self@.size(),
    {
        self.memory.len()
    }

    /// Borrows the internal memory buffer. Raw pointers are outside the
    /// verified subset, so the buffer is handed out as a slice.
    pub fn memory_ptr(&self) -> (r: &[u8])
        ensures
            r@ == self@.mem,
    {
        self.memory.as_slice()
    }

    /// Returns the number of block indices the dirty list is sized for: one
    /// per block of the arena.
    pub fn dirty_capacity(&self) -> (r: usize)
        requires
            self.wf(),
        ensures
            r == num_blocks(self@.size()),
    {
        self.dirty_cap
    }

    /// Returns the length of the internal list of dirty blocks.
    pub fn dirty_len(&self) -> (r: usize)
        ensures
            r == self@.dirty.len(),
    {
        self.dirty.len()
    }

    /// Borrows the internal list of dirty blocks. Raw pointers are outside
    /// the verified subset, so the list is handed out as a slice.
    pub fn dirty_ptr(&self) -> (r: &[usize])
        ensures
            r@ == self@.dirty,
    {
        self.dirty.as_slice()
    }

    /// Borrows the internal bitmap of dirty blocks: bit `b % 64` of word
    /// `b / 64` is set exactly when block `b` is dirty. Raw pointers are
    /// outside the verified subset, so the bitmap is handed out as a slice.
    pub fn dirty_bitmap_ptr(&self) -> (r: &[u64])
        requires
            self.wf(),
        ensures
            r@.len() == (num_blocks(self@.size()) + 63) / 64,
            forall|b: int|
                0 <= b < num_blocks(self@.size())
                    ==> (bit64(#[trigger] r@[b / 64], (b % 64) as u64) <==> self@.is_dirty(b)),
    {
        self.dirty_bitmap.as_slice()
    }

    /// Borrows the internal permissions buffer. Raw pointers are outside the
    /// verified subset, so the buffer is handed out as a slice.
    pub fn perms_ptr(&self) -> (r: &[Perm])
        ensures
            r@ == self@.perms,
    {
        self.perms.as_slice()
    }

    /// Returns the current program break.
    pub fn brk(&self) -> (r: VirtAddr)
        ensures
            r == self@.brk,
    {
        self.brk
    }

    /// Sets the program break.
    pub fn set_brk(&mut self, addr: VirtAddr)
        requires
            old(self).wf(),
        ensures
            final(self).wf(),
            final(self)@ == (MmuView { brk: addr, ..old(self)@ }),
    {
        self.brk = addr;
        proof {
            assert(self.dirty_bitmap@ == old(self).dirty_bitmap@);
            assert(self.dirty@ == old(self).dirty@);
            assert(self.wf());
        }
    }

    /// Set memory permissions in the given range. Succeeds exactly when the
    /// range lies inside the arena; on success every byte of the range gets
    /// `perms` and the range is marked dirty.
    pub fn set_perms(&mut self, addr: VirtAddr, size: usize, perms: Perm) -> (r: Result<(), Error>)
        requires
            old(self).wf(),
        ensures
            final(self).wf(),
            match r {
                Ok(()) => {
                    &&& addr.0 + size <= old(self)@.size()
                    &&& mutated_range(old(self)@, final(self)@, addr, size as int)
                    &&& final(self)@.mem == old(self)@.mem
                    &&& forall|i: int|
                        addr.0 <= i < addr.0 + size ==> #[trigger] final(self)@.perms[i] == perms
                    &&& final(self)@.brk == old(self)@.brk
                    &&& final(self)@.allocs == old(self)@.allocs
                },
                Err(e) => {
                    &&& final(self)@ == old(self)@
                    &&& addr.0 + size > old(self)@.size()
                    &&& e == (if addr.0 + size > usize::MAX {
                        Error::AddressIntegerOverflow { addr, size }
                    } else {
                        Error::InvalidAddress { addr, size }
                    })
                },
            },
            old(self)@.dirty.is_prefix_of(final(self)@.dirty),
    {
        let end = match addr.0.checked_add(size) {
            Some(end) => end,
            None => {
                return Err(Error::AddressIntegerOverflow { addr, size });
            },
        };

        if end > self.size {
            return Err(Error::InvalidAddress { addr, size });
        }

        let mut i: usize = addr.0;
        while i < end
            invariant
                self.wf(),
                addr.0 <= i <= end,
                end == addr.0 + size,
                end <= self@.perms.len(),
                self@.mem == old(self)@.mem,
                self@.dirty == old(self)@.dirty,
                self@.brk == old(self)@.brk,
                self@.allocs == old(self)@.allocs,
                self@.perms.len() == old(self)@.perms.len(),
                forall|k: int|
                    0 <= k < old(self)@.perms.len() ==> #[trigger] self@.perms[k] == (if addr.0
                        <= k < i {
                        perms
                    } else {
                        old(self)@.perms[k]
                    }),
            decreases end - i,
        {
            let ghost pre_iter = *self;
            self.perms[i] = perms;
            i = i + 1;
            proof {
                assert(self.dirty@ == pre_iter.dirty@);
                assert(self.dirty_bitmap@ == pre_iter.dirty_bitmap@);
                assert(self.active_allocs@ == pre_iter.active_allocs@);
                assert(self.wf());
            }
        }

        self.update_dirty(addr, size);

        Ok(())
    }

    /// Copy the bytes in `src` to the given memory address. This function
    /// will fail if the destination memory is not writable.
    pub fn write(&mut self, addr: VirtAddr, src: &[u8]) -> (r: Result<(), Error>)
        requires
            old(self).wf(),
        ensures
            final(self).wf(),
            r == spec_check(old(self)@.perms, addr, src@.len() as usize, Perm(PERM_WRITE)),
            match r {
                Ok(()) => write_outcome(old(self)@, final(self)@, addr, src@, Perm(PERM_WRITE)),
                Err(_) => final(self)@ == old(self)@,
            },
            old(self)@.dirty.is_prefix_of(final(self)@.dirty),
    {
        self.write_with_perms(addr, src, Perm(PERM_WRITE))
    }

    /// Copy the bytes in `src` to the given memory address. This function
    /// will fail if the destination memory does not satisfy the expected
    /// permissions. Memory marked as `PERM_RAW` will be marked as `PERM_READ`
    /// only if `PERM_WRITE` is within the expected permissions.
    pub fn write_with_perms(&mut self, addr: VirtAddr, src: &[u8], perms: Perm) -> (r: Result<
        (),
        Error,
    >)
        requires
            old(self).wf(),
        ensures
            final(self).wf(),
            r == spec_check(old(self)@.perms, addr, src@.len() as usize, perms),
            match r {
                Ok(()) => write_outcome(old(self)@, final(self)@, addr, src@, perms),
                Err(_) => final(self)@ == old(self)@,
            },
            old(self)@.dirty.is_prefix_of(final(self)@.dirty),
    {
        let size = src.len();

        // Check if the destination memory range satisfies the expected
        // permissions.
        let c = self.check_perms(addr, size, perms);
        if c.is_err() {
            return c;
        }

        // Update memory contents.
        let mut i: usize = 0;
        while i < size
            invariant
                self.wf(),
                i <= size,
                size == src@.len(),
                addr.0 + size <= self@.mem.len(),
                self@.perms == old(self)@.perms,
                self@.dirty == old(self)@.dirty,
                self@.brk == old(self)@.brk,
                self@.allocs == old(self)@.allocs,
                self@.mem.len() == old(self)@.mem.len(),
                forall|k: int|
                    0 <= k < old(self)@.mem.len() ==> #[trigger] self@.mem[k] == (if addr.0 <= k
                        < addr.0 + i {
                        src@[k - addr.0]
                    } else {
                        old(self)@.mem[k]
                    }),
            decreases size - i,
        {
            let ghost pre_iter = *self;
            self.memory[addr.0 + i] = src[i];
            i = i + 1;
            proof {
                assert(self.dirty@ == pre_iter.dirty@);
                assert(self.dirty_bitmap@ == pre_iter.dirty_bitmap@);
                assert(self.active_allocs@ == pre_iter.active_allocs@);
                assert(self.wf());
            }
        }

        proof {
            assert(self@.mem =~= spec_overlay(old(self)@.mem, addr, src@));
        }

        // Add PERM_READ and remove PERM_RAW in case of RAW.
        if perms.0 & PERM_WRITE != 0 {
            let mut i: usize = 0;
            while i < size
                invariant
                    self.wf(),
                    i <= size,
                    size == src@.len(),
                    addr.0 + size <= self@.perms.len(),
                    perms.has(PERM_WRITE),
                    self@.mem == spec_overlay(old(self)@.mem, addr, src@),
                    self@.dirty == old(self)@.dirty,
                    self@.brk == old(self)@.brk,
                    self@.allocs == old(self)@.allocs,
                    self@.perms.len() == old(self)@.perms.len(),
                    forall|k: int|
                        0 <= k < old(self)@.perms.len() ==> #[trigger] self@.perms[k] == (if addr.0
                            <= k < addr.0 + i {
                            old(self)@.perms[k].promote(perms)
                        } else {
                            old(self)@.perms[k]
                        }),
                decreases size - i,
            {
                let ghost pre_iter = *self;
                let p = self.perms[addr.0 + i];
                if p.0 & PERM_RAW != 0 {
                    self.perms[addr.0 + i] = Perm((p.0 | PERM_READ) & !PERM_RAW);
                }
                i = i + 1;
                proof {
                    assert(self.dirty@ == pre_iter.dirty@);
                    assert(self.dirty_bitmap@ == pre_iter.dirty_bitmap@);
                    assert(self.active_allocs@ == pre_iter.active_allocs@);
                    assert(self.wf());
                }
            }
        }

        self.update_dirty(addr, size);

        c
    }

    /// Copy the bytes in `src` to the given memory address. This function
    /// does not check memory permissions, but it still marks the written
    /// range dirty, so that a reset remains complete.
    pub fn poke(&mut self, addr: VirtAddr, src: &[u8]) -> (r: Result<(), Error>)
        requires
            old(self).wf(),
        ensures
            final(self).wf(),
            r == spec_check(old(self)@.perms, addr, src@.len() as usize, Perm(0)),
            match r {
                Ok(()) => write_outcome(old(self)@, final(self)@, addr, src@, Perm(0)),
                Err(_) => final(self)@ == old(self)@,
            },
            old(self)@.dirty.is_prefix_of(final(self)@.dirty),
    {
        self.write_with_perms(addr, src, Perm(0))
    }

    /// Copy the data starting at the specified memory address into `dst`.
    /// This function will fail if the source memory is not readable.
    pub fn read(&self, addr: VirtAddr, dst: &mut [u8]) -> (r: Result<(), Error>)
        requires
            self.wf(),
        ensures
            r == spec_check(self@.perms, addr, old(dst)@.len() as usize, Perm(PERM_READ)),
            final(dst)@.len() == old(dst)@.len(),
            match r {
                Ok(()) => final(dst)@ == self@.mem.subrange(
                    addr.0 as int,
                    addr.0 + old(dst)@.len(),
                ),
                Err(_) => final(dst)@ == old(dst)@,
            },
    {
        self.read_with_perms(addr, dst, Perm(PERM_READ))
    }

    /// Copy the data starting at the specified memory address into `dst`.
    /// This function will fail if the source memory does not satisfy the
    /// expected permissions.
    pub fn read_with_perms(&self, addr: VirtAddr, dst: &mut [u8], perms: Perm) -> (r: Result<
        (),
        Error,
    >)
        requires
            self.wf(),
        ensures
            r == spec_check(self@.perms, addr, old(dst)@.len() as usize, perms),
            final(dst)@.len() == old(dst)@.len(),
            match r {
                Ok(()) => final(dst)@ == self@.mem.subrange(
                    addr.0 as int,
                    addr.0 + old(dst)@.len(),
                ),
                Err(_) => final(dst)@ == old(dst)@,
            },
    {
        let size = dst.len();

        // Check if the source memory range satisfies the expected
        // permissions.
        let c = self.check_perms(addr, size, perms);
        if c.is_err() {
            return c;
        }

        let mut i: usize = 0;
        while i < size
            invariant
                self.wf(),
                i <= size,
                size == old(dst)@.len(),
                dst@.len() == old(dst)@.len(),
                addr.0 + size <= self@.mem.len(),
                forall|k: int|
                    0 <= k < size ==> #[trigger] dst@[k] == (if k < i {
                        self@.mem[addr.0 + k]
                    } else {
                        old(dst)@[k]
                    }),
            decreases size - i,
        {
            dst[i] = self.memory[addr.0 + i];
            i = i + 1;
        }

        proof {
            assert(dst@ =~= self@.mem.subrange(addr.0 as int, addr.0 + old(dst)@.len()));
        }

        c
    }

    /// Copy the data starting at the specified memory address into `dst`.
    /// This function does not check memory permissions, so it only fails
    /// when the range leaves the arena.
    pub fn peek(&self, addr: VirtAddr, dst: &mut [u8]) -> (r: Result<(), Error>)
        requires
            self.wf(),
        ensures
            r == spec_check(self@.perms, addr, old(dst)@.len() as usize, Perm(0)),
            final(dst)@.len() == old(dst)@.len(),
            match r {
                Ok(()) => final(dst)@ == self@.mem.subrange(
                    addr.0 as int,
                    addr.0 + old(dst)@.len(),
                ),
                Err(_) => final(dst)@ == old(dst)@,
            },
    {
        self.read_with_perms(addr, dst, Perm(0))
    }

    /// Returns a slice with the permissions of the memory range
    /// (`addr`..`addr` + `size`).
    pub fn perms(&self, addr: VirtAddr, size: usize) -> (r: Result<&[Perm], Error>)
        requires
            self.wf(),
        ensures
            match r {
                Ok(s) => addr.0 + size <= self@.size() && s@ == self@.perms.subrange(
                    addr.0 as int,
                    addr.0 + size,
                ),
                Err(e) => {
                    &&& addr.0 + size > self@.size()
                    &&& e == (if addr.0 + size > usize::MAX {
                        Error::AddressIntegerOverflow { addr, size }
                    } else {
                        Error::InvalidAddress { addr, size }
                    })
                },
            },
    {
        let end = match addr.0.checked_add(size) {
            Some(end) => end,
            None => {
                return Err(Error::AddressIntegerOverflow { addr, size });
            },
        };

        if end > self.size {
            return Err(Error::InvalidAddress { addr, size });
        }

        Ok(slice_subrange(self.perms.as_slice(), addr.0, end))
    }

    /// Given a memory range and the expected permissions, this function
    /// succeeds if every byte in the specified region satisfies those
    /// permissions, and otherwise reports the first violation, exactly as
    /// [`spec_check`] says.
    pub fn check_perms(&self, addr: VirtAddr, size: usize, perms: Perm) -> (r: Result<(), Error>)
        requires
            self.wf(),
        ensures
            r == spec_check(self@.perms, addr, size, perms),
    {
        let end = match addr.0.checked_add(size) {
            Some(end) => end,
            None => {
                return Err(Error::AddressIntegerOverflow { addr, size });
            },
        };

        if end > self.size {
            return Err(Error::InvalidAddress { addr, size });
        }

        let mut i: usize = addr.0;
        while i < end
            invariant
                self.wf(),
                addr.0 <= i <= end,
                end == addr.0 + size,
                end <= self@.perms.len(),
                range_fault(self@.perms, addr, size, perms, addr.0 as int) == range_fault(
                    self@.perms,
                    addr,
                    size,
                    perms,
                    i as int,
                ),
            decreases end - i,
        {
            let p = self.perms[i];

            // At this point, addr + size cannot overflow. Given that i < size,
            // checked_add is not needed.
            if (perms.0 & PERM_READ != 0) && (p.0 & PERM_RAW != 0) {
                return Err(Error::UninitFault { addr, size });
            }

            if p.0 & perms.0 != perms.0 {
                if perms.0 & PERM_READ != 0 {
                    return Err(Error::ReadFault { addr, size });
                } else if perms.0 & PERM_WRITE != 0 {
                    return Err(Error::WriteFault { addr, size });
                } else if perms.0 & PERM_EXEC != 0 {
                    return Err(Error::ExecFault { addr, size });
                } else {
                    return Err(Error::UnkFault { addr, size, exp: perms, cur: p });
                }
            }

            i = i + 1;
        }

        Ok(())
    }

    /// Compute dirty blocks and bitmap for the byte range
    /// `[addr, addr + size)`, which must lie inside the arena.
    fn update_dirty(&mut self, addr: VirtAddr, size: usize)
        requires
            old(self).wf(),
            addr.0 + size <= old(self)@.size(),
        ensures
            final(self).wf(),
            final(self)@.dirty == spec_mark(
                old(self)@.dirty,
                span_start(addr),
                span_end(addr, size as int),
            ),
            old(self)@.dirty.is_prefix_of(final(self)@.dirty),
            final(self)@.mem == old(self)@.mem,
            final(self)@.perms == old(self)@.perms,
            final(self)@.brk == old(self)@.brk,
            final(self)@.allocs == old(self)@.allocs,
    {
        // A zero-length range dirties no blocks.
        if size == 0 {
            return;
        }

        let block_start = addr.0 / DIRTY_BLOCK_SIZE;
        // Calculate the end of the span so that a range ending exactly on a
        // block boundary does not dirty the next block.
        let block_end = (addr.0 + size - 1) / DIRTY_BLOCK_SIZE + 1;

        proof {
            lemma_div_is_ordered(addr.0 + size - 1, old(self)@.size() - 1, DIRTY_BLOCK_SIZE as int);
        }

        let mut block = block_start;
        while block < block_end
            invariant
                self.wf(),
                block_start <= block <= block_end,
                block_start == span_start(addr),
                block_end == span_end(addr, size as int),
                block_end <= num_blocks(self@.size()),
                spec_mark(old(self)@.dirty, span_start(addr), span_end(addr, size as int))
                    == spec_mark(self@.dirty, block as int, block_end as int),
                old(self)@.dirty.is_prefix_of(self@.dirty),
                self@.mem == old(self)@.mem,
                self@.perms == old(self)@.perms,
                self@.brk == old(self)@.brk,
                self@.allocs == old(self)@.allocs,
            decreases block_end - block,
        {
            proof {
                lemma_word_index(block as int, num_blocks(self@.size() as int));
            }
            let idx = block / 64;
            let bit = block % 64;
            let w = self.dirty_bitmap[idx];
            let ghost pre = *self;

            if w & (1u64 << (bit as u64)) == 0 {
                self.dirty_bitmap[idx] = w | (1u64 << (bit as u64));
                self.dirty.push(block);
                proof {
                    self.lemma_mark_step(pre, addr, size, block, idx, bit, w);
                }
            } else {
                proof {
                    assert(self@.dirty.contains(block));
                }
            }

            block = block + 1;
        }
    }

    /// Write an integer value into a given memory address in little-endian
    /// form. This function will fail if the destination memory is not
    /// writable.
    pub fn write_int<T: LeBytes>(&mut self, addr: VirtAddr, value: T::Target) -> (r: Result<
        (),
        Error,
    >)
        requires
            old(self).wf(),
        ensures
            final(self).wf(),
            r == spec_check(old(self)@.perms, addr, T::spec_width() as usize, Perm(PERM_WRITE)),
            match r {
                Ok(()) => write_outcome(
                    old(self)@,
                    final(self)@,
                    addr,
                    T::spec_enc(value),
                    Perm(PERM_WRITE),
                ),
                Err(_) => final(self)@ == old(self)@,
            },
            old(self)@.dirty.is_prefix_of(final(self)@.dirty),
    {
        self.write_int_with_perms::<T>(addr, value, Perm(PERM_WRITE))
    }

    /// Write an integer value into a given memory address in little-endian
    /// form. This function will fail if the destination memory does not
    /// satisfy the expected permissions.
    pub fn write_int_with_perms<T: LeBytes>(
        &mut self,
        addr: VirtAddr,
        value: T::Target,
        perms: Perm,
    ) -> (r: Result<(), Error>)
        requires
            old(self).wf(),
        ensures
            final(self).wf(),
            r == spec_check(old(self)@.perms, addr, T::spec_width() as usize, perms),
            match r {
                Ok(()) => write_outcome(old(self)@, final(self)@, addr, T::spec_enc(value), perms),
                Err(_) => final(self)@ == old(self)@,
            },
            old(self)@.dirty.is_prefix_of(final(self)@.dirty),
    {
        proof {
            T::lemma_width();
        }
        let bytes = T::to_le_bytes(value);
        let w = T::width();
        let mut src: Vec<u8> = Vec::with_capacity(w);
        let mut i: usize = 0;
        while i < w
            invariant
                i <= w,
                w as nat == T::spec_width(),
                w <= 16,
                bytes@.len() == 16,
                src@ =~= bytes@.subrange(0, i as int),
            decreases w - i,
        {
            src.push(bytes[i]);
            i = i + 1;
        }
        proof {
            assert(src@ =~= T::spec_enc(value));
        }
        self.write_with_perms(addr, src.as_slice(), perms)
    }

    /// Read the data starting at the specified memory address into an
    /// integer, little-endian. This function will fail if the source memory
    /// is not readable.
    pub fn read_int<T: LeBytes>(&self, addr: VirtAddr) -> (r: Result<T::Target, Error>)
        requires
            self.wf(),
        ensures
            match r {
                Ok(v) => spec_check(self@.perms, addr, T::spec_width() as usize, Perm(PERM_READ))
                    is Ok && v == T::spec_dec(
                    padded16(self@.mem.subrange(addr.0 as int, addr.0 + T::spec_width())),
                ),
                Err(e) => Err::<(), Error>(e) == spec_check(
                    self@.perms,
                    addr,
                    T::spec_width() as usize,
                    Perm(PERM_READ),
                ),
            },
    {
        self.read_int_with_perms::<T>(addr, Perm(PERM_READ))
    }

    /// Read the data starting at the specified memory address into an
    /// integer, little-endian. This function will fail if the source memory
    /// does not satisfy the expected permissions.
    pub fn read_int_with_perms<T: LeBytes>(&self, addr: VirtAddr, perms: Perm) -> (r: Result<
        T::Target,
        Error,
    >)
        requires
            self.wf(),
        ensures
            match r {
                Ok(v) => spec_check(self@.perms, addr, T::spec_width() as usize, perms) is Ok
                    && v == T::spec_dec(
                    padded16(self@.mem.subrange(addr.0 as int, addr.0 + T::spec_width())),
                ),
                Err(e) => Err::<(), Error>(e) == spec_check(
                    self@.perms,
                    addr,
                    T::spec_width() as usize,
                    perms,
                ),
            },
    {
        proof {
            T::lemma_width();
        }
        let w = T::width();
        let mut tmp: Vec<u8> = Vec::with_capacity(w);
        let mut i: usize = 0;
        while i < w
            invariant
                i <= w,
                tmp@ =~= Seq::new(i as nat, |k: int| 0u8),
            decreases w - i,
        {
            tmp.push(0);
            i = i + 1;
        }

        match self.read_with_perms(addr, tmp.as_mut_slice(), perms) {
            Ok(()) => {},
            Err(e) => {
                return Err(e);
            },
        }

        let mut bytes = [0u8; 16];
        let mut i: usize = 0;
        while i < w
            invariant
                i <= w,
                w <= 16,
                tmp@.len() == w,
                bytes@.len() == 16,
                forall|k: int|
                    0 <= k < 16 ==> #[trigger] bytes@[k] == (if k < i {
                        tmp@[k]
                    } else {
                        0u8
                    }),
            decreases w - i,
        {
            bytes[i] = tmp[i];
            i = i + 1;
        }

        proof {
            assert(bytes@ =~= padded16(
                self@.mem.subrange(addr.0 as int, addr.0 + T::spec_width()),
            ));
        }

        Ok(T::from_le_bytes(bytes))
    }

    /// Write an integer value into a given memory address in little-endian
    /// form. This function does not check memory permissions, but still
    /// marks the written range dirty.
    pub fn poke_int<T: LeBytes>(&mut self, addr: VirtAddr, value: T::Target) -> (r: Result<
        (),
        Error,
    >)
        requires
            old(self).wf(),
        ensures
            final(self).wf(),
            r == spec_check(old(self)@.perms, addr, T::spec_width() as usize, Perm(0)),
            match r {
                Ok(()) => write_outcome(
                    old(self)@,
                    final(self)@,
                    addr,
                    T::spec_enc(value),
                    Perm(0),
                ),
                Err(_) => final(self)@ == old(self)@,
            },
            old(self)@.dirty.is_prefix_of(final(self)@.dirty),
    {
        self.write_int_with_perms::<T>(addr, value, Perm(0))
    }

    /// Read the data starting at the specified memory address into an
    /// integer, little-endian. This function does not check memory
    /// permissions, so it only fails when the range leaves the arena.
    pub fn peek_int<T: LeBytes>(&self, addr: VirtAddr) -> (r: Result<T::Target, Error>)
        requires
            self.wf(),
        ensures
            match r {
                Ok(v) => spec_check(self@.perms, addr, T::spec_width() as usize, Perm(0)) is Ok
                    && v == T::spec_dec(
                    padded16(self@.mem.subrange(addr.0 as int, addr.0 + T::spec_width())),
                ),
                Err(e) => Err::<(), Error>(e) == spec_check(
                    self@.perms,
                    addr,
                    T::spec_width() as usize,
                    Perm(0),
                ),
            },
    {
        self.read_int_with_perms::<T>(addr, Perm(0))
    }

    /// Strict memory allocator. This function tries to allocate `size` bytes
    /// at the current program break and returns the address of the allocated
    /// memory. The requested bytes become writable — and readable only after
    /// their first write when `raw` is true — while the rest of the reserved
    /// region keeps zero permissions, so that out-of-bounds accesses fault.
    pub fn malloc(&mut self, size: usize, raw: bool) -> (r: Result<VirtAddr, Error>)
        requires
            old(self).wf(),
        ensures
            final(self).wf(),
            match r {
                Ok(p) => {
                    &&& size + 0xfff <= usize::MAX
                    &&& p == old(self)@.brk
                    &&& p.0 + spec_aligned_size(size) <= old(self)@.size()
                    &&& mutated_range(old(self)@, final(self)@, p, spec_aligned_size(size) as int)
                    &&& final(self)@.mem == old(self)@.mem
                    &&& forall|i: int|
                        p.0 <= i < p.0 + size ==> #[trigger] final(self)@.perms[i] == (if raw {
                            Perm(PERM_WRITE | PERM_RAW)
                        } else {
                            Perm(PERM_WRITE | PERM_READ)
                        })
                    &&& forall|i: int|
                        p.0 + size <= i < p.0 + spec_aligned_size(size)
                            ==> #[trigger] final(self)@.perms[i] == Perm(0)
                    &&& final(self)@.allocs == old(self)@.allocs.insert(p, size)
                    &&& final(self)@.brk.0 == p.0 + spec_aligned_size(size)
                },
                Err(e) => {
                    &&& final(self)@ == old(self)@
                    &&& (size + 0xfff > usize::MAX || old(self)@.brk.0 + spec_aligned_size(size)
                        > old(self)@.size())
                    &&& e == (if size + 0xfff > usize::MAX {
                        Error::AddressIntegerOverflow { addr: old(self)@.brk, size }
                    } else if old(self)@.brk.0 + spec_aligned_size(size) > usize::MAX {
                        Error::AddressIntegerOverflow {
                            addr: old(self)@.brk,
                            size: spec_aligned_size(size),
                        }
                    } else {
                        Error::InvalidAddress {
                            addr: old(self)@.brk,
                            size: spec_aligned_size(size),
                        }
                    })
                },
            },
    {
        // 16-byte alignment. A guard region is kept between chunks. This
        // region has 0 permissions, which allows to detect OOB.
        let padded = match size.checked_add(0xfff) {
            Some(padded) => padded,
            None => {
                return Err(Error::AddressIntegerOverflow { addr: self.brk, size });
            },
        };
        let aligned_size = padded & !0xf;

        proof {
            crate::bits::lemma_align16(padded);
            assert(size <= aligned_size <= size + 0xfff);
            assert(aligned_size == spec_aligned_size(size));
        }

        // Make sure the full memory region (allocated bytes + guard region)
        // is valid and starts with 0 permissions.
        match self.set_perms(self.brk, aligned_size, Perm(0)) {
            Ok(()) => {},
            Err(e) => {
                return Err(e);
            },
        }

        // Set permissions according to the `raw` value, which enables the
        // detection of uninit faults.
        let perms = if raw {
            Perm(PERM_WRITE | PERM_RAW)
        } else {
            Perm(PERM_WRITE | PERM_READ)
        };
        match self.set_perms(self.brk, size, perms) {
            Ok(()) => {},
            Err(e) => {
                proof {
                    // The requested bytes lie inside the region just
                    // validated, so this cannot fail.
                    assert(false);
                }
                return Err(e);
            },
        }

        proof {
            let d0 = old(self)@.dirty;
            let b = old(self)@.brk;
            assert forall|x: int|
                span_start(b) <= x < span_end(b, size as int) implies spec_mark(
                d0,
                span_start(b),
                span_end(b, aligned_size as int),
            ).contains(#[trigger] (x as usize)) by {
                lemma_div_is_ordered(b.0 + size - 1, b.0 + aligned_size - 1, DIRTY_BLOCK_SIZE as int);
                lemma_mark_contains(
                    d0,
                    span_start(b),
                    span_end(b, aligned_size as int),
                    x as usize,
                );
            }
            lemma_mark_absorbed(
                spec_mark(d0, span_start(b), span_end(b, aligned_size as int)),
                span_start(b),
                span_end(b, size as int),
            );
        }

        // Update the list of active allocations.
        let prev_brk = self.brk;
        let ghost mid = *self;
        allocs_insert(&mut self.active_allocs, prev_brk, size);

        // Update brk and save the previous value, where the allocated memory
        // starts.
        self.brk = VirtAddr(prev_brk.0 + aligned_size);

        proof {
            assert(mid.wf());
            assert(self.memory@ == mid.memory@);
            assert(self.perms@ == mid.perms@);
            assert(self.dirty@ == mid.dirty@);
            assert(self.dirty_bitmap@ == mid.dirty_bitmap@);
            assert(self.size == mid.size);
            assert forall|j: int|
                0 <= j < self.active_allocs@.len() implies ((#[trigger] self.active_allocs@[j]).0.0
                as int) + self.active_allocs@[j].1 <= self.size by {
                if self.active_allocs@[j] != (prev_brk, size) {
                    assert(mid.active_allocs@.contains(self.active_allocs@[j]));
                    let t = choose|t: int|
                        0 <= t < mid.active_allocs@.len() && mid.active_allocs@[t]
                            == self.active_allocs@[j];
                    assert(((mid.active_allocs@[t]).0.0 as int) + mid.active_allocs@[t].1
                        <= mid.size);
                }
            }
            assert(self.wf());
        }

        Ok(prev_brk)
    }

    /// Strict memory free. The permissions of the freed bytes are set to
    /// zero, so that later accesses fault; freeing an address that is not a
    /// live allocation base reports `InvalidFree`.
    pub fn free(&mut self, addr: VirtAddr) -> (r: Result<(), Error>)
        requires
            old(self).wf(),
        ensures
            final(self).wf(),
            match r {
                Ok(()) => {
                    &&& old(self)@.allocs.dom().contains(addr)
                    &&& mutated_range(
                        old(self)@,
                        final(self)@,
                        addr,
                        old(self)@.allocs[addr] as int,
                    )
                    &&& final(self)@.mem == old(self)@.mem
                    &&& forall|i: int|
                        addr.0 <= i < addr.0 + old(self)@.allocs[addr]
                            ==> #[trigger] final(self)@.perms[i] == Perm(0)
                    &&& final(self)@.brk == old(self)@.brk
                    &&& final(self)@.allocs == old(self)@.allocs.remove(addr)
                },
                Err(e) => {
                    &&& final(self)@ == old(self)@
                    &&& !old(self)@.allocs.dom().contains(addr)
                    &&& e == (Error::InvalidFree { addr })
                },
            },
    {
        proof {
            lemma_alloc_map_props(self.active_allocs@);
        }
        match allocs_find(&self.active_allocs, addr) {
            Some(k) => {
                let entry = self.active_allocs.remove(k);
                proof {
                    let v0 = old(self).active_allocs@;
                    lemma_alloc_map_remove(v0, k as int);
                    v0.remove_ensures(k as int);
                    assert(self.memory@ == old(self).memory@);
                    assert(self.perms@ == old(self).perms@);
                    assert(self.dirty@ == old(self).dirty@);
                    assert(self.dirty_bitmap@ == old(self).dirty_bitmap@);
                    assert forall|t: int|
                        0 <= t < self.active_allocs@.len() implies ((#[trigger] self
                        .active_allocs@[t]).0.0 as int) + self.active_allocs@[t].1 <= self.size by {
                        if t < k {
                            assert(self.active_allocs@[t] == v0[t]);
                        } else {
                            assert(self.active_allocs@[t] == v0[t + 1]);
                        }
                    }
                    assert(self.wf());
                }
                // The permissions of the freed memory are set to 0, which
                // allows to detect UAF.
                match self.set_perms(addr, entry.1, Perm(0)) {
                    Ok(()) => {},
                    Err(e) => {
                        proof {
                            // Live allocations lie inside the arena, so this
                            // cannot fail.
                            assert(false);
                        }
                        return Err(e);
                    },
                }
                Ok(())
            },
            None => {
                // If the address is not in the list of active allocations,
                // this is an invalid free. This can happen due to a double
                // free or a corrupted heap.
                Err(Error::InvalidFree { addr })
            },
        }
    }

    /// Returns the size of the allocation corresponding to the virtual
    /// address `addr`.
    pub fn alloc_size(&self, addr: VirtAddr) -> (r: Option<usize>)
        requires
            self.wf(),
        ensures
            r == (if self@.allocs.dom().contains(addr) {
                Some(self@.allocs[addr])
            } else {
                None::<usize>
            }),
    {
        proof {
            lemma_alloc_map_props(self.active_allocs@);
        }
        match allocs_find(&self.active_allocs, addr) {
            Some(k) => Some(self.active_allocs[k].1),
            None => None,
        }
    }

    /// Re-establishes the invariant at the end of a reset, and derives the
    /// restoration guarantees: a receiver that tracked the donor is now
    /// byte-equal to it, and a receiver that was clean kept its bytes.
    proof fn lemma_reset_wf(self, pre: Mmu, donor: Mmu)
        requires
            pre.wf(),
            donor.wf(),
            pre.size == donor.size,
            self.size == pre.size,
            self.memory@ == reset_mem(pre, donor),
            self.perms@ == reset_perms(pre, donor),
            self.dirty@ == Seq::<usize>::empty(),
            self.dirty_cap == pre.dirty_cap,
            self.dirty_bitmap@.len() == pre.dirty_bitmap@.len(),
            forall|w: int|
                0 <= w < self.dirty_bitmap@.len() ==> #[trigger] self.dirty_bitmap@[w] == 0,
            self.brk == donor.brk,
            self.active_allocs@ == donor.active_allocs@,
        ensures
            self.wf(),
            pre@.tracks(donor@) ==> self.memory@ == donor.memory@ && self.perms@ == donor.perms@
                && self@.tracks(donor@),
            pre.dirty@.len() == 0 ==> self.memory@ == pre.memory@ && self.perms@ == pre.perms@,
    {
        lemma_bit64_zero();
        let nb = num_blocks(self.size as int);

        assert forall|b: int|
            0 <= b < nb implies !(bit64(
            #[trigger] self.dirty_bitmap@[b / 64],
            (b % 64) as u64,
        )) by {
            lemma_word_index(b, nb);
            assert(self.dirty_bitmap@[b / 64] == 0);
        }
        assert(self.wf());

        if pre@.tracks(donor@) {
            assert forall|i: int|
                0 <= i < self.memory@.len() implies #[trigger] self.memory@[i] == donor.memory@[i]
                && self.perms@[i] == donor.perms@[i] by {
                if !pre.dirty@.contains(block_of(i) as usize) {
                    assert(pre@.mem[i] == donor@.mem[i] && pre@.perms[i] == donor@.perms[i]);
                }
            }
            assert(self.memory@ =~= donor.memory@);
            assert(self.perms@ =~= donor.perms@);
        }

        if pre.dirty@.len() == 0 {
            assert(self.memory@ =~= pre.memory@);
            assert(self.perms@ =~= pre.perms@);
        }
    }

    /// Re-establishes the invariant and the marking equation after setting
    /// the bit of `block` and appending it to the dirty list. `self` is the
    /// state after the step; its bitmap word `idx` was `w` before.
    proof fn lemma_mark_step(
        self,
        prev: Mmu,
        addr: VirtAddr,
        size: usize,
        block: usize,
        idx: usize,
        bit: usize,
        w: u64,
    )
        requires
            prev.wf(),
            span_start(addr) <= block < span_end(addr, size as int),
            span_end(addr, size as int) <= num_blocks(prev@.size()),
            idx == block as int / 64,
            bit == block as int % 64,
            w == prev.dirty_bitmap@[idx as int],
            !bit64(w, bit as u64),
            self.size == prev.size,
            self.memory == prev.memory,
            self.perms == prev.perms,
            self.brk == prev.brk,
            self.active_allocs == prev.active_allocs,
            self.dirty_cap == prev.dirty_cap,
            self.dirty@ == prev.dirty@.push(block),
            self.dirty_bitmap@ == prev.dirty_bitmap@.update(idx as int, w | (1u64 << (bit as u64))),
        ensures
            self.wf(),
            spec_mark(prev.dirty@, block as int, span_end(addr, size as int)) == spec_mark(
                self.dirty@,
                block as int + 1,
                span_end(addr, size as int),
            ),
    {
        let nb = num_blocks(prev@.size());
        lemma_word_index(block as int, nb);
        lemma_bit64_set(w, bit as u64);

        // The block was not yet dirty: its bit was clear.
        assert(!prev.dirty@.contains(block));

        // Marking pushes exactly this block.
        assert(spec_mark(prev.dirty@, block as int, span_end(addr, size as int)) == spec_mark(
            prev.dirty@.push(block),
            block as int + 1,
            span_end(addr, size as int),
        ));

        // Bit-for-bit correspondence of the updated bitmap.
        assert forall|b: int| 0 <= b < nb implies (bit64(
            #[trigger] self.dirty_bitmap@[b / 64],
            (b % 64) as u64,
        ) <==> self.dirty@.contains(b as usize)) by {
            lemma_word_index(b, nb);
            lemma_push_contains(prev.dirty@, block, b as usize);
            if b == block as int {
                assert(bit64(self.dirty_bitmap@[b / 64], (b % 64) as u64));
            } else if b / 64 == idx as int {
                // Same word, different bit.
                assert(b % 64 != bit as int);
                assert(bit64(self.dirty_bitmap@[b / 64], (b % 64) as u64) == bit64(
                    prev.dirty_bitmap@[b / 64],
                    (b % 64) as u64,
                ));
            } else {
                assert(self.dirty_bitmap@[b / 64] == prev.dirty_bitmap@[b / 64]);
            }
        }

        // Bits past the last block stay clear.
        assert forall|ww: int, j: int|
            0 <= ww < self.dirty_bitmap@.len() && 0 <= j < 64 && 64 * ww + j >= nb
                implies !(#[trigger] bit64(self.dirty_bitmap@[ww], j as u64)) by {
            if ww == idx as int {
                // Bit `bit` of this word is the bit of `block`, which lies
                // below `nb`; the bit at hand is a different one.
                assert(j != bit as int);
                assert(bit64(self.dirty_bitmap@[ww], j as u64) == bit64(
                    prev.dirty_bitmap@[ww],
                    j as u64,
                ));
            } else {
                assert(self.dirty_bitmap@[ww] == prev.dirty_bitmap@[ww]);
            }
        }

        // Every nonzero word still holds the bit of some dirty block.
        assert forall|ww: int|
            0 <= ww < self.dirty_bitmap@.len() && #[trigger] self.dirty_bitmap@[ww] != 0
                implies exists|j: int|
            0 <= j < self.dirty@.len() && (#[trigger] self.dirty@[j]) / 64 == ww by {
            if ww == idx as int {
                assert(self.dirty@[self.dirty@.len() - 1] == block);
                assert((self.dirty@[self.dirty@.len() - 1] as int) / 64 == ww);
            } else {
                assert(prev.dirty_bitmap@[ww] != 0);
                let j = choose|j: int|
                    0 <= j < prev.dirty@.len() && (#[trigger] prev.dirty@[j]) / 64 == ww;
                assert(self.dirty@[j] == prev.dirty@[j]);
            }
        }
    }
}

/// Returns a zero-filled byte arena of length `n`.
fn byte_arena(n: usize) -> (r: Vec<u8>)
    ensures
        r@ == Seq::new(n as nat, |i: int| 0u8),
{
    let mut r: Vec<u8> = Vec::with_capacity(n);
    let mut i: usize = 0;
    while i < n
        invariant
            i <= n,
            r@ =~= Seq::new(i as nat, |k: int| 0u8),
        decreases n - i,
    {
        r.push(0);
        i = i + 1;
    }
    proof {
        assert(r@ =~= Seq::new(n as nat, |i: int| 0u8));
    }
    r
}

/// Returns a no-permission arena of length `n`.
fn perm_arena(n: usize) -> (r: Vec<Perm>)
    ensures
        r@ == Seq::new(n as nat, |i: int| Perm(0)),
{
    let mut r: Vec<Perm> = Vec::with_capacity(n);
    let mut i: usize = 0;
    while i < n
        invariant
            i <= n,
            r@ =~= Seq::new(i as nat, |k: int| Perm(0)),
        decreases n - i,
    {
        r.push(Perm(0));
        i = i + 1;
    }
    proof {
        assert(r@ =~= Seq::new(n as nat, |i: int| Perm(0)));
    }
    r
}

/// Returns an all-zero word vector of length `n`.
fn zero_words(n: usize) -> (r: Vec<u64>)
    ensures
        r@ == Seq::new(n as nat, |i: int| 0u64),
{
    let mut r: Vec<u64> = Vec::with_capacity(n);
    let mut i: usize = 0;
    while i < n
        invariant
            i <= n,
            r@ =~= Seq::new(i as nat, |k: int| 0u64),
        decreases n - i,
    {
        r.push(0);
        i = i + 1;
    }
    proof {
        assert(r@ =~= Seq::new(n as nat, |i: int| 0u64));
    }
    r
}

/// Returns a copy of a byte vector.
fn copy_bytes(v: &Vec<u8>) -> (r: Vec<u8>)
    ensures
        r@ == v@,
{
    let mut r: Vec<u8> = Vec::with_capacity(v.len());
    let mut i: usize = 0;
    while i < v.len()
        invariant
            i <= v@.len(),
            r@ =~= v@.subrange(0, i as int),
        decreases v@.len() - i,
    {
        r.push(v[i]);
        i = i + 1;
    }
    proof {
        assert(r@ =~= v@);
    }
    r
}

/// Returns a copy of a permission vector.
fn copy_perms(v: &Vec<Perm>) -> (r: Vec<Perm>)
    ensures
        r@ == v@,
{
    let mut r: Vec<Perm> = Vec::with_capacity(v.len());
    let mut i: usize = 0;
    while i < v.len()
        invariant
            i <= v@.len(),
            r@ =~= v@.subrange(0, i as int),
        decreases v@.len() - i,
    {
        r.push(v[i]);
        i = i + 1;
    }
    proof {
        assert(r@ =~= v@);
    }
    r
}

/// Returns a copy of an allocation list.
fn copy_allocs(v: &Vec<(VirtAddr, usize)>) -> (r: Vec<(VirtAddr, usize)>)
    ensures
        r@ == v@,
{
    let mut r: Vec<(VirtAddr, usize)> = Vec::with_capacity(v.len());
    let mut i: usize = 0;
    while i < v.len()
        invariant
            i <= v@.len(),
            r@ =~= v@.subrange(0, i as int),
        decreases v@.len() - i,
    {
        r.push(v[i]);
        i = i + 1;
    }
    proof {
        assert(r@ =~= v@);
    }
    r
}

} // verus!
