//! The fixed arena and the claiming allocator backend.
//!
//! Raw allocation addresses are modelled as plain offsets into the arena's
//! byte region, so the backend's accounting, its alignment arithmetic and
//! the copy performed on reallocation are all stated over the bytes
//! themselves. The backend hands memory out by advancing a high-water mark,
//! confined to the arena, and never returns memory to the environment.

use vstd::prelude::*;
use vstd::arithmetic::div_mod::lemma_fundamental_div_mod;
use vstd::arithmetic::div_mod::lemma_mod_division_less_than_divisor;
use vstd::arithmetic::div_mod::lemma_mod_multiples_basic;

verus! {

/// `n` is a power of two: 1, 2, 4, 8, ...
pub open spec fn is_power_of_two(n: int) -> bool
    decreases n,
{
    if n <= 0 {
        false
    } else if n == 1 {
        true
    } else {
        n % 2 == 0 && is_power_of_two(n / 2)
    }
}

/// The smallest multiple of `align` at or above `n`.
pub open spec fn align_up(n: int, align: int) -> int {
    if n % align == 0 {
        n
    } else {
        n + align - n % align
    }
}

/// Rounding up to an alignment lands on a multiple of it, at most
/// `align - 1` bytes further on.
pub proof fn lemma_align_up(n: int, align: int)
    requires
        align >= 1,
        n >= 0,
    ensures
        align_up(n, align) % align == 0,
        n <= align_up(n, align) < n + align,
{
    lemma_fundamental_div_mod(n, align);
    lemma_mod_division_less_than_divisor(n, align);
    let r = n % align;
    if r != 0 {
        let k = n / align;
        assert(n + align - r == align * (k + 1)) by (nonlinear_arith)
            requires
                n == align * k + r;
        lemma_mod_multiples_basic(k + 1, align);
        assert(align * (k + 1) == (k + 1) * align) by (nonlinear_arith);
    }
}

/// Whether `a` is a power of two, decided by repeated halving.
pub fn check_power_of_two(a: usize) -> (r: bool)
    ensures
        r == is_power_of_two(a as int),
{
    if a == 0 {
        return false;
    }
    let mut v = a;
    while v > 1
        invariant
            v >= 1,
            is_power_of_two(a as int) == is_power_of_two(v as int),
        decreases v,
    {
        if v % 2 != 0 {
            return false;
        }
        v = v / 2;
    }
    true
}

/// A fixed-capacity byte region, owned once for the lifetime of the
/// process and never resized.
pub struct Arena {
    pub bytes: Vec<u8>,
}

impl Arena {
    /// The region's size; no access ever goes at or beyond it.
    pub open spec fn capacity(self) -> int {
        self.bytes@.len() as int
    }

    /// A zero-filled region of the given capacity.
    pub fn new(capacity: usize) -> (a: Arena)
        ensures
            a.capacity() == capacity,
            forall|i: int| 0 <= i < capacity ==> a.bytes@[i] == 0u8,
    {
        let mut bytes: Vec<u8> = Vec::new();
        let mut k: usize = 0;
        while k < capacity
            invariant
                k <= capacity,
                bytes@.len() == k,
                forall|i: int| 0 <= i < k ==> bytes@[i] == 0u8,
            decreases capacity - k,
        {
            bytes.push(0);
            k = k + 1;
        }
        Arena { bytes }
    }
}

/// The arena-claiming backend: a high-water mark over a fixed arena. The
/// bytes below the mark have been handed out; a request that cannot fit
/// below the capacity fails rather than corrupting memory.
pub struct ArenaBackend {
    pub arena: Arena,
    pub claimed: usize,
}

/// The exact condition under which the claiming backend accepts a request:
/// the alignment is a power of two and the aligned extent fits the arena.
pub open spec fn can_claim(pre: ArenaBackend, size: int, align: int) -> bool {
    is_power_of_two(align) && align_up(pre.claimed as int, align) + size <= pre.capacity()
}

/// What one allocation step does: on success the returned address is the
/// high-water mark rounded up to the alignment, the mark moves past the new
/// block, and no byte of the arena is written; on failure nothing changes.
pub open spec fn alloc_post(
    pre: ArenaBackend,
    post: ArenaBackend,
    size: int,
    align: int,
    r: Option<usize>,
) -> bool {
    &&& post.wf()
    &&& post.arena.bytes@ == pre.arena.bytes@
    &&& (r is Some) <==> can_claim(pre, size, align)
    &&& match r {
        Some(addr) => {
            &&& addr == align_up(pre.claimed as int, align)
            &&& addr as int % (align as int) == 0
            &&& pre.claimed <= addr
            &&& post.claimed == addr + size
        },
        None => post.claimed == pre.claimed,
    }
}

/// What one reallocation step does: on success a fresh block is claimed,
/// the leading `min(old_size, new_size)` bytes of the old block are copied
/// into it, and every byte below the old high-water mark — the old block
/// included — is untouched; on failure nothing changes at all.
pub open spec fn realloc_post(
    pre: ArenaBackend,
    post: ArenaBackend,
    addr: int,
    old_size: int,
    align: int,
    new_size: int,
    r: Option<usize>,
) -> bool {
    &&& post.wf()
    &&& post.capacity() == pre.capacity()
    &&& (r is Some) <==> can_claim(pre, new_size, align)
    &&& match r {
        Some(naddr) => {
            &&& naddr == align_up(pre.claimed as int, align)
            &&& naddr as int % align == 0
            &&& pre.claimed <= naddr
            &&& post.claimed == naddr + new_size
            &&& forall|j: int|
                naddr <= j < naddr + old_size && j < naddr + new_size
                    ==> #[trigger] post.arena.bytes@[j] == pre.arena.bytes@[addr + (j - naddr)]
            &&& forall|j: int|
                0 <= j < pre.claimed ==> #[trigger] post.arena.bytes@[j] == pre.arena.bytes@[j]
        },
        None => {
            &&& post.claimed == pre.claimed
            &&& post.arena.bytes@ == pre.arena.bytes@
        },
    }
}

impl ArenaBackend {
    /// The accounting never exceeds the arena.
    pub open spec fn wf(self) -> bool {
        self.claimed <= self.arena.capacity()
    }

    pub open spec fn capacity(self) -> int {
        self.arena.capacity()
    }

    /// A backend that has claimed nothing yet of the given arena.
    pub fn new(arena: Arena) -> (b: ArenaBackend)
        ensures
            b.wf(),
            b.claimed == 0,
            b.arena == arena,
    {
        ArenaBackend { arena, claimed: 0 }
    }

    /// Claims `size` bytes at the next offset aligned to `align`; fails,
    /// leaving everything unchanged, when the alignment is not a power of
    /// two or the aligned extent does not fit the capacity.
    pub fn allocate(&mut self, size: usize, align: usize) -> (r: Option<usize>)
        requires
            old(self).wf(),
        ensures
            alloc_post(*old(self), *final(self), size as int, align as int, r),
    {
        if !check_power_of_two(align) {
            return None;
        }
        proof {
            lemma_align_up(self.claimed as int, align as int);
        }
        let rem = self.claimed % align;
        let pad = if rem == 0 {
            0
        } else {
            align - rem
        };
        let cap = self.arena.bytes.len();
        if pad > usize::MAX - self.claimed {
            return None;
        }
        let base = self.claimed + pad;
        if base > cap {
            return None;
        }
        if size > cap - base {
            return None;
        }
        self.claimed = base + size;
        Some(base)
    }

    /// Releasing a block leaves the accounting unchanged: the claiming
    /// backend advances a high-water mark and never reuses freed memory, so
    /// a release — a null or stale address included — is a safe no-op.
    pub fn deallocate(&mut self, _addr: usize, _size: usize, _align: usize)
        requires
            old(self).wf(),
        ensures
            final(self).claimed == old(self).claimed,
            final(self).arena.bytes@ == old(self).arena.bytes@,
            final(self).wf(),
    {
    }

    /// Moves a block of `old_size` bytes at `addr` into a fresh block of
    /// `new_size` bytes: the leading `min(old_size, new_size)` bytes are
    /// copied, every byte below the old high-water mark — the original
    /// block included — is left untouched, and on failure nothing changes
    /// at all.
    pub fn reallocate(
        &mut self,
        addr: usize,
        old_size: usize,
        align: usize,
        new_size: usize,
    ) -> (r: Option<usize>)
        requires
            old(self).wf(),
            addr + old_size <= old(self).claimed,
        ensures
            realloc_post(
                *old(self),
                *final(self),
                addr as int,
                old_size as int,
                align as int,
                new_size as int,
                r,
            ),
    {
        let ghost pre = *self;
        let res = self.allocate(new_size, align);
        match res {
            None => None,
            Some(naddr) => {
                let copy_len = if old_size <= new_size {
                    old_size
                } else {
                    new_size
                };
                let mut k: usize = 0;
                while k < copy_len
                    invariant
                        k <= copy_len,
                        copy_len <= old_size,
                        copy_len <= new_size,
                        addr + old_size <= pre.claimed,
                        pre.claimed <= naddr,
                        naddr + new_size <= self.arena.bytes@.len(),
                        self.claimed == naddr + new_size,
                        self.arena.bytes@.len() == pre.arena.bytes@.len(),
                        forall|j: int|
                            naddr <= j < naddr + k
                                ==> #[trigger] self.arena.bytes@[j]
                                    == pre.arena.bytes@[addr + (j - naddr)],
                        forall|j: int|
                            0 <= j < self.arena.bytes@.len() && !(naddr <= j < naddr + k)
                                ==> #[trigger] self.arena.bytes@[j] == pre.arena.bytes@[j],
                    decreases copy_len - k,
                {
                    let b = self.arena.bytes[addr + k];
                    self.arena.bytes[naddr + k] = b;
                    k = k + 1;
                }
                Some(naddr)
            },
        }
    }

    /// The volatile-access primitive: writes one byte at an arena offset.
    pub fn store(&mut self, addr: usize, value: u8)
        requires
            old(self).wf(),
            addr < old(self).capacity(),
        ensures
            final(self).wf(),
            final(self).claimed == old(self).claimed,
            final(self).arena.bytes@ == old(self).arena.bytes@.update(addr as int, value),
    {
        self.arena.bytes[addr] = value;
    }

    /// The volatile-access primitive: reads one byte at an arena offset.
    pub fn load(&self, addr: usize) -> (r: u8)
        requires
            addr < self.capacity(),
        ensures
            r == self.arena.bytes@[addr as int],
    {
        self.arena.bytes[addr]
    }
}

/// Capacity invariant: an allocation step never reports success with more
/// bytes claimed than the arena holds — the high-water mark stays within
/// the capacity after every step — and a request whose aligned extent
/// exceeds the capacity is refused rather than satisfied.
pub proof fn lemma_capacity_invariant(
    pre: ArenaBackend,
    post: ArenaBackend,
    size: int,
    align: int,
    r: Option<usize>,
)
    requires
        pre.wf(),
        size >= 0,
        alloc_post(pre, post, size, align, r),
    ensures
        post.claimed <= post.capacity(),
        r is Some ==> pre.claimed <= post.claimed <= pre.capacity(),
        align_up(pre.claimed as int, align) + size > pre.capacity() ==> r is None,
{
    if r is Some {
        lemma_align_up(pre.claimed as int, align);
    }
}

/// Reallocation content preservation: after a successful regrow to at
/// least the old size, the leading `old_size` bytes at the new address are
/// the bytes that stood at the old address.
pub proof fn lemma_realloc_preserves_content(
    pre: ArenaBackend,
    post: ArenaBackend,
    addr: int,
    old_size: int,
    align: int,
    new_size: int,
    naddr: usize,
)
    requires
        realloc_post(pre, post, addr, old_size, align, new_size, Some(naddr)),
        old_size <= new_size,
    ensures
        forall|j: int|
            naddr <= j < naddr + old_size
                ==> #[trigger] post.arena.bytes@[j] == pre.arena.bytes@[addr + (j - naddr)],
{
}

} // verus!