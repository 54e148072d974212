//! The allocator bridge: the one interface the managed heap layer calls,
//! wrapping exactly one allocator backend.
//!
//! The backend is either arena-claiming — fully handled here — or
//! syscall-delegating, in which case the bridge validates the request and
//! hands the surrounding program a forwarding step to perform against the
//! externally supplied allocation triad; the triad's raw answer comes back
//! through [`interpret_external`].
//!
//! Mutual exclusion is carried by exclusive ownership: every operation
//! takes the single owning handle exclusively, and a runtime that shares
//! the handle between execution contexts wraps it in its lock, holding the
//! lock for the whole operation. A fault handler that re-enters while an
//! operation is in flight would spin on that lock forever; that is a known
//! limitation of the locking discipline, not solved here.

use vstd::prelude::*;
use crate::arena::ArenaBackend;
use crate::arena::alloc_post;
use crate::arena::realloc_post;
use crate::arena::is_power_of_two;
use crate::arena::check_power_of_two;

verus! {

/// A layout request: a size together with an alignment. A layout is never
/// assumed pre-validated; the bridge checks for itself that the alignment
/// is a power of two.
pub struct Layout {
    pub size: usize,
    pub align: usize,
}

/// The two allocator strategies, interchangeable behind the bridge.
pub enum AllocatorBackend {
    /// Forwards every request to the externally supplied allocation triad
    /// and keeps no state of its own.
    SyscallDelegating,
    /// Claims memory from a fixed arena and never asks the environment for
    /// more.
    ArenaClaiming(ArenaBackend),
}

/// The bridge's answer to one request: a result it produced itself, or a
/// validated request that the surrounding program forwards to the external
/// allocation triad on the delegating backend's behalf.
pub enum AllocStep {
    Done(Option<usize>),
    Forward(Layout),
}

/// The uniform allocation interface: exactly one backend behind one
/// exclusively owned handle.
pub struct AllocatorBridge {
    pub backend: AllocatorBackend,
}

impl AllocatorBridge {
    pub open spec fn wf(self) -> bool {
        match self.backend {
            AllocatorBackend::ArenaClaiming(b) => b.wf(),
            AllocatorBackend::SyscallDelegating => true,
        }
    }

    /// A bridge over the given backend, built once at startup.
    pub fn new(backend: AllocatorBackend) -> (b: AllocatorBridge)
        requires
            match backend {
                AllocatorBackend::ArenaClaiming(inner) => inner.wf(),
                AllocatorBackend::SyscallDelegating => true,
            },
        ensures
            b.wf(),
            b.backend == backend,
    {
        AllocatorBridge { backend }
    }

    /// Requests `size` bytes aligned to `align`. The arena backend answers
    /// directly; the delegating backend yields a forwarding step once the
    /// layout is validated, and an invalid alignment fails on either.
    pub fn allocate(&mut self, size: usize, align: usize) -> (r: AllocStep)
        requires
            old(self).wf(),
        ensures
            final(self).wf(),
            match (old(self).backend, final(self).backend, r) {
                (
                    AllocatorBackend::ArenaClaiming(pre),
                    AllocatorBackend::ArenaClaiming(post),
                    AllocStep::Done(res),
                ) => alloc_post(pre, post, size as int, align as int, res),
                (
                    AllocatorBackend::SyscallDelegating,
                    AllocatorBackend::SyscallDelegating,
                    AllocStep::Forward(l),
                ) => l.size == size && l.align == align && is_power_of_two(align as int),
                (
                    AllocatorBackend::SyscallDelegating,
                    AllocatorBackend::SyscallDelegating,
                    AllocStep::Done(res),
                ) => res is None && !is_power_of_two(align as int),
                _ => false,
            },
    {
        match &mut self.backend {
            AllocatorBackend::ArenaClaiming(b) => {
                let res = b.allocate(size, align);
                AllocStep::Done(res)
            },
            AllocatorBackend::SyscallDelegating => {
                if check_power_of_two(align) {
                    AllocStep::Forward(Layout { size, align })
                } else {
                    AllocStep::Done(None)
                }
            },
        }
    }

    /// Releases a block. The arena backend's release is a safe no-op, a
    /// null address included; the delegating backend asks the surrounding
    /// program to forward the release to the external triad, which the
    /// returned flag signals.
    pub fn deallocate(&mut self, _addr: usize, _size: usize, _align: usize) -> (forward: bool)
        requires
            old(self).wf(),
        ensures
            final(self).wf(),
            match (old(self).backend, final(self).backend) {
                (AllocatorBackend::ArenaClaiming(pre), AllocatorBackend::ArenaClaiming(post)) => {
                    &&& !forward
                    &&& post.claimed == pre.claimed
                    &&& post.arena.bytes@ == pre.arena.bytes@
                },
                (AllocatorBackend::SyscallDelegating, AllocatorBackend::SyscallDelegating) => forward,
                _ => false,
            },
    {
        match &mut self.backend {
            AllocatorBackend::ArenaClaiming(b) => {
                b.deallocate(_addr, _size, _align);
                false
            },
            AllocatorBackend::SyscallDelegating => true,
        }
    }

    /// Regrows the block of `old_size` bytes at `addr` to `new_size` bytes.
    /// The arena backend copies the preserved prefix itself and leaves the
    /// original block valid and unmodified on failure; the delegating
    /// backend yields a forwarding step carrying the validated new layout.
    pub fn reallocate(
        &mut self,
        addr: usize,
        old_size: usize,
        align: usize,
        new_size: usize,
    ) -> (r: AllocStep)
        requires
            old(self).wf(),
            match old(self).backend {
                AllocatorBackend::ArenaClaiming(pre) => addr + old_size <= pre.claimed,
                AllocatorBackend::SyscallDelegating => true,
            },
        ensures
            final(self).wf(),
            match (old(self).backend, final(self).backend, r) {
                (
                    AllocatorBackend::ArenaClaiming(pre),
                    AllocatorBackend::ArenaClaiming(post),
                    AllocStep::Done(res),
                ) => realloc_post(
                    pre,
                    post,
                    addr as int,
                    old_size as int,
                    align as int,
                    new_size as int,
                    res,
                ),
                (
                    AllocatorBackend::SyscallDelegating,
                    AllocatorBackend::SyscallDelegating,
                    AllocStep::Forward(l),
                ) => l.size == new_size && l.align == align && is_power_of_two(align as int),
                (
                    AllocatorBackend::SyscallDelegating,
                    AllocatorBackend::SyscallDelegating,
                    AllocStep::Done(res),
                ) => res is None && !is_power_of_two(align as int),
                _ => false,
            },
    {
        match &mut self.backend {
            AllocatorBackend::ArenaClaiming(b) => {
                let res = b.reallocate(addr, old_size, align, new_size);
                AllocStep::Done(res)
            },
            AllocatorBackend::SyscallDelegating => {
                if check_power_of_two(align) {
                    AllocStep::Forward(Layout { size: new_size, align })
                } else {
                    AllocStep::Done(None)
                }
            },
        }
    }
}

/// The delegating path's result decision: the external allocation triad
/// signals failure with a null address, and any other address is the
/// allocation. A null result is surfaced as failure, never as success.
pub fn interpret_external(raw: usize) -> (r: Option<usize>)
    ensures
        raw == 0 ==> r is None,
        raw != 0 ==> r == Some(raw),
{
    if raw == 0 {
        None
    } else {
        Some(raw)
    }
}

} // verus!
