//! The bump allocator.
//!
//! The loader works in terms of an owned region of memory, carving
//! allocations from it front to back.  A cursor marks the boundary
//! between allocated and unallocated bytes; it only ever grows, so no
//! two allocations overlap, and freeing is a no-op: the region is
//! reclaimed wholesale when its owner drops it.

use vstd::prelude::*;

verus! {

/// A heap created by destructuring a mutable byte region: its base
/// address and length.
#[derive(Clone, Copy, Debug, PartialEq, Eq, Structural)]
pub struct SliceHeap {
    base: u64,
    len: u64,
}

impl SliceHeap {
    /// The base address of the region.
    pub closed spec fn base_spec(self) -> u64 {
        self.base
    }

    /// The length of the region in bytes.
    pub closed spec fn len_spec(self) -> u64 {
        self.len
    }

    /// A heap over the `len` bytes starting at `base`.
    pub fn new(base: u64, len: u64) -> (r: SliceHeap)
        requires
            base + len <= u64::MAX,
        ensures
            r.base_spec() == base,
            r.len_spec() == len,
    {
        SliceHeap { base, len }
    }
}

/// A bump allocator over a heap: the cursor denotes the point between
/// allocated and unallocated memory.
#[derive(Clone, Copy, Debug)]
pub struct BumpAlloc {
    arena: SliceHeap,
    cursor: u64,
}

/// One allocation: an aligned base address and a length in bytes.
#[derive(Clone, Copy, Debug, PartialEq, Eq, Structural)]
pub struct Allocation {
    /// First byte of the allocation.
    pub base: u64,
    /// Number of bytes allocated.
    pub len: u64,
}

/// The smallest multiple-aligned address at or above `a`.
pub open spec fn align_up(a: int, align: int) -> int {
    a + ((align - a % align) % align)
}

/// The transition one successful `alloc_bytes(align, size)` call makes:
/// the result lies inside the arena at or above the old cursor, is
/// aligned as requested, and the cursor moves to its end.
pub open spec fn alloc_transition(
    pre: BumpAlloc,
    post: BumpAlloc,
    align: u64,
    size: u64,
    r: Allocation,
) -> bool {
    &&& post.arena_spec() == pre.arena_spec()
    &&& r.len == size
    &&& r.base % align == 0
    &&& pre.arena_spec().base_spec() + pre.cursor_spec() <= r.base
    &&& r.base + r.len <= pre.arena_spec().base_spec() + pre.arena_spec().len_spec()
    &&& post.cursor_spec() == r.base + r.len - pre.arena_spec().base_spec()
}

impl BumpAlloc {
    /// The arena this allocator owns.
    pub closed spec fn arena_spec(self) -> SliceHeap {
        self.arena
    }

    /// The current cursor.
    pub closed spec fn cursor_spec(self) -> u64 {
        self.cursor
    }

    /// Well-formedness: the cursor lies within the arena.
    pub open spec fn wf(self) -> bool {
        &&& self.cursor_spec() <= self.arena_spec().len_spec()
        &&& self.arena_spec().base_spec() + self.arena_spec().len_spec() <= u64::MAX
    }

    /// A new allocator owning `arena`, with the cursor at its start.
    pub fn new(arena: SliceHeap) -> (r: BumpAlloc)
        requires
            arena.base_spec() + arena.len_spec() <= u64::MAX,
        ensures
            r.wf(),
            r.arena_spec() == arena,
            r.cursor_spec() == 0,
    {
        BumpAlloc { arena, cursor: 0 }
    }

    /// Allocates `size` bytes aligned to `align` (absolute alignment:
    /// the returned base, not the offset, is a multiple of `align`).
    /// The block handed out is the lowest aligned position at or past
    /// the cursor; the call fails exactly when no such block fits in
    /// what is left.
    pub fn alloc_bytes(&mut self, align: u64, size: u64) -> (r: Option<Allocation>)
        requires
            old(self).wf(),
            0 < align,
        ensures
            final(self).wf(),
            final(self).arena_spec() == old(self).arena_spec(),
            old(self).cursor_spec() <= final(self).cursor_spec(),
            r is None <==> align_up(
                old(self).arena_spec().base_spec() + old(self).cursor_spec(),
                align as int,
            ) + size > old(self).arena_spec().base_spec() + old(self).arena_spec().len_spec(),
            match r {
                Some(a) => {
                    &&& alloc_transition(*old(self), *final(self), align, size, a)
                    &&& a.base == align_up(
                        old(self).arena_spec().base_spec() + old(self).cursor_spec(),
                        align as int,
                    )
                },
                None => *final(self) == *old(self),
            },
    {
        let base = self.arena.base;
        let here = base + self.cursor;
        let pad = (align - (here % align)) % align;
        proof {
            vstd::arithmetic::div_mod::lemma_mod_bound(here as int, align as int);
            vstd::arithmetic::div_mod::lemma_mod_bound(
                (align - (here % align)) as int,
                align as int,
            );
        }
        if pad > u64::MAX - here {
            proof {
                assert(align_up(here as int, align as int) > u64::MAX);
            }
            return None;
        }
        let aligned = here + pad;
        proof {
            let q = here as int / align as int;
            let rm = here as int % align as int;
            vstd::arithmetic::div_mod::lemma_fundamental_div_mod(here as int, align as int);
            if here % align == 0 {
                vstd::arithmetic::div_mod::lemma_mod_multiples_basic(1, align as int);
                vstd::arithmetic::mul::lemma_mul_basics(align as int);
                assert(pad == 0);
                vstd::arithmetic::div_mod::lemma_mod_multiples_basic(q, align as int);
                assert(aligned as int == align as int * q);
            } else {
                vstd::arithmetic::div_mod::lemma_small_mod(
                    (align - (here % align)) as nat,
                    align as nat,
                );
                assert(0 < rm < align);
                assert(pad == align - rm);
                assert(aligned == here + align - rm);
                vstd::arithmetic::div_mod::lemma_mod_multiples_basic(q + 1, align as int);
                assert(align as int * q + align == align as int * (q + 1)) by (nonlinear_arith);
                assert(aligned as int == align as int * (q + 1));
            }
            vstd::arithmetic::mul::lemma_mul_is_commutative(align as int, q);
            vstd::arithmetic::mul::lemma_mul_is_commutative(align as int, q + 1);
        }
        if size > self.arena.len || aligned > base + (self.arena.len - size) {
            return None;
        }
        self.cursor = (aligned + size) - base;
        Some(Allocation { base: aligned, len: size })
    }

    /// Allocates one 4 KiB page frame, aligned to 4 KiB: the lowest
    /// such frame at or past the cursor, failing exactly when none is
    /// left.
    pub fn alloc_page(&mut self) -> (r: Option<Allocation>)
        requires
            old(self).wf(),
        ensures
            final(self).wf(),
            final(self).arena_spec() == old(self).arena_spec(),
            old(self).cursor_spec() <= final(self).cursor_spec(),
            r is None <==> align_up(
                old(self).arena_spec().base_spec() + old(self).cursor_spec(),
                4096,
            ) + 4096 > old(self).arena_spec().base_spec() + old(self).arena_spec().len_spec(),
            match r {
                Some(a) => {
                    &&& alloc_transition(*old(self), *final(self), 4096, 4096, a)
                    &&& a.base == align_up(
                        old(self).arena_spec().base_spec() + old(self).cursor_spec(),
                        4096,
                    )
                    &&& a.base % 4096 == 0
                    &&& a.len == 4096
                },
                None => *final(self) == *old(self),
            },
    {
        self.alloc_bytes(4096, 4096)
    }
}

/// The bump allocator never hands out overlapping regions: of two
/// successful allocations, the earlier one ends at or before the later
/// one begins.
pub proof fn lemma_bump_no_overlap(
    s0: BumpAlloc,
    s1: BumpAlloc,
    s2: BumpAlloc,
    align_a: u64,
    size_a: u64,
    a: Allocation,
    align_b: u64,
    size_b: u64,
    b: Allocation,
)
    requires
        alloc_transition(s0, s1, align_a, size_a, a),
        alloc_transition(s1, s2, align_b, size_b, b),
    ensures
        a.base + a.len <= b.base,
{
}

} // verus!
