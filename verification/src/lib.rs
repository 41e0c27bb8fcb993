//! Core of the Hypatia cold-boot loader: typed physical and virtual
//! addresses, page frames, the recursive page map, the bump allocator,
//! descriptor tables, the interrupt command register, and the
//! multi-processor start-up sequencer.
//!
//! Virtual addresses come in four granularities (4 KiB, 2 MiB, 1 GiB and
//! 512 GiB); each granularity has an address type whose values are aligned
//! by construction, plus a page-frame type naming an aligned region of
//! physical memory of that size.

use vstd::prelude::*;

pub mod acpi;
pub mod allocator;
pub mod lapic;
pub mod loader;
pub mod cpu;
pub mod memory;
pub mod gdt;
pub mod idt;
pub mod mp;
pub mod segment;
pub mod tss;
pub mod uart;
pub mod vm;

verus! {

/// One tebibyte.
pub const TIB: u64 = 1 << 40;

/// One gibibyte.
pub const GIB: u64 = 1 << 30;

/// One mebibyte.
pub const MIB: u64 = 1 << 20;

/// One kibibyte.
pub const KIB: u64 = 1 << 10;

/// Size in bytes of a 4 KiB page.
pub const SIZE_4K: u64 = 4096;

/// Size in bytes of a 2 MiB page.
pub const SIZE_2M: u64 = 0x20_0000;

/// Size in bytes of a 1 GiB page.
pub const SIZE_1G: u64 = 0x4000_0000;

/// Size in bytes of a 512 GiB region, the reach of one root-table entry.
pub const SIZE_512G: u64 = 0x80_0000_0000;

/// Host Physical Address.
///
/// A newtype representing a host physical address.  The address lives in
/// the physical address space and is not itself dereferencable; it names a
/// byte of physical memory.
#[derive(Clone, Copy, Debug, PartialEq, Eq, Structural)]
pub struct HPA(u64);

impl HPA {
    /// Creates a new HPA from a u64.
    pub fn new(addr: u64) -> (r: HPA)
        ensures
            r.addr_spec() == addr,
    {
        HPA(addr)
    }

    /// The address as a mathematical value.
    pub closed spec fn addr_spec(self) -> u64 {
        self.0
    }

    /// Returns the address of this HPA as a u64.
    pub fn addr(self) -> (r: u64)
        ensures
            r == self.addr_spec(),
    {
        self.0
    }

    /// Returns the HPA `offset` bytes above this one.
    #[must_use]
    pub fn offset(self, offset: u64) -> (r: HPA)
        requires
            self.addr_spec() + offset <= u64::MAX,
        ensures
            r.addr_spec() == self.addr_spec() + offset,
    {
        HPA(self.0 + offset as u64)
    }
}

/// A page frame of 4 KiB: physical memory that a 4 KiB page refers to.
#[derive(Clone, Copy, Debug, PartialEq, Eq, Structural)]
pub struct PF4K(HPA);

impl PF4K {
    /// Wraps a physical address as a 4 KiB frame.
    pub fn new(pfa: HPA) -> (r: PF4K)
        ensures
            r.pfa_spec() == pfa,
    {
        PF4K(pfa)
    }

    /// The frame's base address.
    pub closed spec fn pfa_spec(self) -> HPA {
        self.0
    }

    /// Returns the physical address of the frame.
    pub fn pfa(self) -> (r: HPA)
        ensures
            r == self.pfa_spec(),
    {
        self.0
    }
}

/// A page frame of 2 MiB.
#[derive(Clone, Copy, Debug, PartialEq, Eq, Structural)]
pub struct PF2M(HPA);

impl PF2M {
    /// Wraps a physical address as a 2 MiB frame.
    pub fn new(pfa: HPA) -> (r: PF2M)
        ensures
            r.pfa_spec() == pfa,
    {
        PF2M(pfa)
    }

    /// The frame's base address.
    pub closed spec fn pfa_spec(self) -> HPA {
        self.0
    }

    /// Returns the physical address of the frame.
    pub fn pfa(self) -> (r: HPA)
        ensures
            r == self.pfa_spec(),
    {
        self.0
    }
}

/// A page frame of 1 GiB.
#[derive(Clone, Copy, Debug, PartialEq, Eq, Structural)]
pub struct PF1G(HPA);

impl PF1G {
    /// Wraps a physical address as a 1 GiB frame.
    pub fn new(pfa: HPA) -> (r: PF1G)
        ensures
            r.pfa_spec() == pfa,
    {
        PF1G(pfa)
    }

    /// The frame's base address.
    pub closed spec fn pfa_spec(self) -> HPA {
        self.0
    }

    /// Returns the physical address of the frame.
    pub fn pfa(self) -> (r: HPA)
        ensures
            r == self.pfa_spec(),
    {
        self.0
    }
}

/// A page frame of 512 GiB.
#[derive(Clone, Copy, Debug, PartialEq, Eq, Structural)]
pub struct PF512G(HPA);

impl PF512G {
    /// Wraps a physical address as a 512 GiB frame.
    pub fn new(pfa: HPA) -> (r: PF512G)
        ensures
            r.pfa_spec() == pfa,
    {
        PF512G(pfa)
    }

    /// The frame's base address.
    pub closed spec fn pfa_spec(self) -> HPA {
        self.0
    }

    /// Returns the physical address of the frame.
    pub fn pfa(self) -> (r: HPA)
        ensures
            r == self.pfa_spec(),
    {
        self.0
    }
}

/// A 4 KiB-aligned virtual page address.
#[derive(Clone, Copy, Debug, PartialEq, Eq, Structural)]
pub struct V4KA(u64);

impl V4KA {
    /// Addresses of this type are aligned by construction.
    #[verifier::type_invariant]
    pub closed spec fn inv(self) -> bool {
        self.0 % SIZE_4K == 0
    }

    /// Alignment of the addresses this type carries.
    pub closed spec fn size_spec() -> u64 {
        SIZE_4K
    }

    /// The carried address.
    pub closed spec fn addr_spec(self) -> u64 {
        self.0
    }

    /// True when `va` has the alignment this type requires.
    pub open spec fn aligned(va: u64) -> bool {
        va % SIZE_4K == 0
    }

    /// Wraps an aligned virtual address.
    pub fn new(va: u64) -> (r: V4KA)
        requires
            V4KA::aligned(va),
        ensures
            r.addr_spec() == va,
    {
        V4KA(va)
    }

    /// Rounds `va` down to the previous 4 KiB boundary.
    pub fn new_round_down(va: u64) -> (r: V4KA)
        ensures
            r.addr_spec() == va - (va % SIZE_4K),
    {
        proof {
            vstd::arithmetic::div_mod::lemma_fundamental_div_mod(va as int, SIZE_4K as int);
            vstd::arithmetic::div_mod::lemma_mod_multiples_basic(
                va as int / SIZE_4K as int,
                SIZE_4K as int,
            );
        }
        V4KA(va / SIZE_4K * SIZE_4K)
    }

    /// Rounds `va` up to the next 4 KiB boundary, saturating at the
    /// last aligned address when the next multiple lies beyond the
    /// address space.
    pub fn new_round_up(va: u64) -> (r: V4KA)
        ensures
            va + SIZE_4K - 1 <= u64::MAX ==> {
                &&& r.addr_spec() == ((va + SIZE_4K - 1) / SIZE_4K as int) * SIZE_4K
                &&& va <= r.addr_spec() < va + SIZE_4K
            },
            va + SIZE_4K - 1 > u64::MAX ==> r.addr_spec() == 0xFFFF_FFFF_FFFF_F000,
    {
        if va > u64::MAX - (SIZE_4K - 1) {
            proof {
                vstd::arithmetic::div_mod::lemma_mod_multiples_basic(
                    0xFFFF_FFFF_FFFF_F000 as int / SIZE_4K as int,
                    SIZE_4K as int,
                );
            }
            return V4KA(0xFFFF_FFFF_FFFF_F000);
        }
        proof {
            vstd::arithmetic::div_mod::lemma_fundamental_div_mod((va + SIZE_4K - 1) as int, SIZE_4K as int);
            vstd::arithmetic::div_mod::lemma_mod_multiples_basic(
                (va + SIZE_4K - 1) as int / SIZE_4K as int,
                SIZE_4K as int,
            );
        }
        V4KA((va + (SIZE_4K - 1)) / SIZE_4K * SIZE_4K)
    }

    /// Returns the carried address, which is aligned by construction.
    pub fn addr(self) -> (r: u64)
        ensures
            r == self.addr_spec(),
            r % SIZE_4K == 0,
    {
        proof {
            use_type_invariant(self);
        }
        self.0
    }

    /// Steps `count` pages forward, or `None` on overflow.
    pub fn forward_checked(start: Self, count: u64) -> (r: Option<V4KA>)
        ensures
            match r {
                Some(v) => v.addr_spec() == start.addr_spec() + count * SIZE_4K,
                None => start.addr_spec() + count * SIZE_4K > u64::MAX,
            },
    {
        proof {
            use_type_invariant(start);
            vstd::arithmetic::div_mod::lemma_mod_multiples_vanish(
                count as int,
                start.0 as int,
                SIZE_4K as int,
            );
        }
        match count.checked_mul(SIZE_4K) {
            Some(diff) => match start.0.checked_add(diff) {
                Some(fwd) => Some(V4KA(fwd)),
                None => None,
            },
            None => None,
        }
    }

    /// Steps `count` pages backward, or `None` on underflow.
    pub fn backward_checked(start: Self, count: u64) -> (r: Option<V4KA>)
        ensures
            match r {
                Some(v) => v.addr_spec() == start.addr_spec() - count * SIZE_4K,
                None => start.addr_spec() - count * SIZE_4K < 0,
            },
    {
        proof {
            use_type_invariant(start);
            vstd::arithmetic::div_mod::lemma_mod_multiples_vanish(
                -(count as int),
                start.0 as int,
                SIZE_4K as int,
            );
        }
        match count.checked_mul(SIZE_4K) {
            Some(diff) => match start.0.checked_sub(diff) {
                Some(bck) => Some(V4KA(bck)),
                None => None,
            },
            None => None,
        }
    }

    /// Counts the 4 KiB steps from `start` up to `end`; the second
    /// component is `None` when `end` lies below `start`.
    pub fn steps_between(start: &Self, end: &Self) -> (r: (u64, Option<u64>))
        ensures
            start.addr_spec() <= end.addr_spec() ==> {
                &&& r.0 == (end.addr_spec() - start.addr_spec()) / SIZE_4K as int
                &&& r.1 == Some(r.0)
            },
            start.addr_spec() > end.addr_spec() ==> r == (0u64, None::<u64>),
    {
        proof {
            use_type_invariant(start);
            use_type_invariant(end);
            vstd::arithmetic::div_mod::lemma_fundamental_div_mod(start.0 as int, SIZE_4K as int);
            vstd::arithmetic::div_mod::lemma_fundamental_div_mod(end.0 as int, SIZE_4K as int);
        }
        let s = start.0 / SIZE_4K;
        let e = end.0 / SIZE_4K;
        if s <= e {
            proof {
                vstd::arithmetic::div_mod::lemma_div_by_multiple(
                    e as int - s as int,
                    SIZE_4K as int,
                );
                vstd::arithmetic::mul::lemma_mul_inequality(s as int, e as int, SIZE_4K as int);
            }
            ((e - s) as u64, Some((e - s) as u64))
        } else {
            proof {
                vstd::arithmetic::mul::lemma_mul_strict_inequality(
                    e as int,
                    s as int,
                    SIZE_4K as int,
                );
            }
            (0, None)
        }
    }
}

/// A 2 MiB-aligned virtual page address.
#[derive(Clone, Copy, Debug, PartialEq, Eq, Structural)]
pub struct V2MA(u64);

impl V2MA {
    /// Addresses of this type are aligned by construction.
    #[verifier::type_invariant]
    pub closed spec fn inv(self) -> bool {
        self.0 % SIZE_2M == 0
    }

    /// The carried address.
    pub closed spec fn addr_spec(self) -> u64 {
        self.0
    }

    /// Wraps an aligned virtual address.
    pub fn new(va: u64) -> (r: V2MA)
        requires
            va % SIZE_2M == 0,
        ensures
            r.addr_spec() == va,
    {
        V2MA(va)
    }

    /// Rounds `va` down to the previous 2 MiB boundary.
    pub fn new_round_down(va: u64) -> (r: V2MA)
        ensures
            r.addr_spec() == va - (va % SIZE_2M),
    {
        proof {
            vstd::arithmetic::div_mod::lemma_fundamental_div_mod(va as int, SIZE_2M as int);
            vstd::arithmetic::div_mod::lemma_mod_multiples_basic(
                va as int / SIZE_2M as int,
                SIZE_2M as int,
            );
        }
        V2MA(va / SIZE_2M * SIZE_2M)
    }

    /// Rounds `va` up to the next 2 MiB boundary, saturating at the
    /// last aligned address when the next multiple lies beyond the
    /// address space.
    pub fn new_round_up(va: u64) -> (r: V2MA)
        ensures
            va + SIZE_2M - 1 <= u64::MAX ==> {
                &&& r.addr_spec() == ((va + SIZE_2M - 1) / SIZE_2M as int) * SIZE_2M
                &&& va <= r.addr_spec() < va + SIZE_2M
            },
            va + SIZE_2M - 1 > u64::MAX ==> r.addr_spec() == 0xFFFF_FFFF_FFE0_0000,
    {
        if va > u64::MAX - (SIZE_2M - 1) {
            proof {
                vstd::arithmetic::div_mod::lemma_mod_multiples_basic(
                    0xFFFF_FFFF_FFE0_0000 as int / SIZE_2M as int,
                    SIZE_2M as int,
                );
            }
            return V2MA(0xFFFF_FFFF_FFE0_0000);
        }
        proof {
            vstd::arithmetic::div_mod::lemma_fundamental_div_mod((va + SIZE_2M - 1) as int, SIZE_2M as int);
            vstd::arithmetic::div_mod::lemma_mod_multiples_basic(
                (va + SIZE_2M - 1) as int / SIZE_2M as int,
                SIZE_2M as int,
            );
        }
        V2MA((va + (SIZE_2M - 1)) / SIZE_2M * SIZE_2M)
    }

    /// Returns the carried address.
    pub fn addr(self) -> (r: u64)
        ensures
            r == self.addr_spec(),
    {
        self.0
    }
}

/// A 1 GiB-aligned virtual page address.
#[derive(Clone, Copy, Debug, PartialEq, Eq, Structural)]
pub struct V1GA(u64);

impl V1GA {
    /// Addresses of this type are aligned by construction.
    #[verifier::type_invariant]
    pub closed spec fn inv(self) -> bool {
        self.0 % SIZE_1G == 0
    }

    /// The carried address.
    pub closed spec fn addr_spec(self) -> u64 {
        self.0
    }

    /// Wraps an aligned virtual address.
    pub fn new(va: u64) -> (r: V1GA)
        requires
            va % SIZE_1G == 0,
        ensures
            r.addr_spec() == va,
    {
        V1GA(va)
    }

    /// Rounds `va` down to the previous 1 GiB boundary.
    pub fn new_round_down(va: u64) -> (r: V1GA)
        ensures
            r.addr_spec() == va - (va % SIZE_1G),
    {
        proof {
            vstd::arithmetic::div_mod::lemma_fundamental_div_mod(va as int, SIZE_1G as int);
            vstd::arithmetic::div_mod::lemma_mod_multiples_basic(
                va as int / SIZE_1G as int,
                SIZE_1G as int,
            );
        }
        V1GA(va / SIZE_1G * SIZE_1G)
    }

    /// Rounds `va` up to the next 1 GiB boundary, saturating at the
    /// last aligned address when the next multiple lies beyond the
    /// address space.
    pub fn new_round_up(va: u64) -> (r: V1GA)
        ensures
            va + SIZE_1G - 1 <= u64::MAX ==> {
                &&& r.addr_spec() == ((va + SIZE_1G - 1) / SIZE_1G as int) * SIZE_1G
                &&& va <= r.addr_spec() < va + SIZE_1G
            },
            va + SIZE_1G - 1 > u64::MAX ==> r.addr_spec() == 0xFFFF_FFFF_C000_0000,
    {
        if va > u64::MAX - (SIZE_1G - 1) {
            proof {
                vstd::arithmetic::div_mod::lemma_mod_multiples_basic(
                    0xFFFF_FFFF_C000_0000 as int / SIZE_1G as int,
                    SIZE_1G as int,
                );
            }
            return V1GA(0xFFFF_FFFF_C000_0000);
        }
        proof {
            vstd::arithmetic::div_mod::lemma_fundamental_div_mod((va + SIZE_1G - 1) as int, SIZE_1G as int);
            vstd::arithmetic::div_mod::lemma_mod_multiples_basic(
                (va + SIZE_1G - 1) as int / SIZE_1G as int,
                SIZE_1G as int,
            );
        }
        V1GA((va + (SIZE_1G - 1)) / SIZE_1G * SIZE_1G)
    }

    /// Returns the carried address.
    pub fn addr(self) -> (r: u64)
        ensures
            r == self.addr_spec(),
    {
        self.0
    }
}

/// A 512 GiB-aligned virtual page address.
#[derive(Clone, Copy, Debug, PartialEq, Eq, Structural)]
pub struct V512GA(u64);

impl V512GA {
    /// Addresses of this type are aligned by construction.
    #[verifier::type_invariant]
    pub closed spec fn inv(self) -> bool {
        self.0 % SIZE_512G == 0
    }

    /// The carried address.
    pub closed spec fn addr_spec(self) -> u64 {
        self.0
    }

    /// Wraps an aligned virtual address.
    pub fn new(va: u64) -> (r: V512GA)
        requires
            va % SIZE_512G == 0,
        ensures
            r.addr_spec() == va,
    {
        V512GA(va)
    }

    /// Rounds `va` down to the previous 512 GiB boundary.
    pub fn new_round_down(va: u64) -> (r: V512GA)
        ensures
            r.addr_spec() == va - (va % SIZE_512G),
    {
        proof {
            vstd::arithmetic::div_mod::lemma_fundamental_div_mod(va as int, SIZE_512G as int);
            vstd::arithmetic::div_mod::lemma_mod_multiples_basic(
                va as int / SIZE_512G as int,
                SIZE_512G as int,
            );
        }
        V512GA(va / SIZE_512G * SIZE_512G)
    }

    /// Rounds `va` up to the next 512 GiB boundary, saturating at the
    /// last aligned address when the next multiple lies beyond the
    /// address space.
    pub fn new_round_up(va: u64) -> (r: V512GA)
        ensures
            va + SIZE_512G - 1 <= u64::MAX ==> {
                &&& r.addr_spec() == ((va + SIZE_512G - 1) / SIZE_512G as int) * SIZE_512G
                &&& va <= r.addr_spec() < va + SIZE_512G
            },
            va + SIZE_512G - 1 > u64::MAX ==> r.addr_spec() == 0xFFFF_FF80_0000_0000,
    {
        if va > u64::MAX - (SIZE_512G - 1) {
            proof {
                vstd::arithmetic::div_mod::lemma_mod_multiples_basic(
                    0xFFFF_FF80_0000_0000 as int / SIZE_512G as int,
                    SIZE_512G as int,
                );
            }
            return V512GA(0xFFFF_FF80_0000_0000);
        }
        proof {
            vstd::arithmetic::div_mod::lemma_fundamental_div_mod((va + SIZE_512G - 1) as int, SIZE_512G as int);
            vstd::arithmetic::div_mod::lemma_mod_multiples_basic(
                (va + SIZE_512G - 1) as int / SIZE_512G as int,
                SIZE_512G as int,
            );
        }
        V512GA((va + (SIZE_512G - 1)) / SIZE_512G * SIZE_512G)
    }

    /// Returns the carried address.
    pub fn addr(self) -> (r: u64)
        ensures
            r == self.addr_spec(),
    {
        self.0
    }
}

/// A Processor ID, matching the LAPIC ID used during start-up.
#[derive(Clone, Copy, Debug, PartialEq, Eq, Structural)]
pub struct ProcessorID(pub u32);

/// Indices of the stack slots in a task-state segment: the ordinary
/// kernel stack plus the seven interrupt-stack-table slots.
#[derive(Clone, Copy, Debug, PartialEq, Eq, Structural)]
pub enum StackIndex {
    Rsp0,
    Ist1,
    Ist2,
    Ist3,
    Ist4,
    Ist5,
    Ist6,
    Ist7,
}

impl StackIndex {
    /// The hardware encoding of this stack slot.
    pub open spec fn as_u8_spec(self) -> u8 {
        match self {
            StackIndex::Rsp0 => 0,
            StackIndex::Ist1 => 1,
            StackIndex::Ist2 => 2,
            StackIndex::Ist3 => 3,
            StackIndex::Ist4 => 4,
            StackIndex::Ist5 => 5,
            StackIndex::Ist6 => 6,
            StackIndex::Ist7 => 7,
        }
    }

    /// Returns the hardware encoding of this stack slot.
    pub fn as_u8(self) -> (r: u8)
        ensures
            r == self.as_u8_spec(),
    {
        match self {
            StackIndex::Rsp0 => 0,
            StackIndex::Ist1 => 1,
            StackIndex::Ist2 => 2,
            StackIndex::Ist3 => 3,
            StackIndex::Ist4 => 4,
            StackIndex::Ist5 => 5,
            StackIndex::Ist6 => 6,
            StackIndex::Ist7 => 7,
        }
    }
}

/// CPU protection levels.  On x86_64, lower is more privileged; the
/// hypervisor itself only ever runs in Ring0.
#[derive(Clone, Copy, Debug, PartialEq, Eq, Structural)]
pub enum CPL {
    Ring0,
    Ring1,
    Ring2,
    Ring3,
}

impl CPL {
    /// The hardware encoding of this privilege level.
    pub open spec fn as_u8_spec(self) -> u8 {
        match self {
            CPL::Ring0 => 0,
            CPL::Ring1 => 1,
            CPL::Ring2 => 2,
            CPL::Ring3 => 3,
        }
    }

    /// Returns the hardware encoding of this privilege level.
    pub fn as_u8(self) -> (r: u8)
        ensures
            r == self.as_u8_spec(),
    {
        match self {
            CPL::Ring0 => 0,
            CPL::Ring1 => 1,
            CPL::Ring2 => 2,
            CPL::Ring3 => 3,
        }
    }

    /// Decodes a raw privilege level.
    pub fn try_from_u8(raw: u8) -> (r: Option<CPL>)
        ensures
            match r {
                Some(c) => raw < 4 && c.as_u8_spec() == raw,
                None => raw >= 4,
            },
    {
        match raw {
            0 => Some(CPL::Ring0),
            1 => Some(CPL::Ring1),
            2 => Some(CPL::Ring2),
            3 => Some(CPL::Ring3),
            _ => None,
        }
    }
}


/// Returns a zeroed page: the content of the global zero page that
/// read-only mappings share.
pub fn zero_page() -> (r: Vec<u8>)
    ensures
        r@.len() == 4096,
        forall|i: int| 0 <= i < 4096 ==> r@[i] == 0,
{
    let mut v: Vec<u8> = Vec::new();
    let mut i: usize = 0;
    while i < 4096
        invariant
            v@.len() == i,
            i <= 4096,
            forall|j: int| 0 <= j < i ==> v@[j] == 0,
        decreases 4096 - i,
    {
        v.push(0);
        i = i + 1;
    }
    v
}

/// Stepping `count` pages forward and then `count` pages backward
/// returns to the starting address: the addresses
/// [`V4KA::forward_checked`] and [`V4KA::backward_checked`] promise
/// compose to the identity.
pub proof fn lemma_step_round_trip(start: V4KA, count: u64, mid: V4KA, back: V4KA)
    requires
        mid.addr_spec() == start.addr_spec() + count * SIZE_4K,
        back.addr_spec() == mid.addr_spec() - count * SIZE_4K,
    ensures
        back.addr_spec() == start.addr_spec(),
{
}

} // verus!
