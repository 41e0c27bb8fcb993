//! x86 segmentation descriptors.  In the host only 64-bit segmentation
//! is used.

use vstd::prelude::*;

verus! {

/// A segment descriptor.
#[derive(Clone, Copy, Debug, PartialEq, Eq, Structural)]
pub struct Descriptor(pub u64);

impl Descriptor {
    /// Returns an empty descriptor.
    pub fn empty() -> (r: Descriptor)
        ensures
            r.0 == 0,
    {
        Descriptor(0)
    }

    /// Returns a null (zero) descriptor.
    pub fn null() -> (r: Descriptor)
        ensures
            r.0 == 0,
    {
        Self::empty()
    }

    /// Sets the accessed bit (40).
    #[must_use]
    pub fn with_accessed(self, v: bool) -> (r: Descriptor)
        ensures
            v ==> r.0 == self.0 | 0x100_0000_0000u64,
            !v ==> r.0 == self.0 & !0x100_0000_0000u64,
    {
        if v {
            Descriptor(self.0 | 0x100_0000_0000u64)
        } else {
            Descriptor(self.0 & !0x100_0000_0000u64)
        }
    }

    /// Sets the conforming bit (42).
    #[must_use]
    pub fn with_conforming(self, v: bool) -> (r: Descriptor)
        ensures
            v ==> r.0 == self.0 | 0x400_0000_0000u64,
            !v ==> r.0 == self.0 & !0x400_0000_0000u64,
    {
        if v {
            Descriptor(self.0 | 0x400_0000_0000u64)
        } else {
            Descriptor(self.0 & !0x400_0000_0000u64)
        }
    }

    /// Sets the code bit (43).
    #[must_use]
    pub fn with_code(self, v: bool) -> (r: Descriptor)
        ensures
            v ==> r.0 == self.0 | 0x800_0000_0000u64,
            !v ==> r.0 == self.0 & !0x800_0000_0000u64,
    {
        if v {
            Descriptor(self.0 | 0x800_0000_0000u64)
        } else {
            Descriptor(self.0 & !0x800_0000_0000u64)
        }
    }

    /// Sets the present bit (47).
    #[must_use]
    pub fn with_present(self, v: bool) -> (r: Descriptor)
        ensures
            v ==> r.0 == self.0 | 0x8000_0000_0000u64,
            !v ==> r.0 == self.0 & !0x8000_0000_0000u64,
    {
        if v {
            Descriptor(self.0 | 0x8000_0000_0000u64)
        } else {
            Descriptor(self.0 & !0x8000_0000_0000u64)
        }
    }

    /// Sets the long bit (53).
    #[must_use]
    pub fn with_long(self, v: bool) -> (r: Descriptor)
        ensures
            v ==> r.0 == self.0 | 0x20_0000_0000_0000u64,
            !v ==> r.0 == self.0 & !0x20_0000_0000_0000u64,
    {
        if v {
            Descriptor(self.0 | 0x20_0000_0000_0000u64)
        } else {
            Descriptor(self.0 & !0x20_0000_0000_0000u64)
        }
    }

    /// Sets the privilege level (bits 45..47).
    #[must_use]
    pub fn with_privilege_level(self, level: crate::CPL) -> (r: Descriptor)
        ensures
            r.0 == (self.0 & !0x6000_0000_0000u64) | ((level.as_u8_spec() as u64 & 3) << 45),
    {
        let l = level.as_u8();
        Descriptor((self.0 & !0x6000_0000_0000u64) | ((l as u64 & 3) << 45))
    }

    /// Reads the privilege level.
    pub fn privilege_level(&self) -> (r: crate::CPL)
        ensures
            r.as_u8_spec() == ((self.0 >> 45) & 3) as u8,
    {
        proof {
            let x = self.0;
            assert(((x >> 45) & 3) < 4) by (bit_vector);
        }
        let raw = ((self.0 >> 45) & 3) as u8;
        match crate::CPL::try_from_u8(raw) {
            Some(c) => c,
            None => crate::CPL::Ring0,
        }
    }

    /// Returns a descriptor describing a 64-bit code segment.
    pub fn code64() -> (r: Descriptor)
        ensures
            r.0 == 0x0020_9D00_0000_0000u64,
    {
        let r = Descriptor(0x1000_0000_0000u64)
            .with_code(true)
            .with_present(true)
            .with_conforming(true)
            .with_accessed(true)
            .with_long(true)
            .with_privilege_level(crate::CPL::Ring0);
        proof {
            assert((((((((0x1000_0000_0000u64 | 0x800_0000_0000u64) | 0x8000_0000_0000u64)
                | 0x400_0000_0000u64) | 0x100_0000_0000u64) | 0x20_0000_0000_0000u64)
                & !0x6000_0000_0000u64) | ((0u64 & 3) << 45)) == 0x0020_9D00_0000_0000u64)
                by (bit_vector);
        }
        r
    }
}

/// A task-state descriptor: tells the hardware where the TSS lies.
#[derive(Clone, Copy, Debug, PartialEq, Eq, Structural)]
pub struct TaskStateDescriptor(pub u128);

impl TaskStateDescriptor {
    /// Returns an empty TSS descriptor (type: available 64-bit TSS).
    pub fn empty() -> (r: TaskStateDescriptor)
        ensures
            r.0 == 0x90_0000_0000u128,
    {
        TaskStateDescriptor(0x90_0000_0000u128)
    }

    /// Sets the segment limit's low sixteen bits.
    #[must_use]
    pub fn with_limit0(self, v: u16) -> (r: TaskStateDescriptor)
        ensures
            r.0 == (self.0 & !0xFFFFu128) | (v as u128),
    {
        TaskStateDescriptor((self.0 & !0xFFFFu128) | (v as u128))
    }

    /// Sets base address bits 0..16 (descriptor bits 16..32).
    #[must_use]
    pub fn with_base0(self, v: u16) -> (r: TaskStateDescriptor)
        ensures
            r.0 == (self.0 & !0xFFFF_0000u128) | ((v as u128) << 16),
    {
        TaskStateDescriptor((self.0 & !0xFFFF_0000u128) | ((v as u128) << 16))
    }

    /// Sets base address bits 16..24 (descriptor bits 32..40).
    #[must_use]
    pub fn with_base16(self, v: u8) -> (r: TaskStateDescriptor)
        ensures
            r.0 == (self.0 & !0xFF_0000_0000u128) | ((v as u128) << 32),
    {
        TaskStateDescriptor((self.0 & !0xFF_0000_0000u128) | ((v as u128) << 32))
    }

    /// Sets the present bit (47).
    #[must_use]
    pub fn with_present(self, v: bool) -> (r: TaskStateDescriptor)
        ensures
            v ==> r.0 == self.0 | 0x8000_0000_0000u128,
            !v ==> r.0 == self.0 & !0x8000_0000_0000u128,
    {
        if v {
            TaskStateDescriptor(self.0 | 0x8000_0000_0000u128)
        } else {
            TaskStateDescriptor(self.0 & !0x8000_0000_0000u128)
        }
    }

    /// Sets the available bit (52).
    #[must_use]
    pub fn with_avl(self, v: bool) -> (r: TaskStateDescriptor)
        ensures
            v ==> r.0 == self.0 | 0x10_0000_0000_0000u128,
            !v ==> r.0 == self.0 & !0x10_0000_0000_0000u128,
    {
        if v {
            TaskStateDescriptor(self.0 | 0x10_0000_0000_0000u128)
        } else {
            TaskStateDescriptor(self.0 & !0x10_0000_0000_0000u128)
        }
    }

    /// Sets the granularity bit (55).
    #[must_use]
    pub fn with_granularity(self, v: bool) -> (r: TaskStateDescriptor)
        ensures
            v ==> r.0 == self.0 | 0x80_0000_0000_0000u128,
            !v ==> r.0 == self.0 & !0x80_0000_0000_0000u128,
    {
        if v {
            TaskStateDescriptor(self.0 | 0x80_0000_0000_0000u128)
        } else {
            TaskStateDescriptor(self.0 & !0x80_0000_0000_0000u128)
        }
    }

    /// Sets base address bits 24..32 (descriptor bits 56..64).
    #[must_use]
    pub fn with_base24(self, v: u8) -> (r: TaskStateDescriptor)
        ensures
            r.0 == (self.0 & !0xFF00_0000_0000_0000u128) | ((v as u128) << 56),
    {
        TaskStateDescriptor((self.0 & !0xFF00_0000_0000_0000u128) | ((v as u128) << 56))
    }

    /// Sets base address bits 32..64 (descriptor bits 64..96).
    #[must_use]
    pub fn with_base32(self, v: u32) -> (r: TaskStateDescriptor)
        ensures
            r.0 == (self.0 & !0xFFFF_FFFF_0000_0000_0000_0000u128) | ((v as u128) << 64),
    {
        TaskStateDescriptor(
            (self.0 & !0xFFFF_FFFF_0000_0000_0000_0000u128) | ((v as u128) << 64),
        )
    }

    /// Sets the privilege level (bits 45..47).
    #[must_use]
    pub fn with_privilege_level(self, level: crate::CPL) -> (r: TaskStateDescriptor)
        ensures
            r.0 == (self.0 & !0x6000_0000_0000u128) | ((level.as_u8_spec() as u128 & 3) << 45),
    {
        let l = level.as_u8();
        TaskStateDescriptor((self.0 & !0x6000_0000_0000u128) | ((l as u128 & 3) << 45))
    }

    /// Reads the privilege level.
    pub fn privilege_level(&self) -> (r: crate::CPL)
        ensures
            r.as_u8_spec() == ((self.0 >> 45) & 3) as u8,
    {
        proof {
            let x = self.0;
            assert(((x >> 45) & 3) < 4) by (bit_vector);
        }
        let raw = ((self.0 >> 45) & 3) as u8;
        match crate::CPL::try_from_u8(raw) {
            Some(c) => c,
            None => crate::CPL::Ring0,
        }
    }
}

/// An interrupt-gate descriptor: one entry of the IDT.
#[derive(Clone, Copy, Debug, PartialEq, Eq, Structural)]
pub struct InterruptGateDescriptor(pub u128);

impl InterruptGateDescriptor {
    /// Returns an empty gate (type: interrupt gate).
    pub fn empty() -> (r: InterruptGateDescriptor)
        ensures
            r.0 == 0xE0_0000_0000u128,
    {
        InterruptGateDescriptor(0xE0_0000_0000u128)
    }

    /// Sets handler-offset bits 0..16.
    #[must_use]
    pub fn with_offset0(self, v: u16) -> (r: InterruptGateDescriptor)
        ensures
            r.0 == (self.0 & !0xFFFFu128) | (v as u128),
    {
        InterruptGateDescriptor((self.0 & !0xFFFFu128) | (v as u128))
    }

    /// Sets the code-segment selector (bits 16..32).
    #[must_use]
    pub fn with_segment_selector(self, v: u16) -> (r: InterruptGateDescriptor)
        ensures
            r.0 == (self.0 & !0xFFFF_0000u128) | ((v as u128) << 16),
    {
        InterruptGateDescriptor((self.0 & !0xFFFF_0000u128) | ((v as u128) << 16))
    }

    /// Sets the interrupt-stack-table index (bits 32..35).
    #[must_use]
    pub fn with_raw_stack_table_index(self, v: u8) -> (r: InterruptGateDescriptor)
        requires
            v < 8,
        ensures
            r.0 == (self.0 & !0x7_0000_0000u128) | ((v as u128) << 32),
    {
        InterruptGateDescriptor((self.0 & !0x7_0000_0000u128) | ((v as u128) << 32))
    }

    /// Reads the interrupt-stack-table index.
    pub fn raw_stack_table_index(&self) -> (r: u8)
        ensures
            r == ((self.0 >> 32) & 7) as u8,
    {
        proof {
            let x = self.0;
            assert(((x >> 32) & 7) < 8) by (bit_vector);
        }
        ((self.0 >> 32) & 7) as u8
    }

    /// Sets the present bit (47).
    #[must_use]
    pub fn with_present(self, v: bool) -> (r: InterruptGateDescriptor)
        ensures
            v ==> r.0 == self.0 | 0x8000_0000_0000u128,
            !v ==> r.0 == self.0 & !0x8000_0000_0000u128,
    {
        if v {
            InterruptGateDescriptor(self.0 | 0x8000_0000_0000u128)
        } else {
            InterruptGateDescriptor(self.0 & !0x8000_0000_0000u128)
        }
    }

    /// Sets handler-offset bits 16..32 (descriptor bits 48..64).
    #[must_use]
    pub fn with_offset16(self, v: u16) -> (r: InterruptGateDescriptor)
        ensures
            r.0 == (self.0 & !0xFFFF_0000_0000_0000u128) | ((v as u128) << 48),
    {
        InterruptGateDescriptor((self.0 & !0xFFFF_0000_0000_0000u128) | ((v as u128) << 48))
    }

    /// Sets handler-offset bits 32..64 (descriptor bits 64..96).
    #[must_use]
    pub fn with_offset32(self, v: u32) -> (r: InterruptGateDescriptor)
        ensures
            r.0 == (self.0 & !0xFFFF_FFFF_0000_0000_0000_0000u128) | ((v as u128) << 64),
    {
        InterruptGateDescriptor(
            (self.0 & !0xFFFF_FFFF_0000_0000_0000_0000u128) | ((v as u128) << 64),
        )
    }

    /// Sets the privilege level (bits 45..47).
    #[must_use]
    pub fn with_privilege_level(self, level: crate::CPL) -> (r: InterruptGateDescriptor)
        ensures
            r.0 == (self.0 & !0x6000_0000_0000u128) | ((level.as_u8_spec() as u128 & 3) << 45),
    {
        let l = level.as_u8();
        InterruptGateDescriptor((self.0 & !0x6000_0000_0000u128) | ((l as u128 & 3) << 45))
    }

    /// Reads the privilege level.
    pub fn privilege_level(&self) -> (r: crate::CPL)
        ensures
            r.as_u8_spec() == ((self.0 >> 45) & 3) as u8,
    {
        proof {
            let x = self.0;
            assert(((x >> 45) & 3) < 4) by (bit_vector);
        }
        let raw = ((self.0 >> 45) & 3) as u8;
        match crate::CPL::try_from_u8(raw) {
            Some(c) => c,
            None => crate::CPL::Ring0,
        }
    }

    /// The exact gate word [`Self::new`] builds: the handler offset in
    /// its three fields, the given stack slot, the hypervisor code
    /// selector, present, ring zero.
    pub open spec fn gate_bits(handler_va: u64, stack: u8) -> u128 {
        let o0 = (handler_va & 0xFFFF) as u128;
        let o16 = ((handler_va >> 16) & 0xFFFF) as u128;
        let o32 = ((handler_va >> 32) & 0xFFFF_FFFF) as u128;
        (((((((((((0xE0_0000_0000u128 & !0xFFFFu128) | o0) & !0xFFFF_0000_0000_0000u128) | (o16
            << 48)) & !0xFFFF_FFFF_0000_0000_0000_0000u128) | (o32 << 64)) & !0x7_0000_0000u128)
            | ((stack as u128) << 32)) & !0xFFFF_0000u128) | (
        (crate::gdt::GDT_CODE_SELECTOR as u128) << 16)) | 0x8000_0000_0000u128)
            & !0x6000_0000_0000u128 | ((0u128 & 3) << 45)
    }

    /// A fully formed gate for the trap handler at `handler_va`, routed
    /// to the given interrupt stack.
    pub fn new(handler_va: u64, stack_index: crate::StackIndex) -> (r: InterruptGateDescriptor)
        ensures
            r.0 == Self::gate_bits(handler_va, stack_index.as_u8_spec()),
            r.0 & 0xFFFF == handler_va & 0xFFFF,
            (r.0 >> 48) & 0xFFFF == (handler_va >> 16) & 0xFFFF,
            (r.0 >> 64) & 0xFFFF_FFFF == (handler_va >> 32) & 0xFFFF_FFFF,
            (r.0 >> 32) & 7 == stack_index.as_u8_spec() as u128,
            (r.0 >> 16) & 0xFFFF == crate::gdt::GDT_CODE_SELECTOR as u128,
            r.0 & 0x8000_0000_0000u128 == 0x8000_0000_0000u128,
            (r.0 >> 45) & 3 == 0,
    {
        let o0 = (handler_va & 0xFFFF) as u16;
        let o16 = ((handler_va >> 16) & 0xFFFF) as u16;
        let o32 = ((handler_va >> 32) & 0xFFFF_FFFF) as u32;
        proof {
            let x = handler_va;
            assert((x & 0xFFFF) <= 0xFFFF && ((x >> 16) & 0xFFFF) <= 0xFFFF && ((x >> 32)
                & 0xFFFF_FFFF) <= 0xFFFF_FFFF) by (bit_vector);
        }
        let si = stack_index.as_u8();
        let r = Self::empty()
            .with_offset0(o0)
            .with_offset16(o16)
            .with_offset32(o32)
            .with_raw_stack_table_index(si)
            .with_segment_selector(crate::gdt::GDT_CODE_SELECTOR)
            .with_present(true)
            .with_privilege_level(crate::CPL::Ring0);
        proof {
            let a = o0 as u128;
            let b = o16 as u128;
            let c = o32 as u128;
            let s = si as u128;
            assert(a <= 0xFFFF && b <= 0xFFFF && c <= 0xFFFF_FFFF && s < 8 ==> {
                let g = ((((((((((((0xE0_0000_0000u128 & !0xFFFFu128) | a)
                    & !0xFFFF_0000_0000_0000u128) | (b << 48))
                    & !0xFFFF_FFFF_0000_0000_0000_0000u128) | (c << 64)) & !0x7_0000_0000u128) | (
                s << 32)) & !0xFFFF_0000u128) | (8u128 << 16)) | 0x8000_0000_0000u128)
                    & !0x6000_0000_0000u128) | ((0u128 & 3) << 45);
                &&& g & 0xFFFF == a
                &&& (g >> 48) & 0xFFFF == b
                &&& (g >> 64) & 0xFFFF_FFFF == c
                &&& (g >> 32) & 7 == s
                &&& (g >> 16) & 0xFFFF == 8
                &&& g & 0x8000_0000_0000u128 == 0x8000_0000_0000u128
                &&& (g >> 45) & 3 == 0
            }) by (bit_vector);
            let x = handler_va;
            assert((o0 as u128) == (x & 0xFFFF) as u128 && (o16 as u128) == ((x >> 16)
                & 0xFFFF) as u128 && (o32 as u128) == ((x >> 32) & 0xFFFF_FFFF) as u128);
        }
        r
    }
}

} // verus!
