//! The 64-bit task-state segment: mostly a collection of stack
//! pointers, each split into 32-bit halves so the C layout needs no
//! packing.

use vstd::prelude::*;

verus! {

/// The 64-bit task state structure.
#[derive(Clone, Copy, Debug)]
pub struct TSS {
    /// Stack for ring-zero entry, low half.
    pub rsp0_lower: u32,
    /// Stack for ring-zero entry, high half.
    pub rsp0_upper: u32,
    /// Interrupt stacks one through seven, low and high halves.
    pub ist_lower: [u32; 7],
    /// High halves of the interrupt stacks.
    pub ist_upper: [u32; 7],
    /// Offset of the I/O permission map; the size of the TSS when none
    /// is present.
    pub io_map_base: u16,
}

/// The size in bytes of the hardware TSS layout.
pub const TSS_SIZE: u16 = 104;

impl TSS {
    /// Creates an empty TSS.
    pub fn empty() -> (r: TSS)
        ensures
            r.rsp0_lower == 0,
            r.rsp0_upper == 0,
            forall|i: int| 0 <= i < 7 ==> r.ist_lower@[i] == 0 && r.ist_upper@[i] == 0,
            r.io_map_base == TSS_SIZE,
    {
        TSS {
            rsp0_lower: 0,
            rsp0_upper: 0,
            ist_lower: [0, 0, 0, 0, 0, 0, 0],
            ist_upper: [0, 0, 0, 0, 0, 0, 0],
            io_map_base: TSS_SIZE,
        }
    }

    /// Points the given stack slot at the stack whose top is `top`.
    pub fn set_stack(&mut self, index: crate::StackIndex, top: u64)
        ensures
            ({
                let lower = (top & 0xFFFF_FFFF) as u32;
                let upper = ((top >> 32) & 0xFFFF_FFFF) as u32;
                match index {
                    crate::StackIndex::Rsp0 => {
                        &&& final(self).rsp0_lower == lower
                        &&& final(self).rsp0_upper == upper
                        &&& final(self).ist_lower == old(self).ist_lower
                        &&& final(self).ist_upper == old(self).ist_upper
                    },
                    _ => {
                        let k = index.as_u8_spec() - 1;
                        &&& final(self).ist_lower@ == old(self).ist_lower@.update(
                            k as int,
                            lower,
                        )
                        &&& final(self).ist_upper@ == old(self).ist_upper@.update(
                            k as int,
                            upper,
                        )
                        &&& final(self).rsp0_lower == old(self).rsp0_lower
                        &&& final(self).rsp0_upper == old(self).rsp0_upper
                    },
                }
            }),
            final(self).io_map_base == old(self).io_map_base,
    {
        proof {
            let t = top;
            assert((t & 0xFFFF_FFFF) <= 0xFFFF_FFFFu64 && ((t >> 32) & 0xFFFF_FFFF)
                <= 0xFFFF_FFFFu64) by (bit_vector);
        }
        let lower = (top & 0xFFFF_FFFF) as u32;
        let upper = ((top >> 32) & 0xFFFF_FFFF) as u32;
        match index {
            crate::StackIndex::Rsp0 => {
                self.rsp0_lower = lower;
                self.rsp0_upper = upper;
            },
            _ => {
                let k = (index.as_u8() - 1) as usize;
                self.ist_lower[k] = lower;
                self.ist_upper[k] = upper;
            },
        }
    }

    /// Returns a fully formed TSS descriptor for a TSS located at
    /// virtual address `base`.
    pub fn descriptor(&self, base: u64) -> (r: crate::segment::TaskStateDescriptor)
        ensures
            r.0 & 0xFFFF == (TSS_SIZE - 1) as u128,
            (r.0 >> 16) & 0xFFFF == (base & 0xFFFF) as u128,
            (r.0 >> 32) & 0xFF == ((base >> 16) & 0xFF) as u128,
            (r.0 >> 56) & 0xFF == ((base >> 24) & 0xFF) as u128,
            (r.0 >> 64) & 0xFFFF_FFFF == ((base >> 32) & 0xFFFF_FFFF) as u128,
            r.0 & 0x8000_0000_0000u128 == 0x8000_0000_0000u128,
    {
        proof {
            let x = base;
            assert((x & 0xFFFF) <= 0xFFFF && ((x >> 16) & 0xFF) <= 0xFF && ((x >> 24) & 0xFF)
                <= 0xFF && ((x >> 32) & 0xFFFF_FFFF) <= 0xFFFF_FFFF) by (bit_vector);
        }
        let b0 = (base & 0xFFFF) as u16;
        let b16 = ((base >> 16) & 0xFF) as u8;
        let b24 = ((base >> 24) & 0xFF) as u8;
        let b32 = ((base >> 32) & 0xFFFF_FFFF) as u32;
        let r = crate::segment::TaskStateDescriptor::empty()
            .with_limit0(TSS_SIZE - 1)
            .with_base0(b0)
            .with_base16(b16)
            .with_privilege_level(crate::CPL::Ring0)
            .with_present(true)
            .with_avl(true)
            .with_granularity(true)
            .with_base24(b24)
            .with_base32(b32);
        proof {
            let a = b0 as u128;
            let b = b16 as u128;
            let c = b24 as u128;
            let d = b32 as u128;
            assert(a <= 0xFFFF && b <= 0xFF && c <= 0xFF && d <= 0xFFFF_FFFF ==> {
                let g1 = (0x90_0000_0000u128 & !0xFFFFu128) | 103u128;
                let g2 = (g1 & !0xFFFF_0000u128) | (a << 16);
                let g3 = (g2 & !0xFF_0000_0000u128) | (b << 32);
                let g4 = (g3 & !0x6000_0000_0000u128) | ((0u128 & 3) << 45);
                let g5 = g4 | 0x8000_0000_0000u128;
                let g6 = g5 | 0x10_0000_0000_0000u128;
                let g7 = g6 | 0x80_0000_0000_0000u128;
                let g8 = (g7 & !0xFF00_0000_0000_0000u128) | (c << 56);
                let g9 = (g8 & !0xFFFF_FFFF_0000_0000_0000_0000u128) | (d << 64);
                &&& g9 & 0xFFFF == 103
                &&& (g9 >> 16) & 0xFFFF == a
                &&& (g9 >> 32) & 0xFF == b
                &&& (g9 >> 56) & 0xFF == c
                &&& (g9 >> 64) & 0xFFFF_FFFF == d
                &&& g9 & 0x8000_0000_0000u128 == 0x8000_0000_0000u128
            }) by (bit_vector);
        }
        r
    }
}

} // verus!
