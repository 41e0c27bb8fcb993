//! The interrupt descriptor table.

use vstd::prelude::*;

verus! {

/// The interrupt stack used for non-maskable interrupts.
pub const NMI_STACK: crate::StackIndex = crate::StackIndex::Ist1;

/// The interrupt stack used for debug traps.
pub const DEBUG_STACK: crate::StackIndex = crate::StackIndex::Ist2;

/// The interrupt stack used for double faults.
pub const DOUBLE_FAULT_STACK: crate::StackIndex = crate::StackIndex::Ist3;

/// Builds the IDT entry for one trap vector.
///
/// Debug traps, non-maskable interrupts and double faults each get a
/// distinct interrupt stack, since any of them can arrive while the
/// current stack is unusable; everything else runs on the ordinary
/// kernel stack.
pub fn make_gate(handler_va: u64, vecnum: u8) -> (r: crate::segment::InterruptGateDescriptor)
    ensures
        r.0 == crate::segment::InterruptGateDescriptor::gate_bits(
            handler_va,
            gate_stack_spec(vecnum).as_u8_spec(),
        ),
        (r.0 >> 32) & 7 == gate_stack_spec(vecnum).as_u8_spec() as u128,
        r.0 & 0xFFFF == handler_va & 0xFFFF,
        (r.0 >> 48) & 0xFFFF == (handler_va >> 16) & 0xFFFF,
        (r.0 >> 64) & 0xFFFF_FFFF == (handler_va >> 32) & 0xFFFF_FFFF,
        r.0 & 0x8000_0000_0000u128 == 0x8000_0000_0000u128,
{
    match vecnum {
        1 => crate::segment::InterruptGateDescriptor::new(handler_va, DEBUG_STACK),
        2 => crate::segment::InterruptGateDescriptor::new(handler_va, NMI_STACK),
        8 => crate::segment::InterruptGateDescriptor::new(handler_va, DOUBLE_FAULT_STACK),
        _ => crate::segment::InterruptGateDescriptor::new(handler_va, crate::StackIndex::Rsp0),
    }
}

/// Which stack slot each trap vector is routed to.
pub open spec fn gate_stack_spec(vecnum: u8) -> crate::StackIndex {
    if vecnum == 1 {
        crate::StackIndex::Ist2
    } else if vecnum == 2 {
        crate::StackIndex::Ist1
    } else if vecnum == 8 {
        crate::StackIndex::Ist3
    } else {
        crate::StackIndex::Rsp0
    }
}

/// The vectors that can arrive on an invalid stack are routed to three
/// pairwise-distinct interrupt stacks.
pub proof fn lemma_fault_stacks_distinct()
    ensures
        gate_stack_spec(1) != gate_stack_spec(2),
        gate_stack_spec(1) != gate_stack_spec(8),
        gate_stack_spec(2) != gate_stack_spec(8),
        gate_stack_spec(1) != crate::StackIndex::Rsp0,
        gate_stack_spec(2) != crate::StackIndex::Rsp0,
        gate_stack_spec(8) != crate::StackIndex::Rsp0,
{
}

/// The interrupt descriptor table: 256 gates.
pub struct IDT {
    /// The gates, one per vector.
    pub entries: Vec<crate::segment::InterruptGateDescriptor>,
}

impl IDT {
    /// Returns an empty IDT.
    pub fn empty() -> (r: IDT)
        ensures
            r.entries@.len() == 256,
            forall|i: int| 0 <= i < 256 ==> (#[trigger] r.entries@[i]).0 == 0xE0_0000_0000u128,
    {
        let mut entries: Vec<crate::segment::InterruptGateDescriptor> = Vec::new();
        let mut i: usize = 0;
        while i < 256
            invariant
                i <= 256,
                entries@.len() == i,
                forall|j: int|
                    0 <= j < i ==> (#[trigger] entries@[j]).0 == 0xE0_0000_0000u128,
            decreases 256 - i,
        {
            entries.push(crate::segment::InterruptGateDescriptor::empty());
            i = i + 1;
        }
        IDT { entries }
    }

    /// Fills every gate from the array of trap stubs, routing the
    /// critical vectors to their interrupt stacks.
    pub fn init(&mut self, stubs: &Vec<u64>)
        requires
            stubs@.len() == 256,
            old(self).entries@.len() == 256,
        ensures
            final(self).entries@.len() == 256,
            forall|i: int|
                0 <= i < 256 ==> (#[trigger] final(self).entries@[i]).0
                    == crate::segment::InterruptGateDescriptor::gate_bits(
                    stubs@[i],
                    gate_stack_spec(i as u8).as_u8_spec(),
                ),
            forall|i: int|
                0 <= i < 256 ==> ((#[trigger] final(self).entries@[i]).0 >> 32) & 7
                    == gate_stack_spec(i as u8).as_u8_spec() as u128,
            forall|i: int|
                0 <= i < 256 ==> (#[trigger] final(self).entries@[i]).0 & 0xFFFF == stubs@[i]
                    & 0xFFFF,
    {
        let mut i: usize = 0;
        while i < 256
            invariant
                i <= 256,
                stubs@.len() == 256,
                self.entries@.len() == 256,
                forall|j: int|
                    0 <= j < i ==> (#[trigger] self.entries@[j]).0
                        == crate::segment::InterruptGateDescriptor::gate_bits(
                        stubs@[j],
                        gate_stack_spec(j as u8).as_u8_spec(),
                    ),
                forall|j: int|
                    0 <= j < i ==> ((#[trigger] self.entries@[j]).0 >> 32) & 7 == gate_stack_spec(
                        j as u8,
                    ).as_u8_spec() as u128,
                forall|j: int|
                    0 <= j < i ==> (#[trigger] self.entries@[j]).0 & 0xFFFF == stubs@[j]
                        & 0xFFFF,
            decreases 256 - i,
        {
            let gate = make_gate(stubs[i], i as u8);
            self.entries.set(i, gate);
            i = i + 1;
        }
    }
}

} // verus!
