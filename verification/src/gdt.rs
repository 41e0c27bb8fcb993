//! The 64-bit global descriptor table.

use vstd::prelude::*;

verus! {

/// The selector of the 64-bit code segment (%cs).
pub const GDT_CODE_SELECTOR: u16 = 8;

/// The selector of the task descriptor (%tr).
pub const GDT_TASK_SELECTOR: u16 = 48;

/// The global descriptor table: a null descriptor, the hypervisor code
/// segment, four unused slots, and the task descriptor.
#[derive(Clone, Copy, Debug, PartialEq, Eq, Structural)]
pub struct GDT {
    /// The mandatory null descriptor.
    pub null: crate::segment::Descriptor,
    /// The 64-bit hypervisor code segment.
    pub hypertext: crate::segment::Descriptor,
    /// Unused.
    pub hyperdata: crate::segment::Descriptor,
    /// Unused.
    pub userdata: crate::segment::Descriptor,
    /// Unused.
    pub usertext: crate::segment::Descriptor,
    /// Keeps the task descriptor aligned.
    pub unused: crate::segment::Descriptor,
    /// The task descriptor.
    pub task: crate::segment::TaskStateDescriptor,
}

impl GDT {
    /// Returns an empty GDT.
    pub fn empty() -> (r: GDT)
        ensures
            r.null.0 == 0,
            r.hypertext.0 == 0,
            r.task.0 == 0x90_0000_0000u128,
    {
        GDT {
            null: crate::segment::Descriptor::empty(),
            hypertext: crate::segment::Descriptor::empty(),
            hyperdata: crate::segment::Descriptor::empty(),
            userdata: crate::segment::Descriptor::empty(),
            usertext: crate::segment::Descriptor::empty(),
            unused: crate::segment::Descriptor::empty(),
            task: crate::segment::TaskStateDescriptor::empty(),
        }
    }

    /// Returns a new GDT whose task descriptor is `task_state`.
    pub fn new(task_state: crate::segment::TaskStateDescriptor) -> (r: GDT)
        ensures
            r.null.0 == 0,
            r.hypertext.0 == 0x0020_9D00_0000_0000u64,
            r.task == task_state,
    {
        GDT {
            null: crate::segment::Descriptor::null(),
            hypertext: crate::segment::Descriptor::code64(),
            hyperdata: crate::segment::Descriptor::empty(),
            userdata: crate::segment::Descriptor::empty(),
            usertext: crate::segment::Descriptor::empty(),
            unused: crate::segment::Descriptor::empty(),
            task: task_state,
        }
    }

    /// Returns the code selector for %cs.
    pub fn code_selector() -> (r: u16)
        ensures
            r == GDT_CODE_SELECTOR,
    {
        GDT_CODE_SELECTOR
    }

    /// Returns the task selector for %tr.
    pub fn task_selector() -> (r: u16)
        ensures
            r == GDT_TASK_SELECTOR,
    {
        GDT_TASK_SELECTOR
    }
}

} // verus!
