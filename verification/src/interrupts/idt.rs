//! The interrupt vector table: 256 fixed slots from vector number to
//! handler, each optionally committed to an alternate stack. Dispatch is
//! closed and static: the handlers form a fixed set.

use vstd::prelude::*;

verus! {

/// The handlers this kernel installs; the set is closed by design.
#[derive(Clone, Copy, PartialEq, Eq, Structural, Debug)]
pub enum HandlerKind {
    Breakpoint,
    DoubleFault,
    PageFault,
    Timer,
    Keyboard,
}

/// One slot of the vector table: the handler dispatched to, if any, and
/// the alternate-stack index the hardware switches to for it, if any.
#[derive(Clone, Copy, PartialEq, Eq, Structural, Debug)]
pub struct IdtEntry {
    pub handler: Option<HandlerKind>,
    pub stack_index: Option<u16>,
}

/// The 256-entry vector table.
pub struct InterruptDescriptorTable {
    pub entries: Vec<IdtEntry>,
}

impl InterruptDescriptorTable {
    /// The table has its full 256 slots.
    pub open spec fn wf(self) -> bool {
        self.entries@.len() == 256
    }

    /// The slot for a vector number.
    pub open spec fn spec_entry(self, vector: int) -> IdtEntry {
        self.entries@[vector]
    }

    /// A fresh table with every slot empty.
    pub fn new() -> (r: Self)
        ensures
            r.wf(),
            forall|v: int| 0 <= v < 256 ==> (#[trigger] r.spec_entry(v)).handler is None,
    {
        let mut entries: Vec<IdtEntry> = Vec::new();
        let mut k: usize = 0;
        while k < 256
            invariant
                k <= 256,
                entries@.len() == k,
                forall|v: int| 0 <= v < k ==> (#[trigger] entries@[v]).handler is None,
            decreases 256 - k,
        {
            entries.push(IdtEntry { handler: None, stack_index: None });
            k = k + 1;
        }
        InterruptDescriptorTable { entries }
    }

    /// Install a handler for a vector, on the normal stack.
    pub fn set_handler(&mut self, vector: u8, handler: HandlerKind)
        requires
            old(self).wf(),
        ensures
            final(self).wf(),
            final(self).spec_entry(vector as int) == (IdtEntry {
                handler: Some(handler),
                stack_index: None,
            }),
            forall|v: int|
                0 <= v < 256 && v != vector ==> final(self).spec_entry(v) == old(self).spec_entry(
                    v,
                ),
    {
        self.entries[vector as usize] = IdtEntry { handler: Some(handler), stack_index: None };
    }

    /// Install a handler for a vector and commit it to the alternate stack
    /// at `stack_index` in the task-state segment.
    pub fn set_handler_with_stack(&mut self, vector: u8, handler: HandlerKind, stack_index: u16)
        requires
            old(self).wf(),
        ensures
            final(self).wf(),
            final(self).spec_entry(vector as int) == (IdtEntry {
                handler: Some(handler),
                stack_index: Some(stack_index),
            }),
            forall|v: int|
                0 <= v < 256 && v != vector ==> final(self).spec_entry(v) == old(self).spec_entry(
                    v,
                ),
    {
        self.entries[vector as usize] = IdtEntry {
            handler: Some(handler),
            stack_index: Some(stack_index),
        };
    }
}

} // verus!
