//! The interrupt layer: the 256-entry vector table, the remapped
//! interrupt controller pair, and the fault handlers, with the alternate
//! stack that makes double-fault delivery survive stack exhaustion.

use vstd::prelude::*;

pub mod exceptions;
pub mod idt;
pub mod pic;

use crate::interrupts::idt::HandlerKind;
use crate::interrupts::idt::InterruptDescriptorTable;
use crate::interrupts::pic::ChainedPicsState;
use crate::interrupts::pic::PIC_1_OFFSET;
use crate::interrupts::pic::PIC_2_OFFSET;
use crate::gdt::DOUBLE_FAULT_IST_INDEX;

verus! {

/// The breakpoint exception's vector number.
pub const BREAKPOINT_VECTOR: u8 = 3;

/// The double-fault exception's vector number.
pub const DOUBLE_FAULT_VECTOR: u8 = 8;

/// The page-fault exception's vector number.
pub const PAGE_FAULT_VECTOR: u8 = 14;

/// The interrupt layer as one owned value: the loaded vector table, the
/// remapped controller pair, and whether delivery is enabled. Built once
/// at startup; there is no way back to the uninitialized state.
pub struct InterruptLayer {
    pub idt: InterruptDescriptorTable,
    pub pics: ChainedPicsState,
    pub enabled: bool,
}

impl InterruptLayer {
    /// The table is complete and the controllers are remapped away from
    /// the exception vectors.
    pub open spec fn wf(self) -> bool {
        &&& self.idt.wf()
        &&& self.pics.initialized
        &&& self.pics.offset1 == PIC_1_OFFSET
        &&& self.pics.offset2 == PIC_2_OFFSET
    }

    /// The one property everything else leans on: the double-fault entry
    /// is installed and committed to an alternate stack.
    pub open spec fn double_fault_guarded(self) -> bool {
        &&& self.idt.spec_entry(DOUBLE_FAULT_VECTOR as int).handler == Some(
            HandlerKind::DoubleFault,
        )
        &&& self.idt.spec_entry(DOUBLE_FAULT_VECTOR as int).stack_index == Some(
            DOUBLE_FAULT_IST_INDEX,
        )
    }
}

/// Build the interrupt layer: install the breakpoint, double-fault (on
/// the alternate stack), page-fault, timer and keyboard handlers, remap
/// the two cascaded controllers to non-conflicting vectors, and enable
/// delivery. This runs exactly once, before any fault-prone work.
pub fn init() -> (r: InterruptLayer)
    ensures
        r.wf(),
        r.enabled,
        r.double_fault_guarded(),
        r.idt.spec_entry(BREAKPOINT_VECTOR as int).handler == Some(HandlerKind::Breakpoint),
        r.idt.spec_entry(PAGE_FAULT_VECTOR as int).handler == Some(HandlerKind::PageFault),
        r.idt.spec_entry(PIC_1_OFFSET as int).handler == Some(HandlerKind::Timer),
        r.idt.spec_entry(PIC_1_OFFSET as int + 1).handler == Some(HandlerKind::Keyboard),
{
    let mut idt = InterruptDescriptorTable::new();
    idt.set_handler(BREAKPOINT_VECTOR, HandlerKind::Breakpoint);
    idt.set_handler_with_stack(DOUBLE_FAULT_VECTOR, HandlerKind::DoubleFault, DOUBLE_FAULT_IST_INDEX);
    idt.set_handler(PAGE_FAULT_VECTOR, HandlerKind::PageFault);
    idt.set_handler(PIC_1_OFFSET, HandlerKind::Timer);
    idt.set_handler(PIC_1_OFFSET + 1, HandlerKind::Keyboard);
    let mut pics = ChainedPicsState::new(PIC_1_OFFSET, PIC_2_OFFSET);
    pics.initialize();
    InterruptLayer { idt, pics, enabled: true }
}

} // verus!
