//! The exception handlers and the fault-delivery model. Each handler's
//! decision is a function from the fault's data to an outcome and a
//! diagnostic count; the delivery model says which outcome the hardware
//! reaches for a fault, given the vector table and the alternate stacks.

use vstd::prelude::*;
use crate::gdt::DOUBLE_FAULT_IST_INDEX;
use crate::gdt::IST_SLOTS;
use crate::gdt::TaskStateSegment;
use crate::gdt::stacks_disjoint;
use crate::gdt::StackRegion;
use crate::interrupts::DOUBLE_FAULT_VECTOR;
use crate::interrupts::InterruptLayer;
use crate::interrupts::idt::HandlerKind;
use crate::interrupts::idt::InterruptDescriptorTable;

verus! {

/// What the saved execution context looks like to a handler.
#[derive(Clone, Copy, PartialEq, Eq, Structural, Debug)]
pub struct StackFrameView {
    pub instruction_pointer: u64,
    pub stack_pointer: u64,
}

/// What a handler decides: resume the interrupted code, or halt the
/// kernel after its diagnostic.
#[derive(Clone, Copy, PartialEq, Eq, Structural, Debug)]
pub enum HandlerOutcome {
    Resume,
    Halt,
}

/// A handler's decision together with how many diagnostics it emitted.
#[derive(Clone, Copy, PartialEq, Eq, Structural, Debug)]
pub struct HandlerReport {
    pub outcome: HandlerOutcome,
    pub diagnostics: u64,
}

/// The breakpoint handler: the one handler that returns normally. It
/// logs the saved context once and resumes.
pub fn breakpoint_handler(stack_frame: StackFrameView) -> (r: HandlerReport)
    ensures
        r.outcome == HandlerOutcome::Resume,
        r.diagnostics == 1,
{
    HandlerReport { outcome: HandlerOutcome::Resume, diagnostics: 1 }
}

/// The double-fault handler: runs on the alternate stack, logs the saved
/// context once, and never returns; the kernel terminates.
pub fn double_fault_handler(stack_frame: StackFrameView, error_code: u64) -> (r: HandlerReport)
    ensures
        r.outcome == HandlerOutcome::Halt,
        r.diagnostics == 1,
{
    HandlerReport { outcome: HandlerOutcome::Halt, diagnostics: 1 }
}

/// The page-fault handler: logs the faulting address, the error code and
/// the saved context, then halts; resuming over corrupted state is never
/// attempted.
pub fn page_fault_handler(stack_frame: StackFrameView, fault_address: u64, error_code: u64) -> (r:
    HandlerReport)
    ensures
        r.outcome == HandlerOutcome::Halt,
        r.diagnostics == 1,
{
    HandlerReport { outcome: HandlerOutcome::Halt, diagnostics: 1 }
}

/// How a fault episode ends at the hardware level: handled and resumed,
/// halted after a reported diagnostic, or a silent triple-fault reset with
/// no diagnostic at all.
#[derive(Clone, Copy, PartialEq, Eq, Structural, Debug)]
pub enum FaultOutcome {
    Resumed,
    HaltedWithDiagnostic,
    SilentReset,
}

/// Whether the hardware can deliver a double fault while the normal stack
/// is unusable: the double-fault entry must be installed, committed to an
/// alternate-stack slot, and that slot must hold a stack disjoint from the
/// exhausted one.
pub open spec fn double_fault_deliverable(
    idt: InterruptDescriptorTable,
    tss: TaskStateSegment,
    exhausted: StackRegion,
) -> bool {
    let entry = idt.spec_entry(DOUBLE_FAULT_VECTOR as int);
    &&& entry.handler == Some(HandlerKind::DoubleFault)
    &&& entry.stack_index matches Some(i) && i < tss.spec_ist().len()
        && (tss.spec_ist()[entry.stack_index->Some_0 as int] matches Some(alt) && stacks_disjoint(
        alt,
        exhausted,
    ))
}

/// The end of a stack-overflow episode: unbounded recursion exhausts the
/// normal stack, the guard access raises a page fault, the fault handler
/// cannot run on the exhausted stack, and the condition escalates to a
/// double fault. With the double-fault entry committed to a disjoint
/// alternate stack, the handler runs there and reports exactly one
/// diagnostic before the kernel halts; without it, the hardware resets
/// silently.
pub fn stack_overflow_outcome(
    idt: &InterruptDescriptorTable,
    tss: &TaskStateSegment,
    exhausted_stack: StackRegion,
) -> (r: (FaultOutcome, u64))
    requires
        idt.wf(),
        tss.wf(),
    ensures
        double_fault_deliverable(*idt, *tss, exhausted_stack) ==> r == (
            FaultOutcome::HaltedWithDiagnostic,
            1u64,
        ),
        !double_fault_deliverable(*idt, *tss, exhausted_stack) ==> r == (
            FaultOutcome::SilentReset,
            0u64,
        ),
{
    let entry = idt.entries[DOUBLE_FAULT_VECTOR as usize];
    let deliverable: bool = match (entry.handler, entry.stack_index) {
        (Some(HandlerKind::DoubleFault), Some(i)) => {
            if (i as usize) < tss.interrupt_stack_table.len() {
                match tss.interrupt_stack_table[i as usize] {
                    Some(alt) => alt.top <= exhausted_stack.bottom || exhausted_stack.top
                        <= alt.bottom,
                    None => false,
                }
            } else {
                false
            }
        },
        _ => false,
    };
    if deliverable {
        let report = double_fault_handler(
            StackFrameView { instruction_pointer: 0, stack_pointer: exhausted_stack.bottom },
            0,
        );
        (FaultOutcome::HaltedWithDiagnostic, report.diagnostics)
    } else {
        (FaultOutcome::SilentReset, 0)
    }
}

/// The guarantee the whole layer is built for: once the interrupt layer
/// is initialized and the task-state segment commits a double-fault stack
/// disjoint from the running stack, a stack overflow is always delivered
/// as a double fault with its one diagnostic; the silent reset cannot
/// happen.
pub proof fn lemma_stack_overflow_always_reported(
    layer: InterruptLayer,
    tss: TaskStateSegment,
    exhausted: StackRegion,
)
    requires
        layer.wf(),
        layer.double_fault_guarded(),
        tss.wf(),
        tss.spec_ist()[DOUBLE_FAULT_IST_INDEX as int] matches Some(alt) && stacks_disjoint(
            alt,
            exhausted,
        ),
    ensures
        double_fault_deliverable(layer.idt, tss, exhausted),
{
    assert(DOUBLE_FAULT_IST_INDEX < IST_SLOTS);
}

} // verus!
