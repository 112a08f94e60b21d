//! The interrupt layer: vector setup, controller acknowledgement, the
//! stack-overflow escalation path, and keyboard decoding through the real
//! decoder crate.

use rustai_os::gdt;
use rustai_os::gdt::StackRegion;
use rustai_os::gdt::DOUBLE_FAULT_IST_INDEX;
use rustai_os::interrupts;
use rustai_os::interrupts::exceptions::breakpoint_handler;
use rustai_os::interrupts::exceptions::double_fault_handler;
use rustai_os::interrupts::exceptions::page_fault_handler;
use rustai_os::interrupts::exceptions::stack_overflow_outcome;
use rustai_os::interrupts::exceptions::FaultOutcome;
use rustai_os::interrupts::exceptions::HandlerOutcome;
use rustai_os::interrupts::exceptions::StackFrameView;
use rustai_os::interrupts::idt::HandlerKind;
use rustai_os::interrupts::idt::InterruptDescriptorTable;
use rustai_os::interrupts::pic::keyboard_interrupt_handler;
use rustai_os::interrupts::pic::new_keyboard;
use rustai_os::interrupts::pic::timer_interrupt_handler;
use rustai_os::interrupts::pic::ChainedPicsState;
use rustai_os::interrupts::pic::DecodedInput;
use rustai_os::interrupts::pic::InterruptIndex;
use rustai_os::interrupts::pic::PIC_1_OFFSET;
use rustai_os::interrupts::pic::PIC_2_OFFSET;

fn frame() -> StackFrameView {
    StackFrameView { instruction_pointer: 0x1234, stack_pointer: 0x8000 }
}

#[test]
fn init_installs_every_handler() {
    let layer = interrupts::init();
    assert!(layer.enabled);
    assert_eq!(layer.idt.entries[3].handler, Some(HandlerKind::Breakpoint));
    assert_eq!(layer.idt.entries[8].handler, Some(HandlerKind::DoubleFault));
    assert_eq!(layer.idt.entries[8].stack_index, Some(DOUBLE_FAULT_IST_INDEX));
    assert_eq!(layer.idt.entries[14].handler, Some(HandlerKind::PageFault));
    assert_eq!(layer.idt.entries[32].handler, Some(HandlerKind::Timer));
    assert_eq!(layer.idt.entries[33].handler, Some(HandlerKind::Keyboard));
    assert!(layer.pics.initialized);
    assert_eq!(layer.pics.offset1, 32);
    assert_eq!(layer.pics.offset2, 40);
}

#[test]
fn interrupt_index_vectors() {
    assert_eq!(InterruptIndex::Timer.as_u8(), 32);
    assert_eq!(InterruptIndex::Keyboard.as_u8(), 33);
    assert_eq!(InterruptIndex::Timer.as_usize(), 32);
    assert_eq!(InterruptIndex::Keyboard.as_usize(), 33);
    assert_eq!(PIC_1_OFFSET, 32);
    assert_eq!(PIC_2_OFFSET, 40);
}

#[test]
fn handlers_decide_their_outcomes() {
    let b = breakpoint_handler(frame());
    assert_eq!(b.outcome, HandlerOutcome::Resume);
    assert_eq!(b.diagnostics, 1);
    let d = double_fault_handler(frame(), 0);
    assert_eq!(d.outcome, HandlerOutcome::Halt);
    assert_eq!(d.diagnostics, 1);
    let p = page_fault_handler(frame(), 0xdead_beef, 2);
    assert_eq!(p.outcome, HandlerOutcome::Halt);
    assert_eq!(p.diagnostics, 1);
}

#[test]
fn stack_overflow_reports_exactly_one_diagnostic() {
    // Unconditional recursion exhausts the kernel stack; the double-fault
    // handler on its disjoint alternate stack must report once.
    let layer = interrupts::init();
    let alternate = StackRegion { bottom: 0x8_0000, top: 0x8_5000 };
    let tss = gdt::init(alternate);
    let exhausted = StackRegion { bottom: 0x10_0000, top: 0x12_0000 };
    let (outcome, diagnostics) = stack_overflow_outcome(&layer.idt, &tss, exhausted);
    assert_eq!(outcome, FaultOutcome::HaltedWithDiagnostic);
    assert_eq!(diagnostics, 1);
}

#[test]
fn stack_overflow_without_alternate_stack_resets_silently() {
    // Without the committed alternate stack the same overflow is a silent
    // hardware reset: the condition the layer exists to rule out.
    let mut idt = InterruptDescriptorTable::new();
    idt.set_handler(8, HandlerKind::DoubleFault);
    let alternate = StackRegion { bottom: 0x8_0000, top: 0x8_5000 };
    let tss = gdt::init(alternate);
    let exhausted = StackRegion { bottom: 0x10_0000, top: 0x12_0000 };
    let (outcome, diagnostics) = stack_overflow_outcome(&idt, &tss, exhausted);
    assert_eq!(outcome, FaultOutcome::SilentReset);
    assert_eq!(diagnostics, 0);
}

#[test]
fn overlapping_alternate_stack_cannot_deliver() {
    let layer = interrupts::init();
    let alternate = StackRegion { bottom: 0x10_1000, top: 0x10_6000 };
    let tss = gdt::init(alternate);
    let exhausted = StackRegion { bottom: 0x10_0000, top: 0x12_0000 };
    let (outcome, _) = stack_overflow_outcome(&layer.idt, &tss, exhausted);
    assert_eq!(outcome, FaultOutcome::SilentReset);
}

#[test]
fn timer_handler_acknowledges_its_vector() {
    let mut pics = ChainedPicsState::new(PIC_1_OFFSET, PIC_2_OFFSET);
    pics.initialize();
    timer_interrupt_handler(frame(), &mut pics);
    timer_interrupt_handler(frame(), &mut pics);
    assert_eq!(pics.acked, vec![32, 32]);
}

#[test]
fn pics_know_their_vector_ranges() {
    let mut pics = ChainedPicsState::new(PIC_1_OFFSET, PIC_2_OFFSET);
    pics.initialize();
    assert!(pics.handles_interrupt(32));
    assert!(pics.handles_interrupt(39));
    assert!(pics.handles_interrupt(40));
    assert!(pics.handles_interrupt(47));
    assert!(!pics.handles_interrupt(31));
    assert!(!pics.handles_interrupt(48));
}

#[test]
fn keyboard_handler_decodes_and_acknowledges() {
    let mut pics = ChainedPicsState::new(PIC_1_OFFSET, PIC_2_OFFSET);
    pics.initialize();
    let mut keyboard = new_keyboard();
    // Scancode 0x1E is the press of the A key on scancode set 1.
    let decoded = keyboard_interrupt_handler(frame(), 0x1E, &mut keyboard, &mut pics);
    assert_eq!(decoded, Some(DecodedInput::Unicode('a')));
    // The release byte decodes to nothing; the controller is still acked.
    let released = keyboard_interrupt_handler(frame(), 0x9E, &mut keyboard, &mut pics);
    assert_eq!(released, None);
    assert_eq!(pics.acked, vec![33, 33]);
}
