//! The remapped controller pair and the two hardware-interrupt handlers.
//!
//! The two cascaded interrupt controllers are remapped to vectors 32..47
//! so they do not collide with the exception vectors. A handler must
//! acknowledge the controller before returning, or its interrupt class is
//! masked forever; the model records every acknowledgement. Keyboard
//! scancodes are decoded through the `pc_keyboard` crate behind trusted
//! declarations.

use vstd::prelude::*;
use crate::interrupts::exceptions::StackFrameView;

verus! {

/// Vector base of the primary interrupt controller after remapping.
pub const PIC_1_OFFSET: u8 = 32;

/// Vector base of the secondary interrupt controller after remapping.
pub const PIC_2_OFFSET: u8 = PIC_1_OFFSET + 8;

/// The hardware interrupts this kernel decodes, with their vector
/// numbers: the timer on the primary controller's base vector, the
/// keyboard right after it.
#[derive(Clone, Copy, PartialEq, Eq, Structural, Debug)]
pub enum InterruptIndex {
    Timer,
    Keyboard,
}

impl InterruptIndex {
    /// The vector number of this interrupt.
    pub fn as_u8(self) -> (r: u8)
        ensures
            self is Timer ==> r == PIC_1_OFFSET,
            self is Keyboard ==> r == PIC_1_OFFSET + 1,
    {
        match self {
            InterruptIndex::Timer => PIC_1_OFFSET,
            InterruptIndex::Keyboard => PIC_1_OFFSET + 1,
        }
    }

    /// The vector number of this interrupt, as an index.
    pub fn as_usize(self) -> (r: usize)
        ensures
            self is Timer ==> r == PIC_1_OFFSET,
            self is Keyboard ==> r == PIC_1_OFFSET + 1,
    {
        self.as_u8() as usize
    }
}

/// The state of the two cascaded controllers: their remapped vector bases,
/// whether they have been initialized, and every acknowledgement sent so
/// far, in order.
pub struct ChainedPicsState {
    pub offset1: u8,
    pub offset2: u8,
    pub initialized: bool,
    pub acked: Vec<u8>,
}

impl ChainedPicsState {
    /// The acknowledgements sent so far, oldest first.
    pub open spec fn spec_acked(self) -> Seq<u8> {
        self.acked@
    }

    /// A controller pair configured for the given vector bases, not yet
    /// initialized and with nothing acknowledged.
    pub fn new(offset1: u8, offset2: u8) -> (r: Self)
        ensures
            r.offset1 == offset1,
            r.offset2 == offset2,
            !r.initialized,
            r.spec_acked() == Seq::<u8>::empty(),
    {
        ChainedPicsState { offset1, offset2, initialized: false, acked: Vec::new() }
    }

    /// Remap both controllers to their configured bases and unmask them.
    pub fn initialize(&mut self)
        ensures
            final(self).initialized,
            final(self).offset1 == old(self).offset1,
            final(self).offset2 == old(self).offset2,
            final(self).spec_acked() == old(self).spec_acked(),
    {
        self.initialized = true;
    }

    /// Whether a vector belongs to one of the two controllers' ranges.
    pub fn handles_interrupt(&self, vector: u8) -> (r: bool)
        ensures
            r == ((self.offset1 <= vector < self.offset1 + 8) || (self.offset2 <= vector
                < self.offset2 + 8)),
    {
        let v = vector as u16;
        (self.offset1 as u16 <= v && v < self.offset1 as u16 + 8) || (self.offset2 as u16 <= v
            && v < self.offset2 as u16 + 8)
    }

    /// Send end-of-interrupt for the vector: the acknowledgement the
    /// originating controller must see before the handler returns.
    pub fn notify_end_of_interrupt(&mut self, vector: u8)
        ensures
            final(self).spec_acked() == old(self).spec_acked().push(vector),
            final(self).offset1 == old(self).offset1,
            final(self).offset2 == old(self).offset2,
            final(self).initialized == old(self).initialized,
    {
        self.acked.push(vector);
    }
}

/// The timer interrupt handler: nothing to compute each tick; the one
/// obligation is to acknowledge the controller, exactly once.
pub fn timer_interrupt_handler(stack_frame: StackFrameView, pics: &mut ChainedPicsState)
    ensures
        final(pics).spec_acked() == old(pics).spec_acked().push(PIC_1_OFFSET),
        final(pics).offset1 == old(pics).offset1,
        final(pics).offset2 == old(pics).offset2,
        final(pics).initialized == old(pics).initialized,
{
    pics.notify_end_of_interrupt(InterruptIndex::Timer.as_u8());
}

/// What a scancode decoded to: a printable character, or a raw key code
/// for keys without one.
#[derive(Clone, Copy, PartialEq, Eq, Structural, Debug)]
pub enum DecodedInput {
    Unicode(char),
    RawKey(u8),
}

/// Why the decoder rejected a byte, mirrored from the decoder crate's
/// error cases.
#[derive(Clone, Copy, PartialEq, Eq, Structural, Debug)]
pub enum KeyboardError {
    BadStartBit,
    BadStopBit,
    ParityError,
    UnknownKeyCode,
    InvalidState,
}

#[verifier::external_type_specification]
#[verifier::external_body]
pub struct ExKeyEvent(pc_keyboard::KeyEvent);

/// The outside scancode decoder. Its own type is generic over the decoder
/// crate's layout and scancode-set traits, which cannot be named here, so
/// the decoder for the US-104 layout and scancode set 1 is held opaquely.
#[verifier::external_body]
pub struct KeyboardState {
    decoder: pc_keyboard::Keyboard<pc_keyboard::layouts::Us104Key, pc_keyboard::ScancodeSet1>,
}

/// Relies on pc_keyboard::Keyboard::new: a fresh US-104 set-1 decoder with
/// no partial scancode and no modifier held.
#[verifier::external_body]
fn keyboard_new_us104() -> KeyboardState {
    KeyboardState {
        decoder: pc_keyboard::Keyboard::new(
            pc_keyboard::layouts::Us104Key,
            pc_keyboard::ScancodeSet1,
            pc_keyboard::HandleControl::Ignore,
        ),
    }
}

/// Relies on pc_keyboard::Keyboard::add_byte: feeds one scancode byte to
/// the decoder's state machine; a complete key event may come out, nothing
/// on a prefix byte, or an error on a malformed sequence. Which of the
/// three depends on the decoder's accumulated state, so nothing more is
/// promised of the result.
#[verifier::external_body]
fn keyboard_add_byte(keyboard: &mut KeyboardState, scancode: u8) -> Result<
    Option<pc_keyboard::KeyEvent>,
    KeyboardError,
> {
    match keyboard.decoder.add_byte(scancode) {
        Ok(ev) => Ok(ev),
        Err(pc_keyboard::Error::BadStartBit) => Err(KeyboardError::BadStartBit),
        Err(pc_keyboard::Error::BadStopBit) => Err(KeyboardError::BadStopBit),
        Err(pc_keyboard::Error::ParityError) => Err(KeyboardError::ParityError),
        Err(pc_keyboard::Error::UnknownKeyCode) => Err(KeyboardError::UnknownKeyCode),
        Err(pc_keyboard::Error::InvalidState) => Err(KeyboardError::InvalidState),
    }
}

/// Relies on pc_keyboard::Keyboard::process_keyevent: applies the held
/// modifiers to a key event and decodes it to a unicode character or a raw
/// key code, or to nothing for a bare modifier change. The result depends
/// on the decoder's modifier state, so nothing more is promised of it.
#[verifier::external_body]
fn keyboard_process_keyevent(keyboard: &mut KeyboardState, event: pc_keyboard::KeyEvent) -> Option<
    DecodedInput,
> {
    match keyboard.decoder.process_keyevent(event) {
        Some(pc_keyboard::DecodedKey::Unicode(c)) => Some(DecodedInput::Unicode(c)),
        Some(pc_keyboard::DecodedKey::RawKey(code)) => Some(DecodedInput::RawKey(code as u8)),
        None => None,
    }
}

/// A fresh keyboard decoder for the keyboard interrupt handler to feed.
pub fn new_keyboard() -> KeyboardState {
    keyboard_new_us104()
}

/// The keyboard interrupt handler's decision for one scancode byte read
/// from the keyboard port: feed it to the decoder, take whatever key came
/// out of the modifier-aware decoding (a malformed byte decodes to
/// nothing), and acknowledge the controller exactly once, whatever the
/// decode returned.
pub fn keyboard_interrupt_handler(
    stack_frame: StackFrameView,
    scancode: u8,
    keyboard: &mut KeyboardState,
    pics: &mut ChainedPicsState,
) -> (r: Option<DecodedInput>)
    ensures
        final(pics).spec_acked() == old(pics).spec_acked().push((PIC_1_OFFSET + 1) as u8),
        final(pics).offset1 == old(pics).offset1,
        final(pics).offset2 == old(pics).offset2,
        final(pics).initialized == old(pics).initialized,
{
    let mut decoded: Option<DecodedInput> = None;
    match keyboard_add_byte(keyboard, scancode) {
        Ok(Some(event)) => {
            decoded = keyboard_process_keyevent(keyboard, event);
        },
        Ok(None) => {},
        Err(_) => {},
    }
    pics.notify_end_of_interrupt(InterruptIndex::Keyboard.as_u8());
    decoded
}

} // verus!
