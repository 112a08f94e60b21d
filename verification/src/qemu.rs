//! Exit codes for the emulator's debug-exit device, used by the test
//! harness: the device turns the written value into the emulator's own
//! exit status, so success and failure are told apart from outside.

use vstd::prelude::*;

verus! {

/// The harness's verdicts.
#[derive(Clone, Copy, PartialEq, Eq, Structural, Debug)]
pub enum QemuExitCode {
    Success,
    Failed,
}

impl QemuExitCode {
    /// The value written to the debug-exit device for this verdict.
    pub fn code(self) -> (r: u32)
        ensures
            self is Success ==> r == 0x10,
            self is Failed ==> r == 0x11,
    {
        match self {
            QemuExitCode::Success => 0x10,
            QemuExitCode::Failed => 0x11,
        }
    }
}

} // verus!
