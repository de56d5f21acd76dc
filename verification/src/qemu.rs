//! Exit codes that the surrounding binary reports to its emulator when a
//! run finishes: values outside the range an ordinary process exit would
//! produce, so the harness can tell them apart.

use vstd::prelude::*;

verus! {

/// Outcome of a run, as reported to the emulator.
#[derive(Debug, Clone, Copy, PartialEq, Eq, Structural)]
pub enum QemuExitCode {
    Success,
    Failed,
}

/// The value written to the emulator's exit port for each outcome.
pub open spec fn exit_code_value(c: QemuExitCode) -> u32 {
    match c {
        QemuExitCode::Success => 0x10,
        QemuExitCode::Failed => 0x11,
    }
}

impl QemuExitCode {
    /// The value written to the emulator's exit port.
    pub fn value(self) -> (v: u32)
        ensures
            v == exit_code_value(self),
    {
        match self {
            QemuExitCode::Success => 0x10,
            QemuExitCode::Failed => 0x11,
        }
    }
}

} // verus!
