//! Leaving the emulator: the exit code written to its debug exit port.
use vstd::prelude::*;

verus! {

/// Port of the emulator's debug exit device.
pub const EXIT_PORT: u16 = 0xf4;

/// The exit codes the test runs use.
#[derive(Clone, Copy, Debug, PartialEq, Eq, Structural)]
pub enum QemuExitCode {
    Success,
    Failed,
}

impl QemuExitCode {
    /// The code's number.
    pub fn code(self) -> (r: u32)
        ensures
            r == (if self == QemuExitCode::Success { 0x10u32 } else { 0x11u32 }),
    {
        match self {
            QemuExitCode::Success => 0x10,
            QemuExitCode::Failed => 0x11,
        }
    }

    /// The byte written to the exit port.
    pub fn byte(self) -> (r: u8)
        ensures
            r == (if self == QemuExitCode::Success { 0x10u8 } else { 0x11u8 }),
    {
        match self {
            QemuExitCode::Success => 0x10,
            QemuExitCode::Failed => 0x11,
        }
    }
}

} // verus!
