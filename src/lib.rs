//! Early-boot kernel core: a text console drawn on a raw pixel surface,
//! interrupt bookkeeping, and descriptor-table setup.

use vstd::prelude::*;

pub mod font;
pub mod framebuffer;
pub mod gdt;
pub mod interrupt;

verus! {

/// I/O port of the emulator's debug-exit device.
pub const EXIT_PORT: u16 = 0xf4;

/// Reserved virtual address window for the loader's dynamic mappings: first
/// address.
pub const DYNAMIC_RANGE_START: u64 = 0xffff_8000_0000_0000;

/// Reserved virtual address window for the loader's dynamic mappings: last
/// address.
pub const DYNAMIC_RANGE_END: u64 = 0xffff_ffff_ffff_ffff;

/// How a headless run ends, as signalled to the test harness.
#[derive(Clone, Copy, Debug, PartialEq, Eq, Structural)]
pub enum QemuExitCode {
    Success,
    Failed,
}

impl QemuExitCode {
    /// The value written to `EXIT_PORT`.
    pub open spec fn code_spec(self) -> u32 {
        match self {
            QemuExitCode::Success => 0x10,
            QemuExitCode::Failed => 0x11,
        }
    }

    /// The value written to `EXIT_PORT`: 0x10 on success, 0x11 on failure.
    pub fn code(self) -> (c: u32)
        ensures
            c == self.code_spec(),
    {
        match self {
            QemuExitCode::Success => 0x10,
            QemuExitCode::Failed => 0x11,
        }
    }
}

} // verus!
