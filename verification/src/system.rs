//! Firmware-wide constants and the system status record.

use vstd::prelude::*;

verus! {

/// Firmware version (major, minor, patch).
pub const FIRMWARE_VERSION: (u8, u8, u16) = (0, 1, 0);

/// System clock frequency (100 MHz).
pub const SYS_CLOCK_HZ: u32 = 100_000_000;

/// Main system state.
#[derive(Debug, Clone, Copy, PartialEq, Eq, Structural)]
pub enum SystemState {
    /// System is initializing
    Initializing,
    /// System is idle, ready for commands
    Idle,
    /// Executing a compute operation
    Computing,
    /// Executing memory operation
    MemoryAccess,
    /// Executing I/O operation
    IoOperation,
    /// System is in error state
    Error,
}

/// Global system status.
pub struct SystemStatus {
    /// Current system state
    pub state: SystemState,
    /// Firmware version
    pub version: (u8, u8, u16),
    /// Current time bank
    pub current_time_bank: u16,
    /// Number of evolution steps executed
    pub evolution_steps: u32,
    /// Frobenius norm of current state
    pub current_norm_sq: i64,
    /// Error code (0 = no error)
    pub error_code: u16,
}

impl SystemStatus {
    /// A status that is initializing, at the firmware version, with every
    /// counter zero.
    pub fn new() -> (r: Self)
        ensures
            r.state == SystemState::Initializing,
            r.version == FIRMWARE_VERSION,
            r.current_time_bank == 0,
            r.evolution_steps == 0,
            r.current_norm_sq == 0,
            r.error_code == 0,
    {
        SystemStatus {
            state: SystemState::Initializing,
            version: FIRMWARE_VERSION,
            current_time_bank: 0,
            evolution_steps: 0,
            current_norm_sq: 0,
            error_code: 0,
        }
    }

    /// Reset to the initial state (the version is kept).
    pub fn reset(&mut self)
        ensures
            final(self).state == SystemState::Initializing,
            final(self).version == old(self).version,
            final(self).current_time_bank == 0,
            final(self).evolution_steps == 0,
            final(self).current_norm_sq == 0,
            final(self).error_code == 0,
    {
        self.state = SystemState::Initializing;
        self.current_time_bank = 0;
        self.evolution_steps = 0;
        self.current_norm_sq = 0;
        self.error_code = 0;
    }

    /// Mark the system as ready (idle).
    pub fn mark_ready(&mut self)
        ensures
            final(self).state == SystemState::Idle,
            final(self).version == old(self).version,
            final(self).current_time_bank == old(self).current_time_bank,
            final(self).evolution_steps == old(self).evolution_steps,
            final(self).current_norm_sq == old(self).current_norm_sq,
            final(self).error_code == old(self).error_code,
    {
        self.state = SystemState::Idle;
    }

    /// Enter the error state with an error code.
    pub fn set_error(&mut self, code: u16)
        ensures
            final(self).state == SystemState::Error,
            final(self).error_code == code,
            final(self).version == old(self).version,
            final(self).current_time_bank == old(self).current_time_bank,
            final(self).evolution_steps == old(self).evolution_steps,
            final(self).current_norm_sq == old(self).current_norm_sq,
    {
        self.state = SystemState::Error;
        self.error_code = code;
    }
}

} // verus!
