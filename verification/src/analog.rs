//! Analog I/O: phase injection through a DAC and conductance measurement
//! through an ADC.

use vstd::prelude::*;

verus! {

/// Phase injection angle (0-65535 maps to 0-2π).
pub type PhaseAngle = u16;

/// Conductance value (arbitrary units, calibrated).
pub type ConductanceValue = u16;

/// DAC resolution in bits.
pub const DAC_RESOLUTION: u8 = 16;

/// ADC resolution in bits.
pub const ADC_RESOLUTION: u8 = 12;

/// A DAC that a board provides to the phase driver.
pub trait DacWrite {
    type Word;

    type Error;

    fn write(&mut self, value: Self::Word) -> Result<(), Self::Error>;
}

/// An ADC that a board provides to the conductance driver.
pub trait AdcRead<PIN> {
    type Word;

    type Error;

    fn read(&mut self, pin: &mut PIN) -> Result<Self::Word, Self::Error>;
}

/// DAC errors.
#[derive(Debug, Clone, Copy, PartialEq, Eq, Structural)]
pub enum DacError {
    WriteError,
    InvalidValue,
}

/// ADC errors.
#[derive(Debug, Clone, Copy, PartialEq, Eq, Structural)]
pub enum AdcError {
    ConversionError,
    Timeout,
    InvalidChannel,
}

/// The DAC code of a phase: the phase scaled from its full range onto the
/// DAC's full range, which is the phase itself.
pub fn phase_to_dac_value(phase: PhaseAngle) -> (r: u16)
    ensures
        r == phase,
{
    let scaled: u32 = (phase as u32 * 65535) / 65535;
    assert(scaled == phase) by (nonlinear_arith)
        requires
            scaled == (phase as u32 * 65535) / 65535,
    ;
    scaled as u16
}

} // verus!
