//! Hardware abstraction: the system's hardware handles and the node
//! selection rule shared by the drivers.

use vstd::prelude::*;

verus! {

/// Core system clock frequency (100 MHz).
pub const SYS_CLOCK_HZ: u32 = 100_000_000;

/// Number of nodes in the grid (100x100).
pub const NUM_NODES: usize = 10_000;

/// Grid dimensions.
pub const GRID_SIZE: usize = 100;

/// Long-range edges count.
pub const NUM_LONG_RANGE_EDGES: usize = 100;

/// Maximum SPI clock frequency for PSRAM (50 MHz).
pub const PSRAM_SPI_MAX_HZ: u32 = 50_000_000;

/// Errors of hardware operations.
#[derive(Debug, Clone, Copy, PartialEq, Eq, Structural)]
pub enum HalError {
    GpioError,
    SpiError,
    AnalogError,
    InvalidNodeId,
    InvalidPhase,
    MeasurementTimeout,
    MemoryError,
}

/// Result type for hardware operations.
pub type HalResult<T> = Result<T, HalError>;

/// The system's hardware interfaces and the currently selected node.
pub struct SystemHal<SPI, GPIO, ADC, DAC> {
    /// SPI interface for external memory and PC communication
    pub spi: SPI,
    /// GPIO interface for node addressing
    pub gpio: GPIO,
    /// ADC for conductance measurement
    pub adc: ADC,
    /// DAC for phase injection
    pub dac: DAC,
    /// Node addressing state
    pub current_node: u16,
}

impl<SPI, GPIO, ADC, DAC> SystemHal<SPI, GPIO, ADC, DAC> {
    /// Bundle the interfaces, with node 0 selected.
    pub fn new(spi: SPI, gpio: GPIO, adc: ADC, dac: DAC) -> (r: Self)
        ensures
            r.spi == spi,
            r.gpio == gpio,
            r.adc == adc,
            r.dac == dac,
            r.current_node == 0,
    {
        SystemHal { spi, gpio, adc, dac, current_node: 0 }
    }

    /// Select a node; a node ID past the grid is refused and changes
    /// nothing.
    pub fn select_node(&mut self, node_id: u16) -> (r: HalResult<()>)
        ensures
            r is Ok <==> node_id < NUM_NODES,
            r is Err ==> r == Err::<(), HalError>(HalError::InvalidNodeId) && final(self).current_node
                == old(self).current_node,
            r is Ok ==> final(self).current_node == node_id,
            final(self).spi == old(self).spi,
            final(self).gpio == old(self).gpio,
            final(self).adc == old(self).adc,
            final(self).dac == old(self).dac,
    {
        if node_id as usize >= NUM_NODES {
            return Err(HalError::InvalidNodeId);
        }
        self.current_node = node_id;
        Ok(())
    }
}

} // verus!
