//! Node addressing over GPIO: a node ID is split into a row and a column
//! of the 100x100 grid, each driven as 7 address bits.

use vstd::prelude::*;

verus! {

/// Number of row address bits.
pub const ROW_ADDR_BITS: usize = 7;

/// Number of column address bits.
pub const COL_ADDR_BITS: usize = 7;

/// Total address bits.
pub const TOTAL_ADDR_BITS: usize = 14;

/// Errors of GPIO operations.
#[derive(Debug, Clone, Copy, PartialEq, Eq, Structural)]
pub enum GpioError {
    /// Pin state setting failed
    PinError,
    /// Invalid node address
    InvalidAddress,
}

/// The row and column of a node ID, each truncated to 8 bits.
pub open spec fn coords_spec(node_id: u16) -> (u8, u8) {
    ((node_id / 100) as u8, (node_id % 100) as u8)
}

/// The address pins of the grid and the selected node.
#[allow(non_camel_case_types)]
pub struct NodeAddressGpio<ROW0, ROW1, ROW2, ROW3, ROW4, ROW5, ROW6, COL0, COL1, COL2, COL3, COL4, COL5, COL6, PHASE_SEL, COND_SEL> {
    /// Row address lines
    pub row_pins: (ROW0, ROW1, ROW2, ROW3, ROW4, ROW5, ROW6),
    /// Column address lines
    pub col_pins: (COL0, COL1, COL2, COL3, COL4, COL5, COL6),
    /// Phase injection select
    pub phase_sel: PHASE_SEL,
    /// Conductance measurement select
    pub cond_sel: COND_SEL,
    /// Current node ID (0-9999)
    pub current_node: u16,
}

#[allow(non_camel_case_types)]
impl<ROW0, ROW1, ROW2, ROW3, ROW4, ROW5, ROW6, COL0, COL1, COL2, COL3, COL4, COL5, COL6, PHASE_SEL, COND_SEL>
    NodeAddressGpio<ROW0, ROW1, ROW2, ROW3, ROW4, ROW5, ROW6, COL0, COL1, COL2, COL3, COL4, COL5, COL6, PHASE_SEL, COND_SEL> {
    /// Bundle the pins, with node 0 selected.
    pub fn new(
        row_pins: (ROW0, ROW1, ROW2, ROW3, ROW4, ROW5, ROW6),
        col_pins: (COL0, COL1, COL2, COL3, COL4, COL5, COL6),
        phase_sel: PHASE_SEL,
        cond_sel: COND_SEL,
    ) -> (r: Self)
        ensures
            r.row_pins == row_pins,
            r.col_pins == col_pins,
            r.phase_sel == phase_sel,
            r.cond_sel == cond_sel,
            r.current_node == 0,
    {
        NodeAddressGpio { row_pins, col_pins, phase_sel, cond_sel, current_node: 0 }
    }

    /// Row and column of a node ID (node ID = row * 100 + col).
    pub fn node_to_coords(node_id: u16) -> (r: (u8, u8))
        ensures
            r == coords_spec(node_id),
    {
        let row = #[verifier::truncate] ((node_id / 100) as u8);
        let col = (node_id % 100) as u8;
        (row, col)
    }

    /// Node ID of a row and column.
    pub fn coords_to_node(row: u8, col: u8) -> (r: u16)
        ensures
            r == row * 100 + col,
    {
        (row as u16) * 100 + (col as u16)
    }

    /// The low seven bits of a value, least significant first.
    pub fn to_7bit(value: u8) -> (r: [bool; 7])
        ensures
            forall|i: int| 0 <= i < 7 ==> #[trigger] r@[i] == ((value >> (i as u8)) & 1 == 1),
    {
        let r = [
            (value & 0x01) != 0,
            (value & 0x02) != 0,
            (value & 0x04) != 0,
            (value & 0x08) != 0,
            (value & 0x10) != 0,
            (value & 0x20) != 0,
            (value & 0x40) != 0,
        ];
        assert(((value & 0x01) != 0) == ((value >> 0u8) & 1 == 1)) by (bit_vector);
        assert(((value & 0x02) != 0) == ((value >> 1u8) & 1 == 1)) by (bit_vector);
        assert(((value & 0x04) != 0) == ((value >> 2u8) & 1 == 1)) by (bit_vector);
        assert(((value & 0x08) != 0) == ((value >> 3u8) & 1 == 1)) by (bit_vector);
        assert(((value & 0x10) != 0) == ((value >> 4u8) & 1 == 1)) by (bit_vector);
        assert(((value & 0x20) != 0) == ((value >> 5u8) & 1 == 1)) by (bit_vector);
        assert(((value & 0x40) != 0) == ((value >> 6u8) & 1 == 1)) by (bit_vector);
        r
    }

    /// The row and column address bits that select a node; a node ID past
    /// the grid is refused.
    pub fn address_bits(node_id: u16) -> (r: Result<([bool; 7], [bool; 7]), GpioError>)
        ensures
            r is Err <==> node_id >= 10000,
            r is Err ==> r == Err::<([bool; 7], [bool; 7]), GpioError>(GpioError::InvalidAddress),
            r matches Ok((row_bits, col_bits)) ==> forall|i: int|
                0 <= i < 7 ==> #[trigger] row_bits@[i] == ((coords_spec(node_id).0 >> (i as u8)) & 1 == 1)
                    && col_bits@[i] == ((coords_spec(node_id).1 >> (i as u8)) & 1 == 1),
    {
        if node_id >= 10000 {
            return Err(GpioError::InvalidAddress);
        }
        let (row, col) = Self::node_to_coords(node_id);
        Ok((Self::to_7bit(row), Self::to_7bit(col)))
    }

    /// Record a node as selected.
    pub fn set_current_node(&mut self, node_id: u16)
        ensures
            final(self).current_node == node_id,
            final(self).row_pins == old(self).row_pins,
            final(self).col_pins == old(self).col_pins,
            final(self).phase_sel == old(self).phase_sel,
            final(self).cond_sel == old(self).cond_sel,
    {
        self.current_node = node_id;
    }
}

/// Every node of the grid maps to a row and column inside the grid, and
/// they give the node back.
pub proof fn law_node_coords_round_trip(node_id: u16)
    requires
        node_id < 10000,
    ensures
        coords_spec(node_id).0 < 100,
        coords_spec(node_id).1 < 100,
        coords_spec(node_id).0 * 100 + coords_spec(node_id).1 == node_id,
{
}

/// A node ID past the grid maps to a row past the grid.
pub proof fn law_out_of_grid_row(node_id: u16)
    requires
        10000 <= node_id < 25600,
    ensures
        coords_spec(node_id).0 >= 100,
{
}

} // verus!
