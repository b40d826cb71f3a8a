use vstd::prelude::*;

pub mod analog;
pub mod api;
pub mod cli;
pub mod compiler;
pub mod dense;
pub mod edge_cache;
pub mod eigen;
pub mod evolution;
pub mod fixed;
pub mod gpio;
pub mod hal;
pub mod laplacian;
pub mod sparse;
pub mod spi;
pub mod sync;
pub mod system;
pub mod time_slicer;

verus! {
}
