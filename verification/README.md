# arcturus

Firmware and host-tool logic for the Arcturus quantum-relational chip, written
in Verus: every function in `src/` carries a contract, and all but one are
proved. The exception is `cli::parse_u32_radix`, a trusted wrapper around the
standard library's `u32::from_str_radix`; its contract restates what that
function's documentation promises, and nothing checks it.

Fixed-capacity collections (the entries of sparse matrices, adjacency lists,
time-slice matrices, the edge cache and its queues, the eigenmode store) are
`Vec`s whose capacity is a type invariant stated in each type's contracts,
rather than `heapless::Vec`. The capacities are const generics of the library's
types, and a name for a collection's contents must be a spec function without
generic parameters, so the contents of a `heapless::Vec<T, N>` for a generic `N`
could not be named in the contracts.

- `src/` — the verified library
  - `fixed` — Q16.16 fixed point, complex numbers, memory banks
  - `sparse`, `dense` — sparse (coordinate) and small dense complex matrices
  - `laplacian` — grid topology, adjacency lists, the graph Laplacian L = D - A
  - `evolution` — alpha control, the evolution operator and the step
    W' = U W U^T with its norm check
  - `time_slicer`, `spi` — relational state banks in PSRAM, the PSRAM and PC
    wire formats
  - `edge_cache`, `eigen` — the 2-bit conductance cache and eigenvalue storage
  - `sync` — block-universe correlations between Past, Present and Future
  - `api`, `cli`, `compiler` — the command protocol on both ends, the model
    compiler
  - `hal`, `gpio`, `analog`, `system` — hardware handles, node addressing,
    firmware status
- `tests/` — scenario tests of the library
- `app/` — the command-line tools, drivers over embedded-hal, and the
  floating-point parts (conversions, eigenvalue formula, the dense operator's
  division steps)
