//! Eigenbasis memory: data bits stored as perturbations of Laplacian
//! eigenvalues. A stored 1 raises the mode's eigenvalue by a fixed delta, a
//! stored 0 leaves it at its base value.

use vstd::prelude::*;
use crate::fixed::{Complex, Fixed, saturate_i32, sat_add_i32};
use crate::time_slicer::{SparseWMatrix, WView};

verus! {

/// Number of Laplacian eigenvalues (one per node).
pub const NUM_EIGENVALUES: usize = 10000;

/// Number of eigenmodes used for data storage.
pub const STORAGE_MODES: usize = 1024;

/// Eigenvalue perturbation that encodes a stored 1.
pub const EIGEN_PERTURBATION_DELTA: Fixed = 0x00001000;

/// First eigenvalue index used for storage (the zero eigenvalue is skipped).
pub const MIN_EIGEN_INDEX: usize = 1;

/// One past the last eigenvalue index used for storage.
pub const MAX_EIGEN_INDEX: usize = 1025;

/// A stored data value.
#[derive(Debug, Clone, Copy, PartialEq, Eq, Structural)]
pub enum EigenDataValue {
    /// No perturbation (logical 0)
    Zero,
    /// Positive perturbation (logical 1)
    One,
    /// Undefined/invalid
    Invalid,
}

impl EigenDataValue {
    /// The byte that stands for the value.
    pub open spec fn code_spec(self) -> u8 {
        match self {
            EigenDataValue::Zero => 0,
            EigenDataValue::One => 1,
            EigenDataValue::Invalid => 0xFF,
        }
    }

    /// The value a byte decodes to: 0 and 1 stand for themselves, every other
    /// byte is invalid.
    pub open spec fn from_u8_spec(value: u8) -> EigenDataValue {
        if value == 0 {
            EigenDataValue::Zero
        } else if value == 1 {
            EigenDataValue::One
        } else {
            EigenDataValue::Invalid
        }
    }

    /// The byte that stands for the value.
    pub fn code(self) -> (r: u8)
        ensures
            r == self.code_spec(),
    {
        match self {
            EigenDataValue::Zero => 0,
            EigenDataValue::One => 1,
            EigenDataValue::Invalid => 0xFF,
        }
    }
}

impl From<u8> for EigenDataValue {
    fn from(value: u8) -> (r: Self) {
        if value == 0 {
            EigenDataValue::Zero
        } else if value == 1 {
            EigenDataValue::One
        } else {
            EigenDataValue::Invalid
        }
    }
}

impl vstd::std_specs::convert::FromSpecImpl<u8> for EigenDataValue {
    open spec fn obeys_from_spec() -> bool {
        true
    }

    open spec fn from_spec(value: u8) -> EigenDataValue {
        EigenDataValue::from_u8_spec(value)
    }
}

impl Default for EigenDataValue {
    fn default() -> (r: Self)
        ensures
            r == EigenDataValue::Zero,
    {
        EigenDataValue::Zero
    }
}

/// Decoding the byte of a value gives the value back.
pub proof fn law_data_value_round_trip(v: EigenDataValue)
    ensures
        EigenDataValue::from_u8_spec(v.code_spec()) == v,
{
}

/// The eigenvalue a mode presents: its base value, raised by the delta
/// (saturating) when it stores a 1.
pub open spec fn perturbed_spec(base_value: Fixed, data: EigenDataValue) -> Fixed {
    match data {
        EigenDataValue::One => saturate_i32(base_value + EIGEN_PERTURBATION_DELTA),
        _ => base_value,
    }
}

/// One eigenmode and the bit it stores.
#[derive(Debug, Clone, Copy, PartialEq, Eq, Structural)]
pub struct EigenModeStorage {
    /// Eigenvalue index (k)
    pub index: u16,
    /// Base eigenvalue of the mode, without perturbation
    pub base_value: Fixed,
    /// Stored data
    pub data: EigenDataValue,
}

impl Default for EigenModeStorage {
    fn default() -> (r: Self)
        ensures
            r == (EigenModeStorage { index: 0, base_value: 0, data: EigenDataValue::Zero }),
    {
        EigenModeStorage { index: 0, base_value: 0, data: EigenDataValue::Zero }
    }
}

impl EigenModeStorage {
    /// A mode with the given index, base eigenvalue and data.
    pub fn new(index: u16, base_value: Fixed, data: EigenDataValue) -> (r: Self)
        ensures
            r == (EigenModeStorage { index, base_value, data }),
    {
        EigenModeStorage { index, base_value, data }
    }

    /// The eigenvalue the mode presents.
    pub fn perturbed_value(&self) -> (r: Fixed)
        ensures
            r == perturbed_spec(self.base_value, self.data),
    {
        match self.data {
            EigenDataValue::One => sat_add_i32(self.base_value, EIGEN_PERTURBATION_DELTA),
            _ => self.base_value,
        }
    }

    /// Whether a measured eigenvalue lies within `tolerance` of the one the
    /// mode presents.
    pub fn verify(&self, measured: Fixed, tolerance: Fixed) -> (r: bool)
        requires
            i32::MIN <= measured - perturbed_spec(self.base_value, self.data) <= i32::MAX,
            i32::MIN <= perturbed_spec(self.base_value, self.data) - measured <= i32::MAX,
        ensures
            r == (crate::fixed::abs_int(measured - perturbed_spec(self.base_value, self.data))
                <= tolerance),
    {
        let expected = self.perturbed_value();
        let diff = if measured > expected {
            measured - expected
        } else {
            expected - measured
        };
        diff <= tolerance
    }
}

/// The mode at position `k` of a freshly initialized manager.
pub open spec fn initial_mode(bases: Seq<Fixed>, k: int) -> EigenModeStorage {
    EigenModeStorage {
        index: (MIN_EIGEN_INDEX + k) as u16,
        base_value: bases[k],
        data: EigenDataValue::Zero,
    }
}

/// The modes after writing `data` to position `mode_index`: missing
/// positions up to it are first filled with zero modes that all carry the
/// eigenvalue index `MIN_EIGEN_INDEX + mode_index` and `base_value`.
pub open spec fn write_mode_spec(
    modes: Seq<EigenModeStorage>,
    mode_index: int,
    data: EigenDataValue,
    base_value: Fixed,
) -> Seq<EigenModeStorage> {
    let pad = EigenModeStorage {
        index: (MIN_EIGEN_INDEX + mode_index) as u16,
        base_value,
        data: EigenDataValue::Zero,
    };
    let filled = if modes.len() <= mode_index {
        modes + Seq::new((mode_index + 1 - modes.len()) as nat, |k: int| pad)
    } else {
        modes
    };
    filled.update(mode_index, EigenModeStorage { data, ..filled[mode_index] })
}

/// The value read at a position: its data, or `Invalid` past the end.
pub open spec fn read_mode_spec(modes: Seq<EigenModeStorage>, mode_index: int) -> EigenDataValue {
    if 0 <= mode_index < modes.len() {
        modes[mode_index].data
    } else {
        EigenDataValue::Invalid
    }
}

/// Eigenbasis memory manager.
pub struct EigenManager {
    /// Storage for eigenmode data (at most `STORAGE_MODES` modes)
    pub modes: Vec<EigenModeStorage>,
}

impl EigenManager {
    /// At most `STORAGE_MODES` modes are stored.
    pub open spec fn wf(&self) -> bool {
        self.modes@.len() <= STORAGE_MODES
    }

    /// A manager with no modes.
    pub fn new() -> (r: Self)
        ensures
            r.wf(),
            r.modes@ == Seq::<EigenModeStorage>::empty(),
    {
        EigenManager { modes: Vec::new() }
    }

    /// Replace the modes by all `STORAGE_MODES` storage modes, each storing
    /// 0; `bases[k]` is the base eigenvalue of eigenvalue index
    /// `MIN_EIGEN_INDEX + k`.
    pub fn initialize_zeros(&mut self, bases: &[Fixed]) -> (r: Result<(), ()>)
        requires
            bases@.len() == STORAGE_MODES,
        ensures
            r is Ok,
            final(self).wf(),
            final(self).modes@ == Seq::new(STORAGE_MODES as nat, |k: int| initial_mode(bases@, k)),
    {
        self.modes.clear();
        let mut i: usize = MIN_EIGEN_INDEX;
        while i < MAX_EIGEN_INDEX
            invariant
                bases@.len() == STORAGE_MODES,
                MIN_EIGEN_INDEX <= i <= MAX_EIGEN_INDEX,
                self.modes@ == Seq::new((i - MIN_EIGEN_INDEX) as nat, |k: int| initial_mode(bases@, k)),
            decreases MAX_EIGEN_INDEX - i,
        {
            let mode = EigenModeStorage::new(i as u16, bases[i - MIN_EIGEN_INDEX], EigenDataValue::Zero);
            self.modes.push(mode);
            assert(self.modes@ =~= Seq::new(
                (i + 1 - MIN_EIGEN_INDEX) as nat,
                |k: int| initial_mode(bases@, k),
            ));
            i += 1;
        }
        Ok(())
    }

    /// Store `data` at position `mode_index`, first filling missing positions
    /// up to it; `base_value` is the base eigenvalue of eigenvalue index
    /// `MIN_EIGEN_INDEX + mode_index`. Fails, changing nothing, for a
    /// position past the storage modes.
    pub fn write_mode(&mut self, mode_index: usize, data: EigenDataValue, base_value: Fixed) -> (r: Result<(), ()>)
        requires
            old(self).wf(),
        ensures
            final(self).wf(),
            r is Ok <==> mode_index < STORAGE_MODES,
            r is Ok ==> final(self).modes@ == write_mode_spec(old(self).modes@, mode_index as int, data, base_value),
            r is Err ==> final(self).modes@ == old(self).modes@,
    {
        if mode_index >= STORAGE_MODES {
            return Err(());
        }
        let ghost start = self.modes@;
        let ghost pad = EigenModeStorage {
            index: (MIN_EIGEN_INDEX + mode_index) as u16,
            base_value,
            data: EigenDataValue::Zero,
        };
        while self.modes.len() <= mode_index
            invariant
                mode_index < STORAGE_MODES,
                start.len() <= STORAGE_MODES,
                pad == (EigenModeStorage {
                    index: (MIN_EIGEN_INDEX + mode_index) as u16,
                    base_value,
                    data: EigenDataValue::Zero,
                }),
                self.modes@.len() <= mode_index + 1 || self.modes@ == start,
                start.len() <= self.modes@.len(),
                self.modes@ == start + Seq::new((self.modes@.len() - start.len()) as nat, |k: int| pad),
            decreases mode_index + 1 - self.modes@.len(),
        {
            let idx = MIN_EIGEN_INDEX + mode_index;
            let mode = EigenModeStorage::new(idx as u16, base_value, EigenDataValue::Zero);
            assert(mode == pad);
            let ghost before = self.modes@;
            self.modes.push(mode);
            assert forall|k: int| 0 <= k < self.modes@.len() implies #[trigger] self.modes@[k] == (start
                + Seq::new((self.modes@.len() - start.len()) as nat, |j: int| pad))[k] by {
                if k < before.len() {
                    assert(self.modes@[k] == before[k]);
                }
            }
            assert(self.modes@ =~= start + Seq::new((self.modes@.len() - start.len()) as nat, |k: int| pad));
        }
        proof {
            if start.len() <= mode_index {
                assert(self.modes@ =~= start + Seq::new(
                    (mode_index + 1 - start.len()) as nat,
                    |k: int| pad,
                ));
            } else {
                assert(self.modes@ =~= start);
            }
        }
        let mut m = self.modes[mode_index];
        m.data = data;
        self.modes.set(mode_index, m);
        Ok(())
    }

    /// The data stored at a position, or `Invalid` past the end.
    pub fn read_mode(&self, mode_index: usize) -> (r: EigenDataValue)
        ensures
            r == read_mode_spec(self.modes@, mode_index as int),
    {
        if mode_index < self.modes.len() {
            self.modes[mode_index].data
        } else {
            EigenDataValue::Invalid
        }
    }

    /// The mode stored at a position, if any.
    pub fn get_mode(&self, mode_index: usize) -> (r: Option<&EigenModeStorage>)
        ensures
            mode_index < self.modes@.len() ==> r == Some(&self.modes@[mode_index as int]),
            mode_index >= self.modes@.len() ==> r is None,
    {
        if mode_index < self.modes.len() {
            Some(&self.modes[mode_index])
        } else {
            None
        }
    }

    /// Spectral coefficients of a state matrix: one coefficient per stored
    /// mode, each zero (no eigenvector matrix is held).
    pub fn project_to_spectral(&self, w_matrix: &SparseWMatrix<100>) -> (r: Result<Vec<Complex>, ()>)
        requires
            self.wf(),
        ensures
            r matches Ok(c) && c@ == Seq::new(self.modes@.len(), |k: int| Complex { re: 0, im: 0 }),
    {
        let n = self.modes.len();
        let mut coeffs: Vec<Complex> = Vec::new();
        let mut i: usize = 0;
        while i < n
            invariant
                n == self.modes@.len(),
                i <= n,
                coeffs@ == Seq::new(i as nat, |k: int| Complex { re: 0, im: 0 }),
            decreases n - i,
        {
            coeffs.push(Complex::default());
            assert(coeffs@ =~= Seq::new((i + 1) as nat, |k: int| Complex { re: 0, im: 0 }));
            i += 1;
        }
        Ok(coeffs)
    }

    /// The state matrix of a set of spectral coefficients: the empty
    /// 100-dimensional matrix (no eigenvector matrix is held).
    pub fn reconstruct_from_spectral(&self, coeffs: &[Complex]) -> (r: Result<SparseWMatrix<100>, ()>)
        ensures
            r matches Ok(w) && w@ == (WView { dimension: 100, elements: Seq::empty() }),
    {
        Ok(SparseWMatrix::new(100))
    }

    /// The energy of each stored mode: the square of the eigenvalue it
    /// presents.
    pub fn spectral_energy(&self) -> (r: Result<Vec<i64>, ()>)
        requires
            self.wf(),
        ensures
            r matches Ok(e) && e@.len() == self.modes@.len() && forall|k: int|
                0 <= k < e@.len() ==> #[trigger] e@[k] == perturbed_spec(
                    self.modes@[k].base_value,
                    self.modes@[k].data,
                ) * perturbed_spec(self.modes@[k].base_value, self.modes@[k].data),
    {
        let n = self.modes.len();
        let mut energy: Vec<i64> = Vec::new();
        let mut i: usize = 0;
        while i < n
            invariant
                n == self.modes@.len(),
                i <= n,
                energy@.len() == i,
                forall|k: int|
                    0 <= k < i ==> #[trigger] energy@[k] == perturbed_spec(
                        self.modes@[k].base_value,
                        self.modes@[k].data,
                    ) * perturbed_spec(self.modes@[k].base_value, self.modes@[k].data),
            decreases n - i,
        {
            let p = self.modes[i].perturbed_value() as i64;
            proof {
                crate::fixed::lemma_i32_product_fits_i64(p as i32, p as i32);
            }
            energy.push(p * p);
            i += 1;
        }
        Ok(energy)
    }

    /// The stored modes, in order.
    pub fn iter_modes(&self) -> (r: &[EigenModeStorage])
        ensures
            r@ == self.modes@,
    {
        self.modes.as_slice()
    }

    /// Number of stored modes.
    pub fn num_modes(&self) -> (r: usize)
        ensures
            r == self.modes@.len(),
    {
        self.modes.len()
    }

    /// Set every stored mode's data to 0.
    pub fn clear(&mut self)
        ensures
            final(self).modes@.len() == old(self).modes@.len(),
            forall|k: int|
                0 <= k < old(self).modes@.len() ==> #[trigger] final(self).modes@[k] == (EigenModeStorage {
                    data: EigenDataValue::Zero,
                    ..old(self).modes@[k]
                }),
    {
        let n = self.modes.len();
        let mut i: usize = 0;
        while i < n
            invariant
                n == self.modes@.len(),
                n == old(self).modes@.len(),
                i <= n,
                forall|k: int|
                    0 <= k < i ==> #[trigger] self.modes@[k] == (EigenModeStorage {
                        data: EigenDataValue::Zero,
                        ..old(self).modes@[k]
                    }),
                forall|k: int| i <= k < n ==> #[trigger] self.modes@[k] == old(self).modes@[k],
            decreases n - i,
        {
            let mut m = self.modes[i];
            m.data = EigenDataValue::Zero;
            self.modes.set(i, m);
            i += 1;
        }
    }
}

impl Default for EigenManager {
    fn default() -> (r: Self)
        ensures
            r.wf(),
            r.modes@ == Seq::<EigenModeStorage>::empty(),
    {
        Self::new()
    }
}

/// Writing a position inside the storage modes and reading it back gives
/// the written value.
pub proof fn law_read_after_write_mode(
    modes: Seq<EigenModeStorage>,
    mode_index: int,
    data: EigenDataValue,
    base_value: Fixed,
)
    requires
        0 <= mode_index < STORAGE_MODES,
    ensures
        read_mode_spec(write_mode_spec(modes, mode_index, data, base_value), mode_index) == data,
{
}

/// A write leaves every other stored position as it was.
pub proof fn law_write_mode_keeps_others(
    modes: Seq<EigenModeStorage>,
    mode_index: int,
    data: EigenDataValue,
    base_value: Fixed,
    other: int,
)
    requires
        0 <= mode_index < STORAGE_MODES,
        0 <= other < modes.len(),
        other != mode_index,
    ensures
        write_mode_spec(modes, mode_index, data, base_value)[other] == modes[other],
{
}

/// A stored 1 presents its base eigenvalue raised by exactly the delta,
/// unless that would pass the largest fixed-point value.
pub proof fn law_one_adds_delta(base_value: Fixed)
    requires
        base_value + EIGEN_PERTURBATION_DELTA <= i32::MAX,
    ensures
        perturbed_spec(base_value, EigenDataValue::One) - base_value == EIGEN_PERTURBATION_DELTA,
        perturbed_spec(base_value, EigenDataValue::Zero) == base_value,
{
}

} // verus!
