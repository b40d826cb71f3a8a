//! Block-universe synchronization: correlations between the Past, Present
//! and Future time slices, kept in a GHZ-like state where the Present is
//! equally correlated with Past and Future.

use vstd::prelude::*;
use crate::fixed::{Fixed, FIXED_ONE, abs_int, trunc_div};

verus! {

/// Synchronization state of a time slice.
#[derive(Debug, Clone, Copy, PartialEq, Eq, Structural)]
pub enum TimeState {
    Past,
    Present,
    Future,
    /// Mixed state
    Superposition,
}

impl TimeState {
    /// The byte that stands for the state.
    pub open spec fn code_spec(self) -> u8 {
        match self {
            TimeState::Past => 0,
            TimeState::Present => 1,
            TimeState::Future => 2,
            TimeState::Superposition => 3,
        }
    }

    /// The byte that stands for the state.
    pub fn code(self) -> (r: u8)
        ensures
            r == self.code_spec(),
    {
        match self {
            TimeState::Past => 0,
            TimeState::Present => 1,
            TimeState::Future => 2,
            TimeState::Superposition => 3,
        }
    }
}

/// GHZ-like correlation strength (fixed point, 0 to 1).
pub type CorrelationStrength = Fixed;

/// Maximum correlation value.
pub const MAX_CORRELATION: Fixed = 65536;

/// Minimum correlation for entanglement (~0.7).
pub const ENTANGLEMENT_THRESHOLD: Fixed = 0x0000B333;

/// Number of time slices (Past, Present, Future).
pub const NUM_TIME_SLICES: usize = 3;

/// Index of the Past slice.
pub const PAST: usize = 0;

/// Index of the Present slice.
pub const PRESENT: usize = 1;

/// Index of the Future slice.
pub const FUTURE: usize = 2;

/// Correlations between time slices: `m[i][j]` relates slice `i` to `j`.
pub type CorrelationMatrix = [[Fixed; 3]; 3];

/// The correlation stored for a pair of slices.
pub open spec fn corr(m: CorrelationMatrix, a: int, b: int) -> Fixed {
    m@[a]@[b]
}

/// The correlation read for a pair of slices: stored inside the matrix, 0
/// outside.
pub open spec fn correlation_spec(m: CorrelationMatrix, a: int, b: int) -> Fixed {
    if 0 <= a < NUM_TIME_SLICES && 0 <= b < NUM_TIME_SLICES {
        corr(m, a, b)
    } else {
        0
    }
}

/// The correlation of `(x, y)` after storing `value` for the pair `(a, b)`
/// in both directions.
pub open spec fn after_set(m: CorrelationMatrix, a: int, b: int, value: Fixed, x: int, y: int) -> Fixed {
    if (x == a && y == b) || (x == b && y == a) {
        value
    } else {
        corr(m, x, y)
    }
}

/// Every stored correlation equals its mirror.
pub open spec fn symmetric(m: CorrelationMatrix) -> bool {
    forall|a: int, b: int| 0 <= a < 3 && 0 <= b < 3 ==> #[trigger] corr(m, a, b) == corr(m, b, a)
}

/// The GHZ fidelity: the mean of the three cross correlations (rounded
/// toward zero), capped at one.
pub open spec fn ghz_fidelity_spec(m: CorrelationMatrix) -> Fixed {
    let sum = corr(m, 1, 0) + corr(m, 1, 2) + corr(m, 0, 2);
    let mean = trunc_div(sum, 3);
    if mean < FIXED_ONE {
        mean as Fixed
    } else {
        FIXED_ONE
    }
}

/// The correlations of the three slices and their synchronization state.
#[derive(Debug, Clone)]
pub struct BlockUniverse {
    /// Correlation matrix between time slices
    pub correlations: CorrelationMatrix,
    /// GHZ-like entanglement strength (0-1)
    pub entanglement_strength: Fixed,
    /// Current sync state of each slice
    pub slice_states: [TimeState; 3],
    /// Whether the slices are synchronized
    pub synchronized: bool,
    /// Sync timestamp (cycle counter)
    pub sync_timestamp: u64,
}

/// Store `value` at one cell of a correlation matrix.
fn store_cell(m: &mut CorrelationMatrix, a: usize, b: usize, value: Fixed)
    requires
        a < 3,
        b < 3,
    ensures
        forall|x: int, y: int|
            0 <= x < 3 && 0 <= y < 3 ==> #[trigger] corr(*final(m), x, y) == if x == a && y == b {
                value
            } else {
                corr(*old(m), x, y)
            },
{
    let mut row = m[a];
    row[b] = value;
    m[a] = row;
}

impl BlockUniverse {
    /// No correlations, every slice in superposition, unsynchronized.
    pub fn new() -> (r: Self)
        ensures
            forall|a: int, b: int| 0 <= a < 3 && 0 <= b < 3 ==> #[trigger] corr(r.correlations, a, b) == 0,
            r.entanglement_strength == 0,
            r.slice_states@ == seq![TimeState::Superposition, TimeState::Superposition, TimeState::Superposition],
            !r.synchronized,
            r.sync_timestamp == 0,
    {
        BlockUniverse {
            correlations: [[0, 0, 0], [0, 0, 0], [0, 0, 0]],
            entanglement_strength: 0,
            slice_states: [TimeState::Superposition, TimeState::Superposition, TimeState::Superposition],
            synchronized: false,
            sync_timestamp: 0,
        }
    }

    /// Perfect GHZ entanglement: every correlation one, every slice in the
    /// Present, synchronized, timestamp reset.
    pub fn initialize_ghz(&mut self)
        ensures
            forall|a: int, b: int|
                0 <= a < 3 && 0 <= b < 3 ==> #[trigger] corr(final(self).correlations, a, b) == FIXED_ONE,
            final(self).entanglement_strength == FIXED_ONE,
            final(self).slice_states@ == seq![TimeState::Present, TimeState::Present, TimeState::Present],
            final(self).synchronized,
            final(self).sync_timestamp == 0,
    {
        let mut i: usize = 0;
        while i < NUM_TIME_SLICES
            invariant
                i <= 3,
                forall|a: int, b: int| 0 <= a < i && 0 <= b < 3 ==> #[trigger] corr(self.correlations, a, b) == FIXED_ONE,
            decreases 3 - i,
        {
            let mut j: usize = 0;
            while j < NUM_TIME_SLICES
                invariant
                    i < 3,
                    j <= 3,
                    forall|a: int, b: int|
                        0 <= a < i && 0 <= b < 3 ==> #[trigger] corr(self.correlations, a, b) == FIXED_ONE,
                    forall|b: int| 0 <= b < j ==> #[trigger] corr(self.correlations, i as int, b) == FIXED_ONE,
                decreases 3 - j,
            {
                if i == j {
                    store_cell(&mut self.correlations, i, j, FIXED_ONE);
                } else {
                    store_cell(&mut self.correlations, i, j, FIXED_ONE);
                }
                j += 1;
            }
            i += 1;
        }
        self.entanglement_strength = FIXED_ONE;
        self.slice_states = [TimeState::Present, TimeState::Present, TimeState::Present];
        self.synchronized = true;
        self.sync_timestamp = 0;
    }

    /// The correlation of two slices; 0 for a slice outside the three.
    pub fn correlation(&self, slice_a: usize, slice_b: usize) -> (r: Fixed)
        ensures
            r == correlation_spec(self.correlations, slice_a as int, slice_b as int),
    {
        if slice_a < NUM_TIME_SLICES && slice_b < NUM_TIME_SLICES {
            self.correlations[slice_a][slice_b]
        } else {
            0
        }
    }

    /// Store a correlation for a pair of slices in both directions; a pair
    /// outside the three changes nothing.
    pub fn set_correlation(&mut self, slice_a: usize, slice_b: usize, value: Fixed)
        ensures
            slice_a < 3 && slice_b < 3 ==> forall|x: int, y: int|
                0 <= x < 3 && 0 <= y < 3 ==> #[trigger] corr(final(self).correlations, x, y) == after_set(
                    old(self).correlations,
                    slice_a as int,
                    slice_b as int,
                    value,
                    x,
                    y,
                ),
            !(slice_a < 3 && slice_b < 3) ==> final(self).correlations == old(self).correlations,
            final(self).entanglement_strength == old(self).entanglement_strength,
            final(self).slice_states == old(self).slice_states,
            final(self).synchronized == old(self).synchronized,
            final(self).sync_timestamp == old(self).sync_timestamp,
    {
        if slice_a < NUM_TIME_SLICES && slice_b < NUM_TIME_SLICES {
            store_cell(&mut self.correlations, slice_a, slice_b, value);
            store_cell(&mut self.correlations, slice_b, slice_a, value);
        }
    }

    /// Whether the Present is entangled with both Past and Future.
    pub fn is_entangled(&self) -> (r: bool)
        ensures
            r == (corr(self.correlations, 1, 0) >= ENTANGLEMENT_THRESHOLD && corr(self.correlations, 1, 2)
                >= ENTANGLEMENT_THRESHOLD),
    {
        let corr_past = self.correlation(PRESENT, PAST);
        let corr_future = self.correlation(PRESENT, FUTURE);
        corr_past >= ENTANGLEMENT_THRESHOLD && corr_future >= ENTANGLEMENT_THRESHOLD
    }

    /// Synchronize the slices: the mean of the Present's correlations with
    /// Past and Future (rounded toward zero) becomes every cross
    /// correlation; the timestamp advances.
    pub fn synchronize(&mut self)
        requires
            i32::MIN <= corr(old(self).correlations, 1, 0) + corr(old(self).correlations, 1, 2) <= i32::MAX,
            old(self).sync_timestamp < u64::MAX,
        ensures
            ({
                let avg = trunc_div(
                    corr(old(self).correlations, 1, 0) + corr(old(self).correlations, 1, 2),
                    2,
                );
                &&& corr(final(self).correlations, 1, 0) == avg
                &&& corr(final(self).correlations, 0, 1) == avg
                &&& corr(final(self).correlations, 1, 2) == avg
                &&& corr(final(self).correlations, 2, 1) == avg
                &&& corr(final(self).correlations, 0, 2) == avg
                &&& corr(final(self).correlations, 2, 0) == avg
            }),
            forall|a: int| 0 <= a < 3 ==> #[trigger] corr(final(self).correlations, a, a) == corr(
                old(self).correlations,
                a,
                a,
            ),
            final(self).synchronized,
            final(self).sync_timestamp == old(self).sync_timestamp + 1,
            final(self).entanglement_strength == old(self).entanglement_strength,
            final(self).slice_states == old(self).slice_states,
    {
        let s: i64 = self.correlation(PRESENT, PAST) as i64 + self.correlation(PRESENT, FUTURE) as i64;
        let us: u64 = if s < 0 { (-s) as u64 } else { s as u64 };
        let uq: u64 = us / 2;
        let q: i64 = if s >= 0 || uq == 0 { uq as i64 } else { -(uq as i64) };
        assert(q == trunc_div(s as int, 2));
        let avg = q as Fixed;
        self.set_correlation(PRESENT, PAST, avg);
        self.set_correlation(PRESENT, FUTURE, avg);
        self.set_correlation(PAST, FUTURE, avg);
        self.synchronized = true;
        self.sync_timestamp += 1;
    }

    /// When synchronized, carry the Present–Past correlation over to the
    /// Present–Future and Past–Future pairs; otherwise change nothing.
    pub fn evolve_correlations(&mut self, alpha: Fixed)
        ensures
            !old(self).synchronized ==> *final(self) == *old(self),
            old(self).synchronized ==> ({
                let p = corr(old(self).correlations, 1, 0);
                &&& corr(final(self).correlations, 1, 2) == p
                &&& corr(final(self).correlations, 2, 1) == p
                &&& corr(final(self).correlations, 0, 2) == p
                &&& corr(final(self).correlations, 2, 0) == p
                &&& corr(final(self).correlations, 1, 0) == p
                &&& corr(final(self).correlations, 0, 1) == corr(old(self).correlations, 0, 1)
                &&& forall|a: int| 0 <= a < 3 ==> #[trigger] corr(final(self).correlations, a, a) == corr(
                    old(self).correlations,
                    a,
                    a,
                )
                &&& final(self).synchronized
                &&& final(self).sync_timestamp == old(self).sync_timestamp
                &&& final(self).entanglement_strength == old(self).entanglement_strength
                &&& final(self).slice_states == old(self).slice_states
            }),
    {
        if !self.synchronized {
            return;
        }
        let preserved_corr = self.correlation(PRESENT, PAST);
        self.set_correlation(PRESENT, FUTURE, preserved_corr);
        self.set_correlation(PAST, FUTURE, preserved_corr);
    }

    /// The GHZ fidelity of the current correlations.
    pub fn ghz_fidelity(&self) -> (r: Fixed)
        ensures
            r == ghz_fidelity_spec(self.correlations),
    {
        let c1 = self.correlation(PRESENT, PAST) as i64;
        let c2 = self.correlation(PRESENT, FUTURE) as i64;
        let c3 = self.correlation(PAST, FUTURE) as i64;
        let sum = c1 + c2 + c3;
        let us: u64 = if sum < 0 { (-sum) as u64 } else { sum as u64 };
        let uq: u64 = us / 3;
        let q: i64 = if sum >= 0 || uq == 0 { uq as i64 } else { -(uq as i64) };
        assert(q == trunc_div(sum as int, 3));
        let mean = q as i32;
        if mean < FIXED_ONE {
            mean
        } else {
            FIXED_ONE
        }
    }

    /// Back to the state of `new`.
    pub fn reset(&mut self)
        ensures
            forall|a: int, b: int|
                0 <= a < 3 && 0 <= b < 3 ==> #[trigger] corr(final(self).correlations, a, b) == 0,
            final(self).entanglement_strength == 0,
            final(self).slice_states@ == seq![TimeState::Superposition, TimeState::Superposition, TimeState::Superposition],
            !final(self).synchronized,
            final(self).sync_timestamp == 0,
    {
        *self = Self::new();
    }
}

impl Default for BlockUniverse {
    fn default() -> (r: Self)
        ensures
            forall|a: int, b: int| 0 <= a < 3 && 0 <= b < 3 ==> #[trigger] corr(r.correlations, a, b) == 0,
            r.entanglement_strength == 0,
            r.slice_states@ == seq![TimeState::Superposition, TimeState::Superposition, TimeState::Superposition],
            !r.synchronized,
            r.sync_timestamp == 0,
    {
        Self::new()
    }
}

/// Storing a correlation keeps a symmetric matrix symmetric.
pub proof fn law_set_correlation_keeps_symmetry(m: CorrelationMatrix, a: int, b: int, value: Fixed)
    requires
        symmetric(m),
    ensures
        forall|x: int, y: int|
            0 <= x < 3 && 0 <= y < 3 ==> #[trigger] after_set(m, a, b, value, x, y) == after_set(
                m,
                a,
                b,
                value,
                y,
                x,
            ),
{
}

/// The GHZ fidelity never exceeds one.
pub proof fn law_fidelity_at_most_one(m: CorrelationMatrix)
    ensures
        ghz_fidelity_spec(m) <= FIXED_ONE,
{
    let sum = corr(m, 1, 0) + corr(m, 1, 2) + corr(m, 0, 2);
    let q = abs_int(sum) / 3;
    assert(q <= abs_int(sum)) by (nonlinear_arith)
        requires
            q == abs_int(sum) / 3,
            abs_int(sum) >= 0,
    ;
    assert(3 * q <= abs_int(sum)) by (nonlinear_arith)
        requires
            q == abs_int(sum) / 3,
            abs_int(sum) >= 0,
    ;
}

/// The GHZ fidelity is the mean of the three cross correlations
/// (Present-Past, Present-Future, Past-Future), rounded toward zero and capped
/// at one: with `s` their sum, three times the fidelity is within 3 of `s`
/// on the side of zero, unless `s` reaches three times one.
pub proof fn law_fidelity_is_mean_of_cross_correlations(m: CorrelationMatrix)
    ensures
        ({
            let s = m@[1]@[0] + m@[1]@[2] + m@[0]@[2];
            let f = ghz_fidelity_spec(m) as int;
            &&& s >= 3 * FIXED_ONE ==> f == FIXED_ONE
            &&& 0 <= s < 3 * FIXED_ONE ==> 3 * f <= s < 3 * f + 3
            &&& s < 0 ==> 3 * f - 3 < s <= 3 * f
        }),
{
    let s = corr(m, 1, 0) + corr(m, 1, 2) + corr(m, 0, 2);
    let q = abs_int(s) / 3;
    assert(3 * q <= abs_int(s) < 3 * q + 3) by (nonlinear_arith)
        requires
            q == abs_int(s) / 3,
            abs_int(s) >= 0,
    ;
}

/// Two correlation states that differ only in the Present-Past correlation,
/// by `3k`, have GHZ fidelities that differ by exactly `k` while both means
/// stay in `[0, 1)`.
pub proof fn law_fidelity_follows_present_past(m: CorrelationMatrix, m2: CorrelationMatrix, k: int)
    requires
        k >= 0,
        m2@[1]@[0] == m@[1]@[0] + 3 * k,
        m2@[1]@[2] == m@[1]@[2],
        m2@[0]@[2] == m@[0]@[2],
        m@[1]@[0] + m@[1]@[2] + m@[0]@[2] >= 0,
        m2@[1]@[0] + m2@[1]@[2] + m2@[0]@[2] < 3 * FIXED_ONE,
    ensures
        ghz_fidelity_spec(m2) == ghz_fidelity_spec(m) + k,
{
    law_fidelity_is_mean_of_cross_correlations(m);
    law_fidelity_is_mean_of_cross_correlations(m2);
}

/// With every correlation at one, the slices are entangled and the
/// fidelity is exactly one.
pub proof fn law_perfect_ghz(m: CorrelationMatrix)
    requires
        forall|a: int, b: int| 0 <= a < 3 && 0 <= b < 3 ==> #[trigger] corr(m, a, b) == FIXED_ONE,
    ensures
        ghz_fidelity_spec(m) == FIXED_ONE,
        corr(m, 1, 0) >= ENTANGLEMENT_THRESHOLD && corr(m, 1, 2) >= ENTANGLEMENT_THRESHOLD,
{
    assert(corr(m, 1, 0) == FIXED_ONE);
    assert(corr(m, 1, 2) == FIXED_ONE);
    assert(corr(m, 0, 2) == FIXED_ONE);
    assert(abs_int(196608) == 196608);
    assert(abs_int(3) == 3);
    assert(196608int / 3int == 65536) by (nonlinear_arith);
    assert(trunc_div(196608, 3) == 65536);
}

/// Synchronizes a block universe across the grid.
#[derive(Debug, Clone)]
pub struct BlockUniverseSync {
    /// Local block universe state
    pub universe: BlockUniverse,
    /// Correlation threshold for sync
    pub sync_threshold: Fixed,
    /// Whether this node is the sync master
    pub is_master: bool,
    /// Sync counter
    pub sync_count: u32,
}

impl BlockUniverseSync {
    /// A fresh universe, the entanglement threshold, not master, no syncs.
    pub fn new() -> (r: Self)
        ensures
            forall|a: int, b: int|
                0 <= a < 3 && 0 <= b < 3 ==> #[trigger] corr(r.universe.correlations, a, b) == 0,
            r.universe.entanglement_strength == 0,
            !r.universe.synchronized,
            r.universe.sync_timestamp == 0,
            r.sync_threshold == ENTANGLEMENT_THRESHOLD,
            !r.is_master,
            r.sync_count == 0,
    {
        BlockUniverseSync {
            universe: BlockUniverse::new(),
            sync_threshold: ENTANGLEMENT_THRESHOLD,
            is_master: false,
            sync_count: 0,
        }
    }

    /// Put the universe in the perfect GHZ state.
    pub fn initialize_ghz(&mut self)
        ensures
            forall|a: int, b: int|
                0 <= a < 3 && 0 <= b < 3 ==> #[trigger] corr(final(self).universe.correlations, a, b)
                    == FIXED_ONE,
            final(self).universe.entanglement_strength == FIXED_ONE,
            final(self).universe.synchronized,
            final(self).universe.sync_timestamp == 0,
            final(self).sync_threshold == old(self).sync_threshold,
            final(self).is_master == old(self).is_master,
            final(self).sync_count == old(self).sync_count,
    {
        self.universe.initialize_ghz();
    }

    /// Synchronize when the universe is entangled (counting the sync and
    /// returning true). When the correlation strength has fallen below the
    /// threshold, the GHZ correlations are re-established instead: the
    /// universe is put back in the perfect GHZ state, no sync is counted, and
    /// the call returns false.
    pub fn synchronize(&mut self) -> (r: bool)
        requires
            corr(old(self).universe.correlations, 1, 0) >= ENTANGLEMENT_THRESHOLD && corr(
                old(self).universe.correlations,
                1,
                2,
            ) >= ENTANGLEMENT_THRESHOLD ==> {
                &&& corr(old(self).universe.correlations, 1, 0) + corr(old(self).universe.correlations, 1, 2)
                    <= i32::MAX
                &&& old(self).universe.sync_timestamp < u64::MAX
                &&& old(self).sync_count < u32::MAX
            },
        ensures
            r == (corr(old(self).universe.correlations, 1, 0) >= ENTANGLEMENT_THRESHOLD && corr(
                old(self).universe.correlations,
                1,
                2,
            ) >= ENTANGLEMENT_THRESHOLD),
            r ==> ({
                let avg = trunc_div(
                    corr(old(self).universe.correlations, 1, 0) + corr(old(self).universe.correlations, 1, 2),
                    2,
                );
                &&& corr(final(self).universe.correlations, 1, 0) == avg
                &&& corr(final(self).universe.correlations, 1, 2) == avg
                &&& corr(final(self).universe.correlations, 0, 2) == avg
                &&& final(self).universe.synchronized
                &&& final(self).universe.sync_timestamp == old(self).universe.sync_timestamp + 1
                &&& final(self).sync_count == old(self).sync_count + 1
            }),
            !r ==> ({
                &&& forall|a: int, b: int|
                    0 <= a < 3 && 0 <= b < 3 ==> #[trigger] corr(final(self).universe.correlations, a, b)
                        == FIXED_ONE
                &&& final(self).universe.entanglement_strength == FIXED_ONE
                &&& final(self).universe.synchronized
                &&& final(self).universe.sync_timestamp == 0
                &&& final(self).sync_count == old(self).sync_count
            }),
            final(self).sync_threshold == old(self).sync_threshold,
            final(self).is_master == old(self).is_master,
    {
        if self.universe.is_entangled() {
            self.universe.synchronize();
            self.sync_count += 1;
            true
        } else {
            self.universe.initialize_ghz();
            false
        }
    }

    /// Whether the universe is synchronized and entangled.
    pub fn is_synchronized(&self) -> (r: bool)
        ensures
            r == (self.universe.synchronized && corr(self.universe.correlations, 1, 0) >= ENTANGLEMENT_THRESHOLD
                && corr(self.universe.correlations, 1, 2) >= ENTANGLEMENT_THRESHOLD),
    {
        self.universe.synchronized && self.universe.is_entangled()
    }

    /// Whether synchronized, the GHZ fidelity, and the sync count.
    pub fn status(&self) -> (r: (bool, Fixed, u32))
        ensures
            r.0 == (self.universe.synchronized && corr(self.universe.correlations, 1, 0)
                >= ENTANGLEMENT_THRESHOLD && corr(self.universe.correlations, 1, 2) >= ENTANGLEMENT_THRESHOLD),
            r.1 == ghz_fidelity_spec(self.universe.correlations),
            r.2 == self.sync_count,
    {
        (self.is_synchronized(), self.universe.ghz_fidelity(), self.sync_count)
    }
}

impl Default for BlockUniverseSync {
    fn default() -> (r: Self)
        ensures
            forall|a: int, b: int|
                0 <= a < 3 && 0 <= b < 3 ==> #[trigger] corr(r.universe.correlations, a, b) == 0,
            r.universe.entanglement_strength == 0,
            !r.universe.synchronized,
            r.universe.sync_timestamp == 0,
            r.sync_threshold == ENTANGLEMENT_THRESHOLD,
            !r.is_master,
            r.sync_count == 0,
    {
        Self::new()
    }
}

} // verus!
