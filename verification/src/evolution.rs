//! Evolution of the relational state: W(t+1) = U · W(t) · U^T with the
//! unitary operator U = exp(iαL), and the alpha control that keeps the
//! evolution away from its dead zone.

use vstd::prelude::*;
use crate::fixed::{Complex, Fixed, FIXED_ONE, fixed_mul, fixed_mul_spec, abs_int, saturate_i32, sat_add_i32};
use crate::sparse::{
    MatrixIndex, SparseElement, SparseMatrix, SparseView, at_key, empty_view, find_key, frobenius_sum, get_spec,
    law_get_after_set, lemma_find_key_props, lemma_find_key_push, mul_outer, products_fit, set_spec, transpose_view, wf_view,
};

verus! {

/// Smallest alpha.
pub const ALPHA_MIN: Fixed = 0;

/// Largest alpha (2.0).
pub const ALPHA_MAX: Fixed = 0x00020000;

/// Default alpha (0.15).
pub const ALPHA_DEFAULT: Fixed = 0x00002666;

/// Alpha (~0.8) at which the signal cancels.
pub const ALPHA_DEAD_ZONE: Fixed = 0x0000CCCD;

/// Half-width of the band around the dead zone that alpha avoids.
pub const DEAD_ZONE_MARGIN: Fixed = 0x00002000;

/// Shift applied to an alpha that falls inside the dead-zone band (~0.4).
pub const DEAD_ZONE_SHIFT: Fixed = 0x00006666;

/// Maximum number of Lanczos iterations.
pub const MAX_LANCZOS_ITER: usize = 20;

/// Krylov subspace dimension.
pub const KRYLOV_DIM: usize = 20;

/// The alpha that a requested alpha becomes: inside the dead-zone band it
/// is shifted up, elsewhere it is kept.
pub open spec fn adjusted_alpha(alpha: Fixed) -> int {
    if abs_int(alpha - ALPHA_DEAD_ZONE) < DEAD_ZONE_MARGIN {
        alpha + DEAD_ZONE_SHIFT
    } else {
        alpha as int
    }
}

/// The relational state after one step: `U · W · U^T`, every product kept to
/// `cap` stored entries.
pub open spec fn evolved_view(w: SparseView, u: SparseView, cap: nat) -> SparseView {
    let temp = mul_outer(empty_view(u.dimension), u.elements, w.elements, cap);
    mul_outer(empty_view(u.dimension), temp.elements, transpose_view(u, cap).elements, cap)
}

/// The norm drift a step may show: a millionth of the norm, at least 1.
pub open spec fn norm_tolerance(norm: i64) -> int {
    if abs_int(norm as int) / 1_000_000 > 1 {
        abs_int(norm as int) / 1_000_000
    } else {
        1
    }
}

/// The arithmetic of one evolution step stays in range: the products fit
/// and the norm comparison does not overflow.
pub open spec fn step_fits(w: SparseView, u: SparseView, cap: nat) -> bool {
    let temp = mul_outer(empty_view(u.dimension), u.elements, w.elements, cap);
    let before = frobenius_sum(w.elements);
    let after = frobenius_sum(evolved_view(w, u, cap).elements);
    &&& u.dimension == w.dimension
    &&& products_fit(u.elements, w.elements)
    &&& products_fit(temp.elements, transpose_view(u, cap).elements)
    &&& before > i64::MIN
    &&& i64::MIN < after - before <= i64::MAX
}

/// The evolution engine's parameters and step counter.
#[derive(Debug, Clone, Copy, PartialEq, Eq, Structural)]
pub struct EvolutionEngine {
    /// Current alpha parameter
    pub alpha: Fixed,
    /// Frobenius norm squared of the initial state
    pub initial_norm_sq: i64,
    /// Evolution step counter
    pub step_count: u32,
}

impl EvolutionEngine {
    /// Default alpha, no recorded norm, no steps.
    pub fn new() -> (r: Self)
        ensures
            r == (EvolutionEngine { alpha: ALPHA_DEFAULT, initial_norm_sq: 0, step_count: 0 }),
    {
        EvolutionEngine { alpha: ALPHA_DEFAULT, initial_norm_sq: 0, step_count: 0 }
    }

    /// Set alpha, shifting it out of the dead-zone band.
    pub fn set_alpha(&mut self, alpha: Fixed)
        requires
            alpha - ALPHA_DEAD_ZONE > i32::MIN,
        ensures
            final(self).alpha == adjusted_alpha(alpha),
            final(self).initial_norm_sq == old(self).initial_norm_sq,
            final(self).step_count == old(self).step_count,
    {
        let d = alpha - ALPHA_DEAD_ZONE;
        let dist = if d < 0 { -d } else { d };
        if dist < DEAD_ZONE_MARGIN {
            self.alpha = alpha + DEAD_ZONE_SHIFT;
        } else {
            self.alpha = alpha;
        }
    }

    /// Current alpha.
    pub fn alpha(&self) -> (r: Fixed)
        ensures
            r == self.alpha,
    {
        self.alpha
    }

    /// Record the norm of a starting state and reset the step counter.
    pub fn initialize<const MAX_ELEM: usize>(&mut self, w_matrix: &SparseMatrix<MAX_ELEM>)
        ensures
            final(self).initial_norm_sq == frobenius_sum(w_matrix@.elements),
            final(self).step_count == 0,
            final(self).alpha == old(self).alpha,
    {
        self.initial_norm_sq = w_matrix.frobenius_norm_sqr();
        self.step_count = 0;
    }

    /// One evolution step with the operator `u`: `U · W · U^T` is accepted
    /// into `w_new` (and the step counted) when its norm differs from the
    /// current state's by at most the tolerance; otherwise nothing changes.
    pub fn evolve_step<const MAX_ELEM: usize>(
        &mut self,
        w_current: &SparseMatrix<MAX_ELEM>,
        u: &SparseMatrix<MAX_ELEM>,
        w_new: &mut SparseMatrix<MAX_ELEM>,
    ) -> (r: Result<(), ()>)
        requires
            step_fits(w_current@, u@, MAX_ELEM as nat),
            old(self).step_count < u32::MAX,
        ensures
            ({
                let before = frobenius_sum(w_current@.elements);
                let after = frobenius_sum(evolved_view(w_current@, u@, MAX_ELEM as nat).elements);
                r is Ok <==> abs_int(after - before) <= norm_tolerance(before)
            }),
            r is Ok ==> final(w_new)@ == evolved_view(w_current@, u@, MAX_ELEM as nat) && final(self).step_count
                == old(self).step_count + 1,
            r is Err ==> *final(w_new) == *old(w_new) && final(self).step_count == old(self).step_count,
            final(self).alpha == old(self).alpha,
            final(self).initial_norm_sq == old(self).initial_norm_sq,
    {
        let norm_before = w_current.frobenius_norm_sqr();
        let temp = u.sparse_mul(w_current);
        let ut = u.transpose();
        let evolved = temp.sparse_mul(&ut);
        let norm_after = evolved.frobenius_norm_sqr();
        let abs_before = if norm_before < 0 { -norm_before } else { norm_before };
        let scaled = abs_before / 1_000_000;
        let norm_tolerance = if scaled > 1 { scaled } else { 1 };
        let diff = norm_after - norm_before;
        let abs_diff = if diff < 0 { -diff } else { diff };
        if abs_diff > norm_tolerance {
            return Err(());
        }
        *w_new = evolved;
        self.step_count += 1;
        Ok(())
    }

    /// Whether the arithmetic of an evolution step with operator `u` stays
    /// in range (see `step_fits`).
    pub fn evolve_step_fits<const MAX_ELEM: usize>(
        w_current: &SparseMatrix<MAX_ELEM>,
        u: &SparseMatrix<MAX_ELEM>,
    ) -> (r: bool)
        ensures
            r == step_fits(w_current@, u@, MAX_ELEM as nat),
    {
        if u.dimension != w_current.dimension {
            return false;
        }
        if !u.products_fit_with(w_current) {
            return false;
        }
        let temp = u.sparse_mul(w_current);
        let ut = u.transpose();
        if !temp.products_fit_with(&ut) {
            return false;
        }
        let evolved = temp.sparse_mul(&ut);
        let before = w_current.frobenius_norm_sqr();
        let after = evolved.frobenius_norm_sqr();
        if before == i64::MIN {
            return false;
        }
        let diff: i128 = after as i128 - before as i128;
        diff > i64::MIN as i128 && diff <= i64::MAX as i128
    }

    /// A forward-Euler step: only the step is counted.
    pub fn evolve_euler<const MAX_ELEM: usize>(
        &mut self,
        w: &mut SparseMatrix<MAX_ELEM>,
        laplacian: &SparseMatrix<MAX_ELEM>,
        dt: Fixed,
    )
        requires
            old(self).step_count < u32::MAX,
        ensures
            final(self).step_count == old(self).step_count + 1,
            final(self).alpha == old(self).alpha,
            final(self).initial_norm_sq == old(self).initial_norm_sq,
            *final(w) == *old(w),
    {
        self.step_count += 1;
    }
}

impl Default for EvolutionEngine {
    fn default() -> (r: Self)
        ensures
            r == (EvolutionEngine { alpha: ALPHA_DEFAULT, initial_norm_sq: 0, step_count: 0 }),
    {
        Self::new()
    }
}

/// Whatever alpha is requested, the alpha that is kept lies outside the
/// dead-zone band.
pub proof fn law_alpha_avoids_dead_zone(alpha: Fixed)
    ensures
        abs_int(adjusted_alpha(alpha) - ALPHA_DEAD_ZONE) >= DEAD_ZONE_MARGIN,
{
}

/// An alpha outside the dead-zone band is kept as requested.
pub proof fn law_alpha_outside_band_kept(alpha: Fixed)
    requires
        abs_int(alpha - ALPHA_DEAD_ZONE) >= DEAD_ZONE_MARGIN,
    ensures
        adjusted_alpha(alpha) == alpha,
{
}

/// Storing the identity diagonal `(i, i) = 1` for `i < k` into `v`, stopping
/// at the first refused store: the state reached and whether all succeeded.
pub open spec fn identity_steps(v: SparseView, k: nat, cap: nat) -> (SparseView, bool)
    decreases k,
{
    if k == 0 {
        (v, true)
    } else {
        let prev = identity_steps(v, (k - 1) as nat, cap);
        if !prev.1 {
            prev
        } else {
            match set_spec(prev.0, cap, (k - 1) as MatrixIndex, (k - 1) as MatrixIndex, FIXED_ONE, 0) {
                Some(w) => (w, true),
                None => (prev.0, false),
            }
        }
    }
}

/// Adding each entry of `s` (saturating, both parts) to what `v` holds at
/// its key, stopping at the first refused store.
pub open spec fn add_steps(v: SparseView, s: Seq<crate::sparse::SparseElement>, cap: nat) -> (SparseView, bool)
    decreases s.len(),
{
    if s.len() == 0 {
        (v, true)
    } else {
        let prev = add_steps(v, s.drop_last(), cap);
        if !prev.1 {
            prev
        } else {
            let e = s.last();
            let cur = get_spec(prev.0, e.row, e.col);
            match set_spec(prev.0, cap, e.row, e.col, saturate_i32(cur.re + e.re), saturate_i32(cur.im + e.im)) {
                Some(w) => (w, true),
                None => (prev.0, false),
            }
        }
    }
}

/// `exp(A) ≈ I + A` stored into `result` (cleared first, keeping its own
/// dimension): the state reached and whether every store succeeded.
pub open spec fn pade1_spec(a: SparseView, result_dim: MatrixIndex, cap: nat) -> (SparseView, bool) {
    let d = identity_steps(empty_view(result_dim), a.dimension as nat, cap);
    if !d.1 {
        d
    } else {
        add_steps(d.0, a.elements, cap)
    }
}

/// The entry `(i, j)` of the identity matrix.
pub open spec fn identity_value(i: u16, j: u16) -> Complex {
    Complex { re: if i == j { FIXED_ONE } else { 0 }, im: 0 }
}

/// The identity diagonal stored into an empty matrix: every store succeeds
/// while there is room, and the cells `(i, i)` for `i < k` hold one.
proof fn lemma_identity_values(dim: u16, k: nat, cap: nat)
    requires
        k <= dim,
        k <= cap,
    ensures
        identity_steps(empty_view(dim), k, cap).1,
        identity_steps(empty_view(dim), k, cap).0.dimension == dim,
        identity_steps(empty_view(dim), k, cap).0.elements.len() <= k,
        forall|i: u16, j: u16|
            i < dim && j < dim ==> #[trigger] get_spec(identity_steps(empty_view(dim), k, cap).0, i, j).value()
                == (if i == j && i < k { identity_value(i, j) } else { Complex { re: 0, im: 0 } }),
    decreases k,
{
    if k > 0 {
        lemma_identity_values(dim, (k - 1) as nat, cap);
        let prev = identity_steps(empty_view(dim), (k - 1) as nat, cap).0;
        let d = (k - 1) as MatrixIndex;
        let w = set_spec(prev, cap, d, d, FIXED_ONE, 0);
        lemma_find_key_props(prev.elements, d, d);
        assert(w is Some);
        assert(identity_steps(empty_view(dim), k, cap) == (w.unwrap(), true));
        assert(w.unwrap().elements.len() <= prev.elements.len() + 1);
        assert forall|i: u16, j: u16| i < dim && j < dim implies #[trigger] get_spec(
            identity_steps(empty_view(dim), k, cap).0,
            i,
            j,
        ).value() == (if i == j && i < k { identity_value(i, j) } else { Complex { re: 0, im: 0 } }) by {
            law_get_after_set(prev, cap, d, d, FIXED_ONE, 0, i, j);
        }
    } else {
        assert forall|i: u16, j: u16| i < dim && j < dim implies #[trigger] get_spec(
            identity_steps(empty_view(dim), k, cap).0,
            i,
            j,
        ).value() == Complex { re: 0, im: 0 } by {
            assert(find_key(Seq::<SparseElement>::empty(), i, j) == -1);
        }
    }
}

/// The entry stored under a key in a sequence of entries, or zero.
pub open spec fn entry_value(s: Seq<SparseElement>, i: u16, j: u16) -> Complex {
    if find_key(s, i, j) >= 0 {
        s[find_key(s, i, j)].value()
    } else {
        Complex { re: 0, im: 0 }
    }
}

/// Adding entries with distinct keys inside the dimension, with room to
/// store them: each cell ends as what it held plus the added entry at its
/// key.
proof fn lemma_add_values(v: SparseView, s: Seq<SparseElement>, cap: nat)
    requires
        v.elements.len() + s.len() <= cap,
        forall|k: int| 0 <= k < s.len() ==> (#[trigger] s[k]).row < v.dimension && s[k].col < v.dimension,
        forall|a: int, b: int| 0 <= a < b < s.len() ==> !at_key(#[trigger] s[a], #[trigger] s[b].row, s[b].col),
    ensures
        add_steps(v, s, cap).1,
        add_steps(v, s, cap).0.dimension == v.dimension,
        add_steps(v, s, cap).0.elements.len() <= v.elements.len() + s.len(),
        forall|i: u16, j: u16|
            i < v.dimension && j < v.dimension ==> #[trigger] get_spec(add_steps(v, s, cap).0, i, j).value()
                == get_spec(v, i, j).value().add_spec(entry_value(s, i, j)),
    decreases s.len(),
{
    if s.len() == 0 {
        assert forall|i: u16, j: u16| i < v.dimension && j < v.dimension implies #[trigger] get_spec(
            add_steps(v, s, cap).0,
            i,
            j,
        ).value() == get_spec(v, i, j).value().add_spec(entry_value(s, i, j)) by {
            assert(find_key(s, i, j) == -1);
        }
    } else {
        let sp = s.drop_last();
        let e = s.last();
        assert forall|a: int, b: int| 0 <= a < b < sp.len() implies !at_key(
            #[trigger] sp[a],
            #[trigger] sp[b].row,
            sp[b].col,
        ) by {
            assert(!at_key(s[a], s[b].row, s[b].col));
        }
        lemma_add_values(v, sp, cap);
        let prev = add_steps(v, sp, cap).0;
        let cur = get_spec(prev, e.row, e.col);
        assert(s == sp.push(e));
        lemma_find_key_props(sp, e.row, e.col);
        if find_key(sp, e.row, e.col) >= 0 {
            let q = find_key(sp, e.row, e.col);
            assert(!at_key(s[q], s[s.len() - 1].row, s[s.len() - 1].col));
        }
        assert(find_key(sp, e.row, e.col) == -1);
        assert(e == s[s.len() - 1]);
        assert(e.row < v.dimension && e.col < v.dimension);
        let nre = saturate_i32(cur.re + e.re);
        let nim = saturate_i32(cur.im + e.im);
        let w = set_spec(prev, cap, e.row, e.col, nre, nim);
        lemma_find_key_props(prev.elements, e.row, e.col);
        assert(prev.elements.len() < cap);
        assert(w is Some);
        let wv = w.unwrap();
        assert(add_steps(v, s, cap) == (wv, true));
        assert(wv.dimension == v.dimension);
        assert(wv.elements.len() <= prev.elements.len() + 1);
        assert(get_spec(prev, e.row, e.col).value() == get_spec(v, e.row, e.col).value());
        assert forall|i: u16, j: u16| i < v.dimension && j < v.dimension implies #[trigger] get_spec(wv, i, j).value()
            == get_spec(v, i, j).value().add_spec(entry_value(s, i, j)) by {
            lemma_find_key_push(sp, e, i, j);
            law_get_after_set(prev, cap, e.row, e.col, nre, nim, i, j);
            if i == e.row && j == e.col {
                assert(find_key(s, i, j) == sp.len());
                assert(entry_value(s, i, j) == e.value());
            } else {
                assert(!at_key(e, i, j));
                lemma_find_key_props(sp, i, j);
                if find_key(sp, i, j) >= 0 {
                    assert(s[find_key(sp, i, j)] == sp[find_key(sp, i, j)]);
                }
                assert(entry_value(s, i, j) == entry_value(sp, i, j));
            }
        }
    }
}

/// `matrix_exp_pade1` computes `I + A`: for a matrix with distinct keys
/// inside its dimension, stored into a result of the same dimension with room
/// for the diagonal and every entry, every store succeeds and each cell
/// `(i, j)` holds the identity's entry plus `A`'s (saturating).
pub proof fn law_pade1_is_identity_plus(a: SparseView, acap: nat, cap: nat, i: u16, j: u16)
    requires
        wf_view(a, acap),
        a.dimension + a.elements.len() <= cap,
        i < a.dimension,
        j < a.dimension,
    ensures
        pade1_spec(a, a.dimension, cap).1,
        get_spec(pade1_spec(a, a.dimension, cap).0, i, j).value() == identity_value(i, j).add_spec(
            get_spec(a, i, j).value(),
        ),
{
    lemma_identity_values(a.dimension, a.dimension as nat, cap);
    let d = identity_steps(empty_view(a.dimension), a.dimension as nat, cap).0;
    lemma_add_values(d, a.elements, cap);
    assert(get_spec(d, i, j).value() == identity_value(i, j));
}

/// Store the identity diagonal for `0..k`, stopping at the first refusal.
fn store_identity<const MAX_ELEM: usize>(result: &mut SparseMatrix<MAX_ELEM>, k: MatrixIndex) -> (r: Result<(), ()>)
    ensures
        (final(result)@, r is Ok) == identity_steps(old(result)@, k as nat, MAX_ELEM as nat),
{
    let mut i: MatrixIndex = 0;
    while i < k
        invariant
            i <= k,
            identity_steps(old(result)@, i as nat, MAX_ELEM as nat) == (result@, true),
        decreases k - i,
    {
        let res = result.set(i, i, FIXED_ONE, 0);
        if res.is_err() {
            proof {
                lemma_identity_stops(old(result)@, (i + 1) as nat, k as nat, MAX_ELEM as nat);
            }
            return Err(());
        }
        i += 1;
    }
    Ok(())
}

/// The first-order Padé approximation `exp(A) ≈ I + A`, written into
/// `result` (cleared first); fails at the first store the result refuses.
pub fn matrix_exp_pade1<const MAX_ELEM: usize>(
    a: &SparseMatrix<MAX_ELEM>,
    result: &mut SparseMatrix<MAX_ELEM>,
) -> (r: Result<(), ()>)
    ensures
        (final(result)@, r is Ok) == pade1_spec(a@, old(result)@.dimension, MAX_ELEM as nat),
{
    result.clear();
    let d = store_identity(result, a.dimension);
    if d.is_err() {
        return Err(());
    }
    let ghost start = result@;
    let n = a.elements.len();
    let mut i: usize = 0;
    while i < n
        invariant
            n == a.elements@.len(),
            i <= n,
            add_steps(start, a.elements@.take(i as int), MAX_ELEM as nat) == (result@, true),
            identity_steps(empty_view(old(result)@.dimension), a@.dimension as nat, MAX_ELEM as nat) == (
                start,
                true,
            ),
        decreases n - i,
    {
        assert(a.elements@.take(i + 1).drop_last() == a.elements@.take(i as int));
        let elem = a.elements[i];
        let current = result.get(elem.row, elem.col);
        let new_re = sat_add_i32(current.re, elem.re);
        let new_im = sat_add_i32(current.im, elem.im);
        let res = result.set(elem.row, elem.col, new_re, new_im);
        if res.is_err() {
            proof {
                lemma_add_stops(start, a.elements@, i + 1, MAX_ELEM as nat);
            }
            return Err(());
        }
        i += 1;
    }
    assert(a.elements@.take(n as int) == a.elements@);
    Ok(())
}

/// Whether a dense entry is stored: nonzero, or on the diagonal.
pub open spec fn dense_kept(value: Complex, row: int, col: int) -> bool {
    value.re != 0 || value.im != 0 || row == col
}

/// Storing the kept entries of a dense row-major `n x n` operator, cells
/// `0..k` in row order, stopping at the first refused store.
pub open spec fn dense_steps(v: SparseView, op: Seq<Complex>, n: nat, k: nat, cap: nat) -> (SparseView, bool)
    decreases k,
{
    if k == 0 {
        (v, true)
    } else {
        let prev = dense_steps(v, op, n, (k - 1) as nat, cap);
        let row = (k - 1) / n as int;
        let col = (k - 1) % n as int;
        let value = op[k - 1];
        if !prev.1 || !dense_kept(value, row, col) {
            prev
        } else {
            match set_spec(prev.0, cap, row as MatrixIndex, col as MatrixIndex, value.re, value.im) {
                Some(w) => (w, true),
                None => (prev.0, false),
            }
        }
    }
}

/// The unitary operator `exp(iαL)`: cleared for an empty Laplacian;
/// otherwise the entries of `dense`, the operator computed densely in its
/// Cayley form (`None` if that failed), that are nonzero or diagonal.
pub fn unitary_evolution_operator<const MAX_ELEM: usize>(
    laplacian: &SparseMatrix<MAX_ELEM>,
    alpha: Fixed,
    dense: Option<&[Complex]>,
    result: &mut SparseMatrix<MAX_ELEM>,
) -> (r: Result<(), ()>)
    requires
        dense matches Some(op) ==> op@.len() == laplacian@.dimension * laplacian@.dimension,
    ensures
        laplacian@.dimension == 0 ==> r is Ok && final(result)@ == empty_view(old(result)@.dimension),
        1 <= laplacian@.dimension ==> match dense {
            None => r is Err && final(result)@ == empty_view(old(result)@.dimension),
            Some(op) => (final(result)@, r is Ok) == dense_steps(
                empty_view(old(result)@.dimension),
                op@,
                laplacian@.dimension as nat,
                (laplacian@.dimension * laplacian@.dimension) as nat,
                MAX_ELEM as nat,
            ),
        },
{
    let n = laplacian.dimension as usize;
    result.clear();
    if n == 0 {
        return Ok(());
    }
    let op = match dense {
        Some(op) => op,
        None => {
            return Err(());
        },
    };
    let ghost start = result@;
    let mut row: usize = 0;
    while row < n
        invariant
            1 <= n <= 65535,
            n == laplacian@.dimension,
            dense == Some(op),
            start == empty_view(old(result)@.dimension),
            op@.len() == n * n,
            row <= n,
            dense_steps(start, op@, n as nat, (row * n) as nat, MAX_ELEM as nat) == (result@, true),
        decreases n - row,
    {
        let mut col: usize = 0;
        while col < n
            invariant
                1 <= n <= 65535,
                n == laplacian@.dimension,
                dense == Some(op),
                start == empty_view(old(result)@.dimension),
                op@.len() == n * n,
                row < n,
                col <= n,
                dense_steps(start, op@, n as nat, (row * n + col) as nat, MAX_ELEM as nat) == (
                    result@,
                    true,
                ),
            decreases n - col,
        {
            proof {
                lemma_dense_index(row as int, col as int, n as int);
            }
            let value = op[row * n + col];
            if value.re != 0 || value.im != 0 || row == col {
                let res = result.set(row as MatrixIndex, col as MatrixIndex, value.re, value.im);
                if res.is_err() {
                    proof {
                        lemma_dense_stops(start, op@, n as nat, (row * n + col + 1) as nat, (n * n) as nat, MAX_ELEM as nat);
                    }
                    return Err(());
                }
            }
            col += 1;
        }
        assert(row * n + n == (row + 1) * n) by (nonlinear_arith);
        row += 1;
    }
    Ok(())
}

/// Row-major index arithmetic of a dense matrix.
proof fn lemma_dense_index(row: int, col: int, n: int)
    requires
        0 <= row < n,
        0 <= col < n,
        n <= 65535,
    ensures
        n * n <= 65535 * 65535,
        row * n + col < n * n,
        (row * n + col) / n == row,
        (row * n + col) % n == col,
        row * n + col + 1 <= n * n,
{
    assert(row * n + col < n * n) by (nonlinear_arith)
        requires
            0 <= row < n,
            0 <= col < n,
    ;
    assert(n * n <= 65535 * 65535) by (nonlinear_arith)
        requires
            0 <= n <= 65535,
    ;
    assert(0 <= row * n) by (nonlinear_arith)
        requires
            0 <= row,
            0 <= n,
    ;
    vstd::arithmetic::div_mod::lemma_fundamental_div_mod_converse(row * n + col, n, row, col);
}

/// Once a store has been refused, later diagonal steps change nothing.
proof fn lemma_identity_stops(v: SparseView, j: nat, k: nat, cap: nat)
    requires
        j <= k,
        !identity_steps(v, j, cap).1,
    ensures
        identity_steps(v, k, cap) == identity_steps(v, j, cap),
    decreases k - j,
{
    if j < k {
        lemma_identity_stops(v, j, (k - 1) as nat, cap);
    }
}

/// Once a store has been refused, later add steps change nothing.
proof fn lemma_add_stops(v: SparseView, s: Seq<crate::sparse::SparseElement>, j: int, cap: nat)
    requires
        0 <= j <= s.len(),
        !add_steps(v, s.take(j), cap).1,
    ensures
        add_steps(v, s, cap) == add_steps(v, s.take(j), cap),
    decreases s.len() - j,
{
    if j < s.len() {
        assert(s.take(j + 1).drop_last() == s.take(j));
        lemma_add_stops(v, s, j + 1, cap);
    } else {
        assert(s.take(j) == s);
    }
}

/// Once a store has been refused, later dense steps change nothing.
proof fn lemma_dense_stops(v: SparseView, op: Seq<Complex>, n: nat, j: nat, k: nat, cap: nat)
    requires
        j <= k,
        !dense_steps(v, op, n, j, cap).1,
    ensures
        dense_steps(v, op, n, k, cap) == dense_steps(v, op, n, j, cap),
    decreases k - j,
{
    if j < k {
        lemma_dense_stops(v, op, n, j, (k - 1) as nat, cap);
    }
}

} // verus!
