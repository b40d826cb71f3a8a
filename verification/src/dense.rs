//! Small dense complex matrices in row-major order, used to build the
//! evolution operator of small Laplacians: identity, sums, products and the
//! integer steps of Gauss-Jordan inversion.

use vstd::prelude::*;
use crate::fixed::{Complex, Fixed, FIXED_ONE, fixed_mul, fixed_mul_spec, saturate_i32, sat_sub_i32};
use crate::sparse::{SparseElement, SparseMatrix};

verus! {

/// The zero complex number.
pub open spec fn czero() -> Complex {
    Complex { re: 0, im: 0 }
}

/// Whether a complex number is zero.
pub open spec fn is_zero(c: Complex) -> bool {
    c.re == 0 && c.im == 0
}

/// The entry at position `k` of the `n x n` identity.
pub open spec fn identity_entry(n: int, k: int) -> Complex {
    if k / n == k % n {
        Complex { re: FIXED_ONE, im: 0 }
    } else {
        czero()
    }
}

/// The identity's entry at `k` when only its first `i` diagonal cells are
/// set.
pub open spec fn partial_identity_entry(n: int, i: int, k: int) -> Complex {
    if k / n == k % n && k / n < i {
        Complex { re: FIXED_ONE, im: 0 }
    } else {
        czero()
    }
}

/// Saturating complex subtraction, as a value.
pub open spec fn sub_spec(a: Complex, b: Complex) -> Complex {
    Complex { re: saturate_i32(a.re - b.re), im: saturate_i32(a.im - b.im) }
}

/// Row-major index arithmetic: position `r * w + c` of a `w`-wide matrix
/// names row `r` and column `c`, and distinct cells have distinct positions.
pub proof fn lemma_cell_index(r: int, c: int, w: int)
    requires
        0 <= c < w,
        0 <= r,
    ensures
        (r * w + c) / w == r,
        (r * w + c) % w == c,
        0 <= r * w + c,
{
    assert(0 <= r * w) by (nonlinear_arith)
        requires
            0 <= r,
            0 <= w,
    ;
    vstd::arithmetic::div_mod::lemma_fundamental_div_mod_converse(r * w + c, w, r, c);
}

/// A cell of a `h x w` matrix lies inside its `h * w` positions.
pub proof fn lemma_cell_in_range(r: int, c: int, w: int, h: int)
    requires
        0 <= r < h,
        0 <= c < w,
    ensures
        r * w + c < h * w,
        r * w + c + 1 <= h * w,
        (r + 1) * w == r * w + w,
{
    assert(r * w + c < h * w) by (nonlinear_arith)
        requires
            0 <= r < h,
            0 <= c < w,
    ;
    assert((r + 1) * w == r * w + w) by (nonlinear_arith);
}

/// The `n x n` identity in row-major order.
pub fn dense_identity(n: usize) -> (r: Vec<Complex>)
    requires
        n * n <= usize::MAX,
    ensures
        r@.len() == n * n,
        forall|k: int| 0 <= k < n * n ==> #[trigger] r@[k] == identity_entry(n as int, k),
{
    let total = n * n;
    let mut out: Vec<Complex> = Vec::new();
    let mut k: usize = 0;
    while k < total
        invariant
            total == n * n,
            k <= total,
            out@.len() == k,
            forall|q: int| 0 <= q < k ==> #[trigger] out@[q] == czero(),
        decreases total - k,
    {
        out.push(Complex::default());
        k += 1;
    }
    assert forall|q: int| 0 <= q < total implies #[trigger] out@[q] == partial_identity_entry(n as int, 0, q) by {
        assert(n > 0) by (nonlinear_arith)
            requires
                q < n * n,
                0 <= q,
        ;
        vstd::arithmetic::div_mod::lemma_div_pos_is_pos(q, n as int);
    }
    let mut i: usize = 0;
    while i < n
        invariant
            total == n * n,
            i <= n,
            out@.len() == total,
            forall|q: int| 0 <= q < total ==> #[trigger] out@[q] == partial_identity_entry(n as int, i as int, q),
        decreases n - i,
    {
        proof {
            lemma_cell_index(i as int, i as int, n as int);
            lemma_cell_in_range(i as int, i as int, n as int, n as int);
        }
        let ghost before = out@;
        out.set(i * n + i, Complex::new(FIXED_ONE, 0));
        assert forall|q: int| 0 <= q < total implies #[trigger] out@[q] == partial_identity_entry(
            n as int,
            i + 1,
            q,
        ) by {
            if q != i * n + i {
                assert(out@[q] == before[q]);
                let d = q / (n as int);
                let m = q % (n as int);
                if d == m && d == i {
                    vstd::arithmetic::div_mod::lemma_fundamental_div_mod(q, n as int);
                    assert(n * i == i * n) by (nonlinear_arith);
                }
            }
        }
        i += 1;
    }
    assert forall|k: int| 0 <= k < n * n implies #[trigger] out@[k] == identity_entry(n as int, k) by {
        assert(n > 0) by (nonlinear_arith)
            requires
                k < n * n,
                0 <= k,
        ;
        let d = k / (n as int);
        vstd::arithmetic::div_mod::lemma_fundamental_div_mod(k, n as int);
        vstd::arithmetic::div_mod::lemma_mod_pos_bound(k, n as int);
        if d >= n {
            assert(n * d >= n * n) by (nonlinear_arith)
                requires
                    d >= n,
                    n >= 0,
            ;
        }
        assert(d < n);
        assert(out@[k] == partial_identity_entry(n as int, n as int, k));
    }
    out
}

/// Entry-wise saturating sum, over the common length.
pub fn dense_add(a: &[Complex], b: &[Complex]) -> (r: Vec<Complex>)
    ensures
        r@.len() == if a@.len() < b@.len() { a@.len() } else { b@.len() },
        forall|k: int| 0 <= k < r@.len() ==> #[trigger] r@[k] == a@[k].add_spec(b@[k]),
{
    let len = if a.len() < b.len() { a.len() } else { b.len() };
    let mut out: Vec<Complex> = Vec::new();
    let mut k: usize = 0;
    while k < len
        invariant
            len <= a@.len(),
            len <= b@.len(),
            k <= len,
            out@.len() == k,
            forall|q: int| 0 <= q < k ==> #[trigger] out@[q] == a@[q].add_spec(b@[q]),
        decreases len - k,
    {
        out.push(a[k].add(&b[k]));
        k += 1;
    }
    out
}

/// Entry-wise saturating difference, over the common length.
pub fn dense_sub(a: &[Complex], b: &[Complex]) -> (r: Vec<Complex>)
    ensures
        r@.len() == if a@.len() < b@.len() { a@.len() } else { b@.len() },
        forall|k: int| 0 <= k < r@.len() ==> #[trigger] r@[k] == sub_spec(a@[k], b@[k]),
{
    let len = if a.len() < b.len() { a.len() } else { b.len() };
    let mut out: Vec<Complex> = Vec::new();
    let mut k: usize = 0;
    while k < len
        invariant
            len <= a@.len(),
            len <= b@.len(),
            k <= len,
            out@.len() == k,
            forall|q: int| 0 <= q < k ==> #[trigger] out@[q] == sub_spec(a@[q], b@[q]),
        decreases len - k,
    {
        out.push(Complex::new(sat_sub_i32(a[k].re, b[k].re), sat_sub_i32(a[k].im, b[k].im)));
        k += 1;
    }
    out
}

/// Entry `(r, c)` of a row-major matrix `w` wide.
pub open spec fn at(s: Seq<Complex>, w: int, r: int, c: int) -> Complex {
    s[r * w + c]
}

/// Entry `(i, j)` of the product `a · b` after the terms `k' < k`, added in
/// order; a term with a zero factor is skipped.
pub open spec fn mul_cell(a: Seq<Complex>, b: Seq<Complex>, n: int, i: int, j: int, k: int) -> Complex
    decreases k,
{
    if k <= 0 {
        czero()
    } else {
        let acc = mul_cell(a, b, n, i, j, k - 1);
        let lhs = at(a, n, i, k - 1);
        let rhs = at(b, n, k - 1, j);
        if is_zero(lhs) || is_zero(rhs) {
            acc
        } else {
            acc.add_spec(lhs.mul_spec(rhs))
        }
    }
}

/// The product term of `a[i][k]` and `b[k][j]` fits (or has a zero factor).
pub open spec fn term_fits(a: Seq<Complex>, b: Seq<Complex>, n: int, i: int, k: int, j: int) -> bool {
    !is_zero(at(a, n, i, k)) && !is_zero(at(b, n, k, j)) ==> at(a, n, i, k).mul_fits(at(b, n, k, j))
}

/// Every product term of `a · b` fits.
pub open spec fn products_fit_dense(a: Seq<Complex>, b: Seq<Complex>, n: int) -> bool {
    forall|i: int, k: int, j: int| 0 <= i < n && 0 <= k < n && 0 <= j < n ==> #[trigger] term_fits(a, b, n, i, k, j)
}

/// How many terms of cell `(r, c)` the product loop has added when it is at
/// row `i`, term `k`, column `j`.
pub open spec fn terms_done(n: int, i: int, k: int, j: int, r: int, c: int) -> int {
    if r < i {
        n
    } else if r == i {
        if c < j {
            k + 1
        } else {
            k
        }
    } else {
        0
    }
}

/// Distinct cells of a row-major matrix have distinct positions.
proof fn lemma_cells_distinct(r: int, c: int, i: int, j: int, w: int)
    requires
        0 <= r,
        0 <= i,
        0 <= c < w,
        0 <= j < w,
        r * w + c == i * w + j,
    ensures
        r == i,
        c == j,
{
    lemma_cell_index(r, c, w);
    lemma_cell_index(i, j, w);
}

/// Whether every product term of `a · b` fits.
pub fn dense_products_fit(a: &[Complex], b: &[Complex], n: usize) -> (r: bool)
    requires
        n * n <= usize::MAX,
        a@.len() >= n * n,
        b@.len() >= n * n,
    ensures
        r == products_fit_dense(a@, b@, n as int),
{
    let mut i: usize = 0;
    while i < n
        invariant
            n * n <= usize::MAX,
            a@.len() >= n * n,
            b@.len() >= n * n,
            i <= n,
            forall|ii: int, kk: int, jj: int|
                0 <= ii < i && 0 <= kk < n && 0 <= jj < n ==> #[trigger] term_fits(a@, b@, n as int, ii, kk, jj),
        decreases n - i,
    {
        let mut k: usize = 0;
        while k < n
            invariant
                n * n <= usize::MAX,
                a@.len() >= n * n,
                b@.len() >= n * n,
                i < n,
                k <= n,
                forall|ii: int, kk: int, jj: int|
                    0 <= ii < i && 0 <= kk < n && 0 <= jj < n ==> #[trigger] term_fits(a@, b@, n as int, ii, kk, jj),
                forall|kk: int, jj: int|
                    0 <= kk < k && 0 <= jj < n ==> #[trigger] term_fits(a@, b@, n as int, i as int, kk, jj),
            decreases n - k,
        {
            let mut j: usize = 0;
            while j < n
                invariant
                    n * n <= usize::MAX,
                    a@.len() >= n * n,
                    b@.len() >= n * n,
                    i < n,
                    k < n,
                    j <= n,
                    forall|ii: int, kk: int, jj: int|
                        0 <= ii < i && 0 <= kk < n && 0 <= jj < n ==> #[trigger] term_fits(a@, b@, n as int, ii, kk, jj),
                    forall|kk: int, jj: int|
                        0 <= kk < k && 0 <= jj < n ==> #[trigger] term_fits(a@, b@, n as int, i as int, kk, jj),
                    forall|jj: int| 0 <= jj < j ==> #[trigger] term_fits(a@, b@, n as int, i as int, k as int, jj),
                decreases n - j,
            {
                proof {
                    lemma_cell_in_range(i as int, k as int, n as int, n as int);
                    lemma_cell_in_range(k as int, j as int, n as int, n as int);
                }
                let x = a[i * n + k];
                let y = b[k * n + j];
                assert(x == at(a@, n as int, i as int, k as int));
                assert(y == at(b@, n as int, k as int, j as int));
                if !(x.re == 0 && x.im == 0) && !(y.re == 0 && y.im == 0) {
                    let re: i64 = fixed_mul(x.re, y.re) as i64 - fixed_mul(x.im, y.im) as i64;
                    let im: i64 = fixed_mul(x.re, y.im) as i64 + fixed_mul(x.im, y.re) as i64;
                    if re < i32::MIN as i64 || re > i32::MAX as i64 || im < i32::MIN as i64 || im > i32::MAX as i64 {
                        assert(!term_fits(a@, b@, n as int, i as int, k as int, j as int));
                        return false;
                    }
                }
                j += 1;
            }
            k += 1;
        }
        i += 1;
    }
    true
}

/// The product `a · b` of two `n x n` matrices, each sum of terms added in
/// order with saturation; terms with a zero factor are skipped.
pub fn dense_mul(a: &[Complex], b: &[Complex], n: usize) -> (r: Vec<Complex>)
    requires
        n * n <= usize::MAX,
        a@.len() >= n * n,
        b@.len() >= n * n,
        products_fit_dense(a@, b@, n as int),
    ensures
        r@.len() == n * n,
        forall|i: int, j: int|
            0 <= i < n && 0 <= j < n ==> #[trigger] at(r@, n as int, i, j) == mul_cell(a@, b@, n as int, i, j, n as int),
{
    let total = n * n;
    let mut out: Vec<Complex> = Vec::new();
    let mut q: usize = 0;
    while q < total
        invariant
            total == n * n,
            q <= total,
            out@.len() == q,
            forall|p: int| 0 <= p < q ==> #[trigger] out@[p] == czero(),
        decreases total - q,
    {
        out.push(Complex::default());
        q += 1;
    }
    assert forall|rr: int, cc: int| 0 <= rr < n && 0 <= cc < n implies #[trigger] at(out@, n as int, rr, cc)
        == mul_cell(a@, b@, n as int, rr, cc, terms_done(n as int, 0, 0, 0, rr, cc)) by {
        lemma_cell_in_range(rr, cc, n as int, n as int);
        lemma_cell_index(rr, cc, n as int);
    }
    let mut i: usize = 0;
    while i < n
        invariant
            total == n * n,
            a@.len() >= total,
            b@.len() >= total,
            products_fit_dense(a@, b@, n as int),
            i <= n,
            out@.len() == total,
            forall|rr: int, cc: int|
                0 <= rr < n && 0 <= cc < n ==> #[trigger] at(out@, n as int, rr, cc) == mul_cell(
                    a@,
                    b@,
                    n as int,
                    rr,
                    cc,
                    terms_done(n as int, i as int, 0, 0, rr, cc),
                ),
        decreases n - i,
    {
        let mut k: usize = 0;
        while k < n
            invariant
                total == n * n,
                a@.len() >= total,
                b@.len() >= total,
                products_fit_dense(a@, b@, n as int),
                i < n,
                k <= n,
                out@.len() == total,
                forall|rr: int, cc: int|
                    0 <= rr < n && 0 <= cc < n ==> #[trigger] at(out@, n as int, rr, cc) == mul_cell(
                        a@,
                        b@,
                        n as int,
                        rr,
                        cc,
                        terms_done(n as int, i as int, k as int, 0, rr, cc),
                    ),
            decreases n - k,
        {
            proof {
                lemma_cell_in_range(i as int, k as int, n as int, n as int);
            }
            let lhs = a[i * n + k];
            if lhs.re == 0 && lhs.im == 0 {
                assert forall|rr: int, cc: int| 0 <= rr < n && 0 <= cc < n implies #[trigger] at(
                    out@,
                    n as int,
                    rr,
                    cc,
                ) == mul_cell(a@, b@, n as int, rr, cc, terms_done(n as int, i as int, k + 1, 0, rr, cc)) by {
                    if rr == i {
                        assert(at(a@, n as int, i as int, k as int) == lhs);
                    }
                }
            } else {
                let mut j: usize = 0;
                while j < n
                    invariant
                        total == n * n,
                        a@.len() >= total,
                        b@.len() >= total,
                        products_fit_dense(a@, b@, n as int),
                        i < n,
                        k < n,
                        j <= n,
                        lhs == at(a@, n as int, i as int, k as int),
                        !is_zero(lhs),
                        out@.len() == total,
                        forall|rr: int, cc: int|
                            0 <= rr < n && 0 <= cc < n ==> #[trigger] at(out@, n as int, rr, cc) == mul_cell(
                                a@,
                                b@,
                                n as int,
                                rr,
                                cc,
                                terms_done(n as int, i as int, k as int, j as int, rr, cc),
                            ),
                    decreases n - j,
                {
                    proof {
                        lemma_cell_in_range(k as int, j as int, n as int, n as int);
                        lemma_cell_in_range(i as int, j as int, n as int, n as int);
                    }
                    let rhs = b[k * n + j];
                    assert(rhs == at(b@, n as int, k as int, j as int));
                    if !(rhs.re == 0 && rhs.im == 0) {
                        assert(term_fits(a@, b@, n as int, i as int, k as int, j as int));
                        let idx = i * n + j;
                        let ghost before = out@;
                        let cur = out[idx];
                        let updated = cur.add(&lhs.mul(&rhs));
                        out.set(idx, updated);
                        assert forall|rr: int, cc: int| 0 <= rr < n && 0 <= cc < n implies #[trigger] at(
                            out@,
                            n as int,
                            rr,
                            cc,
                        ) == mul_cell(
                            a@,
                            b@,
                            n as int,
                            rr,
                            cc,
                            terms_done(n as int, i as int, k as int, j + 1, rr, cc),
                        ) by {
                            lemma_cell_in_range(rr, cc, n as int, n as int);
                            if rr == i && cc == j {
                                assert(at(before, n as int, rr, cc) == cur);
                            } else {
                                if rr * n + cc == i * n + j {
                                    lemma_cells_distinct(rr, cc, i as int, j as int, n as int);
                                }
                                assert(at(out@, n as int, rr, cc) == at(before, n as int, rr, cc));
                            }
                        }
                    }
                    j += 1;
                }
                assert forall|rr: int, cc: int| 0 <= rr < n && 0 <= cc < n implies #[trigger] at(
                    out@,
                    n as int,
                    rr,
                    cc,
                ) == mul_cell(a@, b@, n as int, rr, cc, terms_done(n as int, i as int, k + 1, 0, rr, cc)) by {
                    assert(terms_done(n as int, i as int, k as int, n as int, rr, cc) == terms_done(
                        n as int,
                        i as int,
                        k + 1,
                        0,
                        rr,
                        cc,
                    ));
                }
            }
            k += 1;
        }
        assert forall|rr: int, cc: int| 0 <= rr < n && 0 <= cc < n implies #[trigger] at(
            out@,
            n as int,
            rr,
            cc,
        ) == mul_cell(a@, b@, n as int, rr, cc, terms_done(n as int, i + 1, 0, 0, rr, cc)) by {
            assert(terms_done(n as int, i as int, n as int, 0, rr, cc) == terms_done(n as int, i + 1, 0, 0, rr, cc));
        }
        i += 1;
    }
    out
}

/// Size facts of an `n x 2n` augmented matrix that fits in memory.
pub proof fn lemma_wide_dims(n: int)
    requires
        0 <= n,
        2 * n * n <= usize::MAX,
    ensures
        2 * n <= usize::MAX,
        n * (2 * n) == 2 * n * n,
        n * n <= 2 * n * n,
{
    assert(n * (2 * n) == 2 * n * n) by (nonlinear_arith);
    assert(n * n <= 2 * n * n) by (nonlinear_arith)
        requires
            0 <= n,
    ;
    assert(2 * n <= 2 * n * n || n == 0) by (nonlinear_arith)
        requires
            0 <= n,
    ;
}

/// The augmented matrix `[A | I]` (n rows, 2n columns) that inversion
/// starts from.
pub open spec fn augmented_entry(a: Seq<Complex>, n: int, r: int, c: int) -> Complex {
    if c < n {
        at(a, n, r, c)
    } else if c == n + r {
        Complex { re: FIXED_ONE, im: 0 }
    } else {
        czero()
    }
}

/// Build the augmented matrix `[A | I]` of an `n x n` matrix.
pub fn augment_with_identity(a: &[Complex], n: usize) -> (r: Vec<Complex>)
    requires
        2 * n * n <= usize::MAX,
        a@.len() >= n * n,
    ensures
        r@.len() == 2 * n * n,
        forall|row: int, col: int|
            0 <= row < n && 0 <= col < 2 * n ==> #[trigger] at(r@, 2 * n as int, row, col) == augmented_entry(
                a@,
                n as int,
                row,
                col,
            ),
{
    proof {
        lemma_wide_dims(n as int);
    }
    let w = 2 * n;
    let total = n * w;
    let mut out: Vec<Complex> = Vec::new();
    let mut q: usize = 0;
    while q < total
        invariant
            q <= total,
            out@.len() == q,
            forall|p: int| 0 <= p < q ==> #[trigger] out@[p] == czero(),
        decreases total - q,
    {
        out.push(Complex::default());
        q += 1;
    }
    assert forall|rr: int, cc: int| 0 <= rr < n && 0 <= cc < w implies #[trigger] at(out@, w as int, rr, cc)
        == czero() by {
        lemma_cell_in_range(rr, cc, w as int, n as int);
    }
    let mut row: usize = 0;
    while row < n
        invariant
            w == 2 * n,
            n * n <= 2 * n * n,
            2 * n * n <= usize::MAX,
            total == n * w,
            a@.len() >= n * n,
            row <= n,
            out@.len() == total,
            forall|rr: int, cc: int|
                0 <= rr < n && 0 <= cc < w ==> #[trigger] at(out@, w as int, rr, cc) == if rr < row {
                    augmented_entry(a@, n as int, rr, cc)
                } else {
                    czero()
                },
        decreases n - row,
    {
        let mut col: usize = 0;
        while col < n
            invariant
                w == 2 * n,
                n * n <= 2 * n * n,
                2 * n * n <= usize::MAX,
                total == n * w,
                a@.len() >= n * n,
                row < n,
                col <= n,
                out@.len() == total,
                forall|rr: int, cc: int|
                    0 <= rr < n && 0 <= cc < w ==> #[trigger] at(out@, w as int, rr, cc) == if rr < row || (rr
                        == row && cc < col) {
                        augmented_entry(a@, n as int, rr, cc)
                    } else {
                        czero()
                    },
            decreases n - col,
        {
            proof {
                lemma_cell_in_range(row as int, col as int, n as int, n as int);
                lemma_cell_in_range(row as int, col as int, w as int, n as int);
            }
            let ghost before = out@;
            let v = a[row * n + col];
            out.set(row * w + col, v);
            assert forall|rr: int, cc: int| 0 <= rr < n && 0 <= cc < w implies #[trigger] at(
                out@,
                w as int,
                rr,
                cc,
            ) == if rr < row || (rr == row && cc < col + 1) {
                augmented_entry(a@, n as int, rr, cc)
            } else {
                czero()
            } by {
                lemma_cell_in_range(rr, cc, w as int, n as int);
                if rr * w + cc == row * w + col {
                    lemma_cells_distinct(rr, cc, row as int, col as int, w as int);
                } else {
                    assert(at(out@, w as int, rr, cc) == at(before, w as int, rr, cc));
                }
            }
            col += 1;
        }
        proof {
            lemma_cell_in_range(row as int, n + row, w as int, n as int);
        }
        let ghost before = out@;
        out.set(row * w + n + row, Complex::new(FIXED_ONE, 0));
        assert forall|rr: int, cc: int| 0 <= rr < n && 0 <= cc < w implies #[trigger] at(out@, w as int, rr, cc)
            == if rr < row + 1 {
            augmented_entry(a@, n as int, rr, cc)
        } else {
            czero()
        } by {
            lemma_cell_in_range(rr, cc, w as int, n as int);
            if rr * w + cc == row * w + (n + row) {
                lemma_cells_distinct(rr, cc, row as int, n + row, w as int);
            } else {
                assert(at(out@, w as int, rr, cc) == at(before, w as int, rr, cc));
            }
        }
        row += 1;
    }
    out
}

/// The pivot score of a row: the squared magnitude of its entry in the
/// pivot column.
pub open spec fn pivot_score(aug: Seq<Complex>, n: int, row: int, pivot: int) -> int {
    at(aug, 2 * n, row, pivot).norm_sqr_spec()
}

/// The pivot scores of rows `pivot..n` fit in `i32`.
pub open spec fn pivot_scores_fit(aug: Seq<Complex>, n: int, pivot: int) -> bool {
    forall|row: int| pivot <= row < n ==> i32::MIN <= #[trigger] pivot_score(aug, n, row, pivot) <= i32::MAX
}

/// Whether the pivot scores of rows `pivot..n` fit in `i32`.
pub fn pivot_scores_in_range(aug: &[Complex], n: usize, pivot: usize) -> (r: bool)
    requires
        2 * n * n <= usize::MAX,
        aug@.len() >= 2 * n * n,
        pivot < n,
    ensures
        r == pivot_scores_fit(aug@, n as int, pivot as int),
{
    proof {
        lemma_wide_dims(n as int);
    }
    let w = 2 * n;
    let mut row = pivot;
    while row < n
        invariant
            w == 2 * n,
            2 * n * n <= usize::MAX,
            aug@.len() >= 2 * n * n,
            pivot <= row <= n,
            forall|k: int| pivot <= k < row ==> i32::MIN <= #[trigger] pivot_score(aug@, n as int, k, pivot as int)
                <= i32::MAX,
        decreases n - row,
    {
        proof {
            lemma_cell_in_range(row as int, pivot as int, w as int, n as int);
            assert(n * w == 2 * n * n) by (nonlinear_arith)
                requires
                    w == 2 * n,
            ;
        }
        let e = aug[row * w + pivot];
        assert(e == at(aug@, 2 * n as int, row as int, pivot as int));
        let s: i64 = crate::fixed::fixed_mul(e.re, e.re) as i64 + crate::fixed::fixed_mul(e.im, e.im) as i64;
        if s < i32::MIN as i64 || s > i32::MAX as i64 {
            assert(s == pivot_score(aug@, n as int, row as int, pivot as int));
            return false;
        }
        row += 1;
    }
    true
}

/// The pivot of a column: among rows `pivot..n`, the first whose score is
/// largest, with that score.
pub fn select_pivot(aug: &[Complex], n: usize, pivot: usize) -> (r: (usize, i32))
    requires
        2 * n * n <= usize::MAX,
        aug@.len() >= 2 * n * n,
        pivot < n,
        pivot_scores_fit(aug@, n as int, pivot as int),
    ensures
        pivot <= r.0 < n,
        r.1 == pivot_score(aug@, n as int, r.0 as int, pivot as int),
        forall|row: int| pivot <= row < n ==> #[trigger] pivot_score(aug@, n as int, row, pivot as int) <= r.1,
        forall|row: int| pivot <= row < r.0 ==> #[trigger] pivot_score(aug@, n as int, row, pivot as int) < r.1,
{
    proof {
        lemma_wide_dims(n as int);
    }
    let w = 2 * n;
    proof {
        lemma_cell_in_range(pivot as int, pivot as int, w as int, n as int);
        assert(n * w == 2 * n * n) by (nonlinear_arith)
            requires
                w == 2 * n,
        ;
    }
    let mut pivot_row = pivot;
    assert(i32::MIN <= pivot_score(aug@, n as int, pivot as int, pivot as int) <= i32::MAX);
    assert(aug@[pivot * w + pivot] == at(aug@, 2 * n as int, pivot as int, pivot as int));
    let mut best = aug[pivot * w + pivot].norm_sqr();
    let mut row = pivot + 1;
    while row < n
        invariant
            w == 2 * n,
            n * w == 2 * n * n,
            2 * n * n <= usize::MAX,
            aug@.len() >= 2 * n * n,
            pivot < n,
            pivot_scores_fit(aug@, n as int, pivot as int),
            pivot + 1 <= row <= n,
            pivot <= pivot_row < row,
            best == pivot_score(aug@, n as int, pivot_row as int, pivot as int),
            forall|k: int| pivot <= k < row ==> #[trigger] pivot_score(aug@, n as int, k, pivot as int) <= best,
            forall|k: int| pivot <= k < pivot_row ==> #[trigger] pivot_score(aug@, n as int, k, pivot as int) < best,
        decreases n - row,
    {
        proof {
            lemma_cell_in_range(row as int, pivot as int, w as int, n as int);
        }
        assert(i32::MIN <= pivot_score(aug@, n as int, row as int, pivot as int) <= i32::MAX);
        assert(aug@[row * w + pivot] == at(aug@, 2 * n as int, row as int, pivot as int));
        let score = aug[row * w + pivot].norm_sqr();
        if score > best {
            best = score;
            pivot_row = row;
        }
        row += 1;
    }
    (pivot_row, best)
}

/// Row `r` of a matrix with rows `r1` and `r2` exchanged.
pub open spec fn swapped_row(r: int, r1: int, r2: int) -> int {
    if r == r1 {
        r2
    } else if r == r2 {
        r1
    } else {
        r
    }
}

/// Exchange two rows of the augmented matrix.
pub fn swap_rows(aug: &mut Vec<Complex>, n: usize, r1: usize, r2: usize)
    requires
        2 * n * n <= usize::MAX,
        old(aug)@.len() == 2 * n * n,
        r1 < n,
        r2 < n,
    ensures
        final(aug)@.len() == old(aug)@.len(),
        forall|row: int, col: int|
            0 <= row < n && 0 <= col < 2 * n ==> #[trigger] at(final(aug)@, 2 * n as int, row, col) == at(
                old(aug)@,
                2 * n as int,
                swapped_row(row, r1 as int, r2 as int),
                col,
            ),
{
    proof {
        lemma_wide_dims(n as int);
    }
    let w = 2 * n;
    let ghost start = aug@;
    let mut col: usize = 0;
    while col < w
        invariant
            w == 2 * n,
            2 * n * n <= usize::MAX,
            start.len() == 2 * n * n,
            aug@.len() == start.len(),
            r1 < n,
            r2 < n,
            col <= w,
            forall|row: int, cc: int|
                0 <= row < n && 0 <= cc < w ==> #[trigger] at(aug@, w as int, row, cc) == if cc < col {
                    at(start, w as int, swapped_row(row, r1 as int, r2 as int), cc)
                } else {
                    at(start, w as int, row, cc)
                },
        decreases w - col,
    {
        proof {
            lemma_cell_in_range(r1 as int, col as int, w as int, n as int);
            lemma_cell_in_range(r2 as int, col as int, w as int, n as int);
            assert(n * w == 2 * n * n) by (nonlinear_arith)
                requires
                    w == 2 * n,
            ;
        }
        let ghost before = aug@;
        let i1 = r1 * w + col;
        let i2 = r2 * w + col;
        let x = aug[i1];
        let y = aug[i2];
        assert(x == at(aug@, w as int, r1 as int, col as int));
        assert(y == at(aug@, w as int, r2 as int, col as int));
        assert(x == at(start, w as int, r1 as int, col as int));
        assert(y == at(start, w as int, r2 as int, col as int));
        proof {
            if r1 != r2 && i1 == i2 {
                lemma_cells_distinct(r1 as int, col as int, r2 as int, col as int, w as int);
            }
        }
        aug.set(i1, y);
        aug.set(i2, x);
        assert forall|row: int, cc: int| 0 <= row < n && 0 <= cc < w implies #[trigger] at(aug@, w as int, row, cc)
            == if cc < col + 1 {
            at(start, w as int, swapped_row(row, r1 as int, r2 as int), cc)
        } else {
            at(start, w as int, row, cc)
        } by {
            lemma_cell_in_range(row, cc, w as int, n as int);
            let q = row * w + cc;
            if q == i1 {
                lemma_cells_distinct(row, cc, r1 as int, col as int, w as int);
            } else if q == i2 {
                lemma_cells_distinct(row, cc, r2 as int, col as int, w as int);
            } else {
                assert(at(aug@, w as int, row, cc) == at(before, w as int, row, cc));
                if cc == col && (row == r1 || row == r2) {
                    assert(false);
                }
            }
        }
        col += 1;
    }
}

/// Entry `(row, col)` after clearing the pivot column from every other row:
/// a row with a nonzero factor (its pivot-column entry) loses factor times
/// the pivot row, with saturation.
pub open spec fn eliminated_entry(aug: Seq<Complex>, n: int, pivot: int, row: int, col: int) -> Complex {
    let w = 2 * n;
    let factor = at(aug, w, row, pivot);
    if row == pivot || is_zero(factor) {
        at(aug, w, row, col)
    } else {
        sub_spec(at(aug, w, row, col), factor.mul_spec(at(aug, w, pivot, col)))
    }
}

/// Every product the elimination forms fits.
pub open spec fn elimination_fits(aug: Seq<Complex>, n: int, pivot: int) -> bool {
    forall|row: int, col: int|
        0 <= row < n && 0 <= col < 2 * n && row != pivot ==> #[trigger] at(aug, 2 * n, row, pivot).mul_fits(
            #[trigger] at(aug, 2 * n, pivot, col),
        )
}

/// Whether every product the elimination forms fits.
pub fn elimination_in_range(aug: &[Complex], n: usize, pivot: usize) -> (r: bool)
    requires
        2 * n * n <= usize::MAX,
        aug@.len() >= 2 * n * n,
        pivot < n,
    ensures
        r == elimination_fits(aug@, n as int, pivot as int),
{
    proof {
        lemma_wide_dims(n as int);
    }
    let w = 2 * n;
    let mut row: usize = 0;
    while row < n
        invariant
            w == 2 * n,
            2 * n * n <= usize::MAX,
            aug@.len() >= 2 * n * n,
            pivot < n,
            row <= n,
            forall|rr: int, cc: int|
                0 <= rr < row && 0 <= cc < w && rr != pivot ==> #[trigger] at(aug@, w as int, rr, pivot as int).mul_fits(
                    #[trigger] at(aug@, w as int, pivot as int, cc),
                ),
        decreases n - row,
    {
        if row != pivot {
            let mut col: usize = 0;
            while col < w
                invariant
                    w == 2 * n,
                    2 * n * n <= usize::MAX,
                    aug@.len() >= 2 * n * n,
                    pivot < n,
                    row < n,
                    row != pivot,
                    col <= w,
                    forall|rr: int, cc: int|
                        0 <= rr < row && 0 <= cc < w && rr != pivot ==> #[trigger] at(
                            aug@,
                            w as int,
                            rr,
                            pivot as int,
                        ).mul_fits(#[trigger] at(aug@, w as int, pivot as int, cc)),
                    forall|cc: int|
                        0 <= cc < col ==> #[trigger] at(aug@, w as int, row as int, pivot as int).mul_fits(
                            at(aug@, w as int, pivot as int, cc),
                        ),
                decreases w - col,
            {
                proof {
                    lemma_cell_in_range(row as int, pivot as int, w as int, n as int);
                    lemma_cell_in_range(pivot as int, col as int, w as int, n as int);
                    assert(n * w == 2 * n * n) by (nonlinear_arith)
                        requires
                            w == 2 * n,
                    ;
                }
                let f = aug[row * w + pivot];
                let p = aug[pivot * w + col];
                let re: i64 = crate::fixed::fixed_mul(f.re, p.re) as i64 - crate::fixed::fixed_mul(f.im, p.im) as i64;
                let im: i64 = crate::fixed::fixed_mul(f.re, p.im) as i64 + crate::fixed::fixed_mul(f.im, p.re) as i64;
                if re < i32::MIN as i64 || re > i32::MAX as i64 || im < i32::MIN as i64 || im > i32::MAX as i64 {
                    assert(f == at(aug@, 2 * n as int, row as int, pivot as int));
                    assert(p == at(aug@, 2 * n as int, pivot as int, col as int));
                    assert(!f.mul_fits(p));
                    return false;
                }
                col += 1;
            }
        }
        row += 1;
    }
    true
}

/// Clear the pivot column from every row but the pivot row.
pub fn eliminate_column(aug: &mut Vec<Complex>, n: usize, pivot: usize)
    requires
        2 * n * n <= usize::MAX,
        old(aug)@.len() == 2 * n * n,
        pivot < n,
        elimination_fits(old(aug)@, n as int, pivot as int),
    ensures
        final(aug)@.len() == old(aug)@.len(),
        forall|row: int, col: int|
            0 <= row < n && 0 <= col < 2 * n ==> #[trigger] at(final(aug)@, 2 * n as int, row, col)
                == eliminated_entry(old(aug)@, n as int, pivot as int, row, col),
{
    proof {
        lemma_wide_dims(n as int);
    }
    let w = 2 * n;
    let ghost start = aug@;
    let mut row: usize = 0;
    while row < n
        invariant
            w == 2 * n,
            2 * n * n <= usize::MAX,
            start.len() == 2 * n * n,
            aug@.len() == start.len(),
            pivot < n,
            elimination_fits(start, n as int, pivot as int),
            row <= n,
            forall|rr: int, cc: int|
                0 <= rr < n && 0 <= cc < w ==> #[trigger] at(aug@, w as int, rr, cc) == if rr < row {
                    eliminated_entry(start, n as int, pivot as int, rr, cc)
                } else {
                    at(start, w as int, rr, cc)
                },
        decreases n - row,
    {
        proof {
            assert(n * w == 2 * n * n) by (nonlinear_arith)
                requires
                    w == 2 * n,
            ;
            lemma_cell_in_range(row as int, pivot as int, w as int, n as int);
        }
        if row != pivot {
            let factor = aug[row * w + pivot];
            assert(factor == at(aug@, w as int, row as int, pivot as int));
            assert(factor == at(start, w as int, row as int, pivot as int));
            if !(factor.re == 0 && factor.im == 0) {
                let mut col: usize = 0;
                while col < w
                    invariant
                        w == 2 * n,
                        n * w == 2 * n * n,
                        2 * n * n <= usize::MAX,
                        start.len() == 2 * n * n,
                        aug@.len() == start.len(),
                        pivot < n,
                        elimination_fits(start, n as int, pivot as int),
                        row < n,
                        row != pivot,
                        col <= w,
                        factor == at(start, w as int, row as int, pivot as int),
                        !is_zero(factor),
                        forall|rr: int, cc: int|
                            0 <= rr < n && 0 <= cc < w ==> #[trigger] at(aug@, w as int, rr, cc) == if rr < row || (
                            rr == row && cc < col) {
                                eliminated_entry(start, n as int, pivot as int, rr, cc)
                            } else {
                                at(start, w as int, rr, cc)
                            },
                    decreases w - col,
                {
                    proof {
                        lemma_cell_in_range(row as int, col as int, w as int, n as int);
                        lemma_cell_in_range(pivot as int, col as int, w as int, n as int);
                    }
                    let ghost before = aug@;
                    let lhs = aug[row * w + col];
                    let p = aug[pivot * w + col];
                    assert(lhs == at(aug@, w as int, row as int, col as int));
                    assert(lhs == at(start, w as int, row as int, col as int));
                    assert(p == at(aug@, w as int, pivot as int, col as int));
                    assert(p == at(start, w as int, pivot as int, col as int));
                    assert(factor.mul_fits(at(start, w as int, pivot as int, col as int)));
                    let rhs = factor.mul(&p);
                    let updated = Complex::new(sat_sub_i32(lhs.re, rhs.re), sat_sub_i32(lhs.im, rhs.im));
                    assert(updated == eliminated_entry(start, n as int, pivot as int, row as int, col as int));
                    aug.set(row * w + col, updated);
                    assert forall|rr: int, cc: int| 0 <= rr < n && 0 <= cc < w implies #[trigger] at(
                        aug@,
                        w as int,
                        rr,
                        cc,
                    ) == if rr < row || (rr == row && cc < col + 1) {
                        eliminated_entry(start, n as int, pivot as int, rr, cc)
                    } else {
                        at(start, w as int, rr, cc)
                    } by {
                        lemma_cell_in_range(rr, cc, w as int, n as int);
                        if rr * w + cc == row * w + col {
                            lemma_cells_distinct(rr, cc, row as int, col as int, w as int);
                        } else {
                            assert(at(aug@, w as int, rr, cc) == at(before, w as int, rr, cc));
                        }
                    }
                    col += 1;
                }
            }
        }
        row += 1;
    }
}

/// The right half of the augmented matrix: the inverse.
pub fn extract_inverse(aug: &[Complex], n: usize) -> (r: Vec<Complex>)
    requires
        2 * n * n <= usize::MAX,
        aug@.len() >= 2 * n * n,
    ensures
        r@.len() == n * n,
        forall|row: int, col: int|
            0 <= row < n && 0 <= col < n ==> #[trigger] at(r@, n as int, row, col) == at(
                aug@,
                2 * n as int,
                row,
                n + col,
            ),
{
    proof {
        lemma_wide_dims(n as int);
    }
    let w = 2 * n;
    let mut out: Vec<Complex> = Vec::new();
    let mut row: usize = 0;
    while row < n
        invariant
            w == 2 * n,
            2 * n * n <= usize::MAX,
            aug@.len() >= 2 * n * n,
            row <= n,
            out@.len() == row * n,
            forall|rr: int, cc: int|
                0 <= rr < row && 0 <= cc < n ==> #[trigger] at(out@, n as int, rr, cc) == at(
                    aug@,
                    w as int,
                    rr,
                    n + cc,
                ),
        decreases n - row,
    {
        let mut col: usize = 0;
        while col < n
            invariant
                w == 2 * n,
                2 * n * n <= usize::MAX,
                aug@.len() >= 2 * n * n,
                row < n,
                col <= n,
                out@.len() == row * n + col,
                forall|rr: int, cc: int|
                    0 <= rr < n && 0 <= cc < n && (rr < row || (rr == row && cc < col)) ==> #[trigger] at(
                        out@,
                        n as int,
                        rr,
                        cc,
                    ) == at(aug@, w as int, rr, n + cc),
            decreases n - col,
        {
            proof {
                lemma_cell_in_range(row as int, n + col, w as int, n as int);
                assert(n * w == 2 * n * n) by (nonlinear_arith)
                    requires
                        w == 2 * n,
                ;
                lemma_cell_in_range(row as int, col as int, n as int, n as int);
            }
            let ghost before = out@;
            out.push(aug[row * w + n + col]);
            assert forall|rr: int, cc: int|
                0 <= rr < n && 0 <= cc < n && (rr < row || (rr == row && cc < col + 1)) implies #[trigger] at(
                out@,
                n as int,
                rr,
                cc,
            ) == at(aug@, w as int, rr, n + cc) by {
                lemma_cell_in_range(rr, cc, n as int, n as int);
                if rr * n + cc == row * n + col {
                    lemma_cells_distinct(rr, cc, row as int, col as int, n as int);
                } else {
                    assert(rr * n + cc < row * n + col) by (nonlinear_arith)
                        requires
                            rr < row || (rr == row && cc < col),
                            0 <= cc < n,
                            0 <= col,
                    ;
                    assert(at(out@, n as int, rr, cc) == at(before, n as int, rr, cc));
                }
            }
            col += 1;
        }
        proof {
            lemma_cell_in_range(row as int, 0, n as int, n as int);
        }
        row += 1;
    }
    proof {
        assert(n * n == n * n);
    }
    out
}

/// The dense matrix `iαL` of a sparse Laplacian: zeros, then for each
/// stored entry in order `(0, fixed_mul(re, alpha))` at `row * n + col`.
pub open spec fn generator_fold(d: Seq<Complex>, s: Seq<SparseElement>, n: int, alpha: Fixed) -> Seq<Complex>
    decreases s.len(),
{
    if s.len() == 0 {
        d
    } else {
        let d1 = generator_fold(d, s.drop_last(), n, alpha);
        d1.update(
            s.last().row * n + s.last().col,
            Complex { re: 0, im: fixed_mul_spec(s.last().re, alpha) },
        )
    }
}

/// Every stored entry lies inside the dimension.
pub open spec fn entries_in_dimension(s: Seq<SparseElement>, n: int) -> bool {
    forall|k: int| 0 <= k < s.len() ==> (#[trigger] s[k]).row < n && s[k].col < n
}

/// The dense generator `iαL` of a small Laplacian, row-major.
pub fn dense_generator<const MAX_ELEM: usize>(laplacian: &SparseMatrix<MAX_ELEM>, alpha: Fixed) -> (r: Vec<
    Complex,
>)
    requires
        laplacian.dimension * laplacian.dimension <= usize::MAX,
        entries_in_dimension(laplacian.elements@, laplacian.dimension as int),
    ensures
        r@ == generator_fold(
            Seq::new((laplacian.dimension * laplacian.dimension) as nat, |k: int| czero()),
            laplacian.elements@,
            laplacian.dimension as int,
            alpha,
        ),
{
    let n = laplacian.dimension as usize;
    let total = n * n;
    let mut a: Vec<Complex> = Vec::new();
    let mut q: usize = 0;
    while q < total
        invariant
            total == n * n,
            q <= total,
            a@ == Seq::new(q as nat, |k: int| czero()),
        decreases total - q,
    {
        a.push(Complex::default());
        assert(a@ =~= Seq::new((q + 1) as nat, |k: int| czero()));
        q += 1;
    }
    let ghost d0 = a@;
    let m = laplacian.elements.len();
    let mut i: usize = 0;
    while i < m
        invariant
            n == laplacian.dimension,
            total == n * n,
            total <= usize::MAX,
            m == laplacian.elements@.len(),
            entries_in_dimension(laplacian.elements@, n as int),
            i <= m,
            a@.len() == total,
            a@ == generator_fold(d0, laplacian.elements@.take(i as int), n as int, alpha),
        decreases m - i,
    {
        assert(laplacian.elements@.take(i + 1).drop_last() == laplacian.elements@.take(i as int));
        let elem = laplacian.elements[i];
        assert(elem == laplacian.elements@[i as int]);
        proof {
            lemma_cell_in_range(elem.row as int, elem.col as int, n as int, n as int);
        }
        let idx = elem.row as usize * n + elem.col as usize;
        a.set(idx, Complex::new(0, fixed_mul(elem.re, alpha)));
        i += 1;
    }
    assert(laplacian.elements@.take(m as int) == laplacian.elements@);
    a
}

/// Multiplying by one in fixed point gives the number back.
proof fn lemma_mul_one(x: i32)
    ensures
        crate::fixed::fixed_mul_spec(FIXED_ONE, x) == x,
        crate::fixed::fixed_mul_spec(0, x) == 0,
{
    assert(65536 * x / 65536 == x) by (nonlinear_arith);
    assert(0 * x / 65536 == 0) by (nonlinear_arith);
}

proof fn lemma_identity_cell(a: Seq<Complex>, b: Seq<Complex>, n: int, i: int, j: int, k: int)
    requires
        0 <= i < n,
        0 <= j < n,
        0 <= k <= n,
        forall|q: int| 0 <= q < n * n ==> #[trigger] a[q] == identity_entry(n, q),
    ensures
        mul_cell(a, b, n, i, j, k) == if k > i {
            at(b, n, i, j)
        } else {
            czero()
        },
    decreases k,
{
    if k > 0 {
        lemma_identity_cell(a, b, n, i, j, k - 1);
        lemma_cell_index(i, k - 1, n);
        lemma_cell_in_range(i, k - 1, n, n);
        assert(a[i * n + (k - 1)] == identity_entry(n, i * n + (k - 1)));
        let rhs = at(b, n, k - 1, j);
        lemma_mul_one(rhs.re);
        lemma_mul_one(rhs.im);
    }
}

/// The identity is a left unit of the product: `I · B = B`.
pub proof fn law_identity_left(a: Seq<Complex>, b: Seq<Complex>, n: int)
    requires
        0 <= n,
        forall|q: int| 0 <= q < n * n ==> #[trigger] a[q] == identity_entry(n, q),
    ensures
        forall|i: int, j: int| 0 <= i < n && 0 <= j < n ==> #[trigger] mul_cell(a, b, n, i, j, n) == at(b, n, i, j),
{
    assert forall|i: int, j: int| 0 <= i < n && 0 <= j < n implies #[trigger] mul_cell(a, b, n, i, j, n) == at(
        b,
        n,
        i,
        j,
    ) by {
        lemma_identity_cell(a, b, n, i, j, n);
    }
}

} // verus!
