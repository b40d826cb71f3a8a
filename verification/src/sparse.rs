//! Sparse matrices in coordinate format, the storage used by the compute
//! engine (Laplacian, unitary operator, relational state).

use vstd::prelude::*;
use crate::fixed::{
    Complex, Fixed, fixed_mul, fixed_mul_spec, saturate_i32, sat_add_i32, sat_add_i64,
};

verus! {

/// Maximum matrix dimension (100x100 grid = 10,000 nodes).
pub const MAX_DIMENSION: usize = 10000;

/// Grid size (100x100).
pub const GRID_SIZE: usize = 100;

/// Number of nearest neighbours (4-connected grid).
pub const NUM_NEAREST_NEIGHBORS: usize = 4;

/// Number of long-range edges.
pub const NUM_LONG_RANGE_EDGES: usize = 100;

/// Alpha value (~0.8) at which the signal cancels.
pub const ALPHA_DEAD_ZONE: Fixed = 0x0000CCCD;

/// Default alpha for evolution (0.15), away from the dead zone.
pub const DEFAULT_ALPHA: Fixed = 0x00002666;

/// Matrix element index type.
pub type MatrixIndex = u16;

/// One stored entry of a sparse matrix.
#[derive(Debug, Clone, Copy, PartialEq, Eq, Structural)]
pub struct SparseElement {
    /// Row index
    pub row: MatrixIndex,
    /// Column index
    pub col: MatrixIndex,
    /// Real component value
    pub re: Fixed,
    /// Imaginary component value
    pub im: Fixed,
}

impl Default for SparseElement {
    fn default() -> (r: Self)
        ensures
            r == (SparseElement { row: 0, col: 0, re: 0, im: 0 }),
    {
        SparseElement { row: 0, col: 0, re: 0, im: 0 }
    }
}

/// `|re|^2 + |im|^2` as the element computes it: each square shifted down by
/// 16 bits and truncated to 32 bits, then added with saturation.
pub open spec fn element_norm_sqr(re: i32, im: i32) -> i32 {
    saturate_i32(fixed_mul_spec(re, re) + fixed_mul_spec(im, im))
}

impl SparseElement {
    /// Create a new sparse element.
    pub fn new(row: MatrixIndex, col: MatrixIndex, re: Fixed, im: Fixed) -> (r: Self)
        ensures
            r == (SparseElement { row, col, re, im }),
    {
        SparseElement { row, col, re, im }
    }

    /// Create from a real value only.
    pub fn from_real(row: MatrixIndex, col: MatrixIndex, re: Fixed) -> (r: Self)
        ensures
            r == (SparseElement { row, col, re, im: 0 }),
    {
        SparseElement { row, col, re, im: 0 }
    }

    /// Create from a complex value.
    pub fn complex(row: MatrixIndex, col: MatrixIndex, c: &Complex) -> (r: Self)
        ensures
            r == (SparseElement { row, col, re: c.re, im: c.im }),
    {
        SparseElement { row, col, re: c.re, im: c.im }
    }

    pub open spec fn value(self) -> Complex {
        Complex { re: self.re, im: self.im }
    }

    /// The value as a complex number.
    pub fn to_complex(&self) -> (r: Complex)
        ensures
            r == self.value(),
    {
        Complex::new(self.re, self.im)
    }

    /// The conjugate element; the imaginary part must not be `i32::MIN`.
    pub fn conj(&self) -> (r: Self)
        requires
            self.im != i32::MIN,
        ensures
            r == (SparseElement { row: self.row, col: self.col, re: self.re, im: (-self.im) as i32 }),
    {
        SparseElement { row: self.row, col: self.col, re: self.re, im: -self.im }
    }

    /// Whether the element lies on the diagonal.
    pub fn is_diagonal(&self) -> (r: bool)
        ensures
            r == (self.row == self.col),
    {
        self.row == self.col
    }

    /// Magnitude squared.
    pub fn norm_sqr(&self) -> (r: Fixed)
        ensures
            r == element_norm_sqr(self.re, self.im),
    {
        let re_sq = fixed_mul(self.re, self.re);
        let im_sq = fixed_mul(self.im, self.im);
        sat_add_i32(re_sq, im_sq)
    }
}

/// The abstract state of a sparse matrix.
pub ghost struct SparseView {
    pub dimension: u16,
    pub elements: Seq<SparseElement>,
    pub sorted: bool,
}

/// Whether `e` is stored under the key `(row, col)`.
pub open spec fn at_key(e: SparseElement, row: u16, col: u16) -> bool {
    e.row == row && e.col == col
}

/// The index of the first element at or after `i` stored under `(row, col)`,
/// or -1.
pub open spec fn find_from(s: Seq<SparseElement>, row: u16, col: u16, i: int) -> int
    decreases s.len() - i,
{
    if i < 0 || i >= s.len() {
        -1
    } else if at_key(s[i], row, col) {
        i
    } else {
        find_from(s, row, col, i + 1)
    }
}

/// The index of the first element stored under `(row, col)`, or -1.
pub open spec fn find_key(s: Seq<SparseElement>, row: u16, col: u16) -> int {
    find_from(s, row, col, 0)
}

pub proof fn lemma_find_from_skip(s: Seq<SparseElement>, row: u16, col: u16, i: int, k: int)
    requires
        0 <= i <= k <= s.len(),
        forall|j: int| i <= j < k ==> !at_key(#[trigger] s[j], row, col),
    ensures
        find_from(s, row, col, i) == find_from(s, row, col, k),
    decreases k - i,
{
    if i < k {
        lemma_find_from_skip(s, row, col, i + 1, k);
    }
}

pub proof fn lemma_find_key_props(s: Seq<SparseElement>, row: u16, col: u16)
    ensures
        -1 <= find_key(s, row, col) < s.len(),
        find_key(s, row, col) >= 0 ==> at_key(s[find_key(s, row, col)], row, col),
        forall|j: int|
            0 <= j < s.len() && (find_key(s, row, col) == -1 || j < find_key(s, row, col))
                ==> !at_key(#[trigger] s[j], row, col),
{
    lemma_find_from_props(s, row, col, 0);
}

pub proof fn lemma_find_from_props(s: Seq<SparseElement>, row: u16, col: u16, i: int)
    requires
        0 <= i,
    ensures
        find_from(s, row, col, i) == -1 || (i <= find_from(s, row, col, i) < s.len() && at_key(
            s[find_from(s, row, col, i)],
            row,
            col,
        )),
        forall|j: int|
            i <= j < s.len() && (find_from(s, row, col, i) == -1 || j < find_from(s, row, col, i))
                ==> !at_key(#[trigger] s[j], row, col),
    decreases s.len() - i,
{
    if i < s.len() && !at_key(s[i], row, col) {
        lemma_find_from_props(s, row, col, i + 1);
    }
}

/// `find_key` is characterised by its two properties.
pub proof fn lemma_find_key_unique(s: Seq<SparseElement>, row: u16, col: u16, k: int)
    requires
        -1 <= k < s.len(),
        k >= 0 ==> at_key(s[k], row, col),
        forall|j: int| 0 <= j < s.len() && (k == -1 || j < k) ==> !at_key(#[trigger] s[j], row, col),
    ensures
        find_key(s, row, col) == k,
{
    lemma_find_key_props(s, row, col);
    let f = find_key(s, row, col);
    if f != k {
        if f == -1 {
            assert(!at_key(s[k], row, col));
        } else if k == -1 {
            assert(!at_key(s[f], row, col));
        } else if f < k {
            assert(!at_key(s[f], row, col));
        } else {
            assert(!at_key(s[k], row, col));
        }
    }
}

/// Where a key is found after appending an entry.
pub proof fn lemma_find_key_push(s: Seq<SparseElement>, e: SparseElement, row: u16, col: u16)
    ensures
        find_key(s.push(e), row, col) == (if find_key(s, row, col) >= 0 {
            find_key(s, row, col)
        } else if at_key(e, row, col) {
            s.len() as int
        } else {
            -1
        }),
{
    lemma_find_key_props(s, row, col);
    let t = s.push(e);
    let k = if find_key(s, row, col) >= 0 {
        find_key(s, row, col)
    } else if at_key(e, row, col) {
        s.len() as int
    } else {
        -1
    };
    assert forall|j: int| 0 <= j < t.len() && (k == -1 || j < k) implies !at_key(#[trigger] t[j], row, col) by {
        if j < s.len() {
            assert(t[j] == s[j]);
        }
    }
    lemma_find_key_unique(t, row, col, k);
}

/// The value that reading `(row, col)` gives: zero outside the dimension, the
/// first stored entry under the key, or a zero entry at the key.
pub open spec fn get_spec(v: SparseView, row: u16, col: u16) -> SparseElement {
    if row >= v.dimension || col >= v.dimension {
        SparseElement { row: 0, col: 0, re: 0, im: 0 }
    } else if find_key(v.elements, row, col) >= 0 {
        v.elements[find_key(v.elements, row, col)]
    } else {
        SparseElement { row, col, re: 0, im: 0 }
    }
}

/// The matrix after storing `(re, im)` under `(row, col)`, or `None` when the
/// key is outside the dimension or a new entry would exceed `cap`.
pub open spec fn set_spec(v: SparseView, cap: nat, row: u16, col: u16, re: i32, im: i32) -> Option<
    SparseView,
> {
    let e = SparseElement { row, col, re, im };
    if row >= v.dimension || col >= v.dimension {
        None
    } else if find_key(v.elements, row, col) >= 0 {
        Some(SparseView { elements: v.elements.update(find_key(v.elements, row, col), e), ..v })
    } else if v.elements.len() < cap {
        Some(SparseView { elements: v.elements.push(e), sorted: false, ..v })
    } else {
        None
    }
}

/// The matrix after an attempt to store an entry; a refused store leaves it
/// unchanged.
pub open spec fn try_set(v: SparseView, cap: nat, row: u16, col: u16, re: i32, im: i32) -> SparseView {
    match set_spec(v, cap, row, col, re, im) {
        Some(w) => w,
        None => v,
    }
}

/// The empty matrix of a dimension.
pub open spec fn empty_view(dimension: u16) -> SparseView {
    SparseView { dimension, elements: Seq::empty(), sorted: true }
}

/// Sparse matrix in coordinate format holding at most `MAX_ELEM` entries.
#[derive(Debug, Clone)]
pub struct SparseMatrix<const MAX_ELEM: usize> {
    /// Matrix dimension (N for an N×N matrix)
    pub dimension: MatrixIndex,
    /// Stored entries
    pub elements: Vec<SparseElement>,
    /// Whether the entries are known to be in (row, col) order
    pub sorted: bool,
}

impl<const MAX_ELEM: usize> View for SparseMatrix<MAX_ELEM> {
    type V = SparseView;

    open spec fn view(&self) -> SparseView {
        SparseView { dimension: self.dimension, elements: self.elements@, sorted: self.sorted }
    }
}

impl<const MAX_ELEM: usize> SparseMatrix<MAX_ELEM> {
    /// Create a new empty sparse matrix.
    pub fn new(dimension: MatrixIndex) -> (r: Self)
        ensures
            r@ == empty_view(dimension),
    {
        SparseMatrix { dimension, elements: Vec::new(), sorted: true }
    }

    /// Number of stored entries.
    pub fn len(&self) -> (r: usize)
        ensures
            r == self.elements@.len(),
    {
        self.elements.len()
    }

    /// Whether no entry is stored.
    pub fn is_empty(&self) -> (r: bool)
        ensures
            r == (self.elements@.len() == 0),
    {
        self.elements.len() == 0
    }

    /// Remove every entry.
    pub fn clear(&mut self)
        ensures
            final(self)@ == empty_view(old(self).dimension),
    {
        self.elements.clear();
        self.sorted = true;
    }

    /// Insert or update an entry.
    pub fn set(&mut self, row: MatrixIndex, col: MatrixIndex, re: Fixed, im: Fixed) -> (r: Result<
        (),
        (),
    >)
        ensures
            r is Ok <==> set_spec(old(self)@, MAX_ELEM as nat, row, col, re, im) is Some,
            final(self)@ == try_set(old(self)@, MAX_ELEM as nat, row, col, re, im),
    {
        if row >= self.dimension || col >= self.dimension {
            return Err(());
        }
        let n = self.elements.len();
        let mut i: usize = 0;
        while i < n
            invariant
                n == self.elements@.len(),
                0 <= i <= n,
                self@ == old(self)@,
                row < self.dimension && col < self.dimension,
                forall|j: int| 0 <= j < i ==> !at_key(#[trigger] self.elements@[j], row, col),
            decreases n - i,
        {
            if self.elements[i].row == row && self.elements[i].col == col {
                proof {
                    lemma_find_key_unique(self.elements@, row, col, i as int);
                }
                self.elements[i] = SparseElement::new(row, col, re, im);
                return Ok(());
            }
            i += 1;
        }
        proof {
            lemma_find_key_unique(self.elements@, row, col, -1);
        }
        if self.elements.len() < MAX_ELEM {
            self.elements.push(SparseElement::new(row, col, re, im));
            self.sorted = false;
            Ok(())
        } else {
            Err(())
        }
    }

    /// Read an entry; zero when it is not stored.
    pub fn get(&self, row: MatrixIndex, col: MatrixIndex) -> (r: SparseElement)
        ensures
            r == get_spec(self@, row, col),
    {
        if row >= self.dimension || col >= self.dimension {
            return SparseElement::new(0, 0, 0, 0);
        }
        let n = self.elements.len();
        let mut i: usize = 0;
        while i < n
            invariant
                n == self.elements@.len(),
                0 <= i <= n,
                row < self.dimension && col < self.dimension,
                forall|j: int| 0 <= j < i ==> !at_key(#[trigger] self.elements@[j], row, col),
            decreases n - i,
        {
            if self.elements[i].row == row && self.elements[i].col == col {
                proof {
                    lemma_find_key_unique(self.elements@, row, col, i as int);
                }
                return self.elements[i];
            }
            i += 1;
        }
        proof {
            lemma_find_key_unique(self.elements@, row, col, -1);
        }
        SparseElement::new(row, col, 0, 0)
    }

    /// A reference to the stored entry under the key, if there is one.
    pub fn get_ref(&self, row: MatrixIndex, col: MatrixIndex) -> (r: Option<&SparseElement>)
        ensures
            r is None <==> (row >= self.dimension || col >= self.dimension || find_key(
                self.elements@,
                row,
                col,
            ) == -1),
            r matches Some(e) ==> *e == self.elements@[find_key(self.elements@, row, col)],
    {
        proof {
            lemma_find_key_props(self.elements@, row, col);
        }
        if row >= self.dimension || col >= self.dimension {
            return None;
        }
        let n = self.elements.len();
        let mut i: usize = 0;
        while i < n
            invariant
                n == self.elements@.len(),
                0 <= i <= n,
                row < self.dimension && col < self.dimension,
                forall|j: int| 0 <= j < i ==> !at_key(#[trigger] self.elements@[j], row, col),
            decreases n - i,
        {
            if self.elements[i].row == row && self.elements[i].col == col {
                proof {
                    lemma_find_key_unique(self.elements@, row, col, i as int);
                }
                return Some(&self.elements[i]);
            }
            i += 1;
        }
        proof {
            lemma_find_key_unique(self.elements@, row, col, -1);
        }
        None
    }
}

/// A successful store is read back, and every other key reads as before.
pub proof fn law_get_after_set(
    v: SparseView,
    cap: nat,
    row: u16,
    col: u16,
    re: i32,
    im: i32,
    r2: u16,
    c2: u16,
)
    requires
        set_spec(v, cap, row, col, re, im) is Some,
    ensures
        get_spec(set_spec(v, cap, row, col, re, im).unwrap(), row, col) == (SparseElement {
            row,
            col,
            re,
            im,
        }),
        (r2 != row || c2 != col) ==> get_spec(set_spec(v, cap, row, col, re, im).unwrap(), r2, c2)
            == get_spec(v, r2, c2),
{
    let w = set_spec(v, cap, row, col, re, im).unwrap();
    let s = v.elements;
    let t = w.elements;
    let e = SparseElement { row, col, re, im };
    lemma_find_key_props(s, row, col);
    lemma_find_key_props(s, r2, c2);
    let k = find_key(s, row, col);
    if k >= 0 {
        assert(t == s.update(k, e));
        lemma_find_key_unique(t, row, col, k);
        if r2 != row || c2 != col {
            let k2 = find_key(s, r2, c2);
            assert forall|j: int| 0 <= j < t.len() && (k2 == -1 || j < k2) implies !at_key(
                #[trigger] t[j],
                r2,
                c2,
            ) by {
                if j != k {
                    assert(t[j] == s[j]);
                }
            }
            if k2 >= 0 {
                assert(k2 != k);
                assert(t[k2] == s[k2]);
            }
            lemma_find_key_unique(t, r2, c2, k2);
        }
    } else {
        assert(t == s.push(e));
        lemma_find_key_unique(t, row, col, s.len() as int);
        if r2 != row || c2 != col {
            let k2 = find_key(s, r2, c2);
            assert forall|j: int| 0 <= j < t.len() && (k2 == -1 || j < k2) implies !at_key(
                #[trigger] t[j],
                r2,
                c2,
            ) by {
                if j < s.len() {
                    assert(t[j] == s[j]);
                }
            }
            if k2 >= 0 {
                assert(t[k2] == s[k2]);
            }
            lemma_find_key_unique(t, r2, c2, k2);
        }
    }
}


/// Entries ordered by `(row, col)`.
pub open spec fn key_le(a: SparseElement, b: SparseElement) -> bool {
    a.row < b.row || (a.row == b.row && a.col <= b.col)
}

/// Entry `a` strictly before entry `b` in `(row, col)` order.
pub open spec fn key_lt(a: SparseElement, b: SparseElement) -> bool {
    a.row < b.row || (a.row == b.row && a.col < b.col)
}

/// The entries are in `(row, col)` order.
pub open spec fn sorted_by_key(s: Seq<SparseElement>) -> bool {
    forall|a: int, b: int| 0 <= a < b < s.len() ==> key_le(#[trigger] s[a], #[trigger] s[b])
}

/// A well-formed matrix: at most `cap` entries, every key inside the
/// dimension, and no key stored twice.
pub open spec fn wf_view(v: SparseView, cap: nat) -> bool {
    &&& v.elements.len() <= cap
    &&& forall|i: int|
        0 <= i < v.elements.len() ==> (#[trigger] v.elements[i]).row < v.dimension
            && v.elements[i].col < v.dimension
    &&& forall|i: int, j: int|
        0 <= i < j < v.elements.len() ==> !at_key(
            #[trigger] v.elements[i],
            #[trigger] v.elements[j].row,
            v.elements[j].col,
        )
}

/// Saturating `i64` addition over the integers.
pub open spec fn saturate_i64(x: int) -> i64 {
    if x > i64::MAX {
        i64::MAX
    } else if x < i64::MIN {
        i64::MIN
    } else {
        x as i64
    }
}

/// The Frobenius norm squared: the entries' squared magnitudes added in order
/// with saturation.
pub open spec fn frobenius_sum(s: Seq<SparseElement>) -> i64
    decreases s.len(),
{
    if s.len() == 0 {
        0
    } else {
        saturate_i64(frobenius_sum(s.drop_last()) + element_norm_sqr(s.last().re, s.last().im))
    }
}

/// The matrix that storing every entry of `s`, with row and column swapped,
/// into `acc` gives; refused stores are skipped.
pub open spec fn transpose_fold(acc: SparseView, s: Seq<SparseElement>, cap: nat) -> SparseView
    decreases s.len(),
{
    if s.len() == 0 {
        acc
    } else {
        let prev = transpose_fold(acc, s.drop_last(), cap);
        try_set(prev, cap, s.last().col, s.last().row, s.last().re, s.last().im)
    }
}

/// The transpose of a matrix: its entries stored swapped into an empty matrix
/// of the same dimension, with the sorted flag carried over.
pub open spec fn transpose_view(v: SparseView, cap: nat) -> SparseView {
    SparseView { sorted: v.sorted, ..transpose_fold(empty_view(v.dimension), v.elements, cap) }
}

/// One step of the product: add `l * r` into entry `(l.row, r.col)` of `acc`
/// when `r` lies in the row that `l`'s column names.
pub open spec fn mul_step(acc: SparseView, l: SparseElement, r: SparseElement, cap: nat) -> SparseView {
    if r.row == l.col {
        let upd = get_spec(acc, l.row, r.col).value().add_spec(l.value().mul_spec(r.value()));
        try_set(acc, cap, l.row, r.col, upd.re, upd.im)
    } else {
        acc
    }
}

/// The product steps of one left entry against the right entries in order.
pub open spec fn mul_inner(acc: SparseView, l: SparseElement, rs: Seq<SparseElement>, cap: nat) -> SparseView
    decreases rs.len(),
{
    if rs.len() == 0 {
        acc
    } else {
        mul_step(mul_inner(acc, l, rs.drop_last(), cap), l, rs.last(), cap)
    }
}

/// The product steps of every left entry, in order.
pub open spec fn mul_outer(
    acc: SparseView,
    ls: Seq<SparseElement>,
    rs: Seq<SparseElement>,
    cap: nat,
) -> SparseView
    decreases ls.len(),
{
    if ls.len() == 0 {
        acc
    } else {
        mul_inner(mul_outer(acc, ls.drop_last(), rs, cap), ls.last(), rs, cap)
    }
}

/// Whether left entry `l` and right entry `r` form a term of product cell
/// `(i, j)`: `l` at `(i, k)` and `r` at `(k, j)` for some `k`.
pub open spec fn is_term(l: SparseElement, r: SparseElement, i: u16, j: u16) -> bool {
    l.row == i && r.col == j && l.col == r.row
}

/// `c` plus the terms of cell `(i, j)` that `l` forms with the right entries
/// `rs`, added in order with saturation.
pub open spec fn cell_sum_inner(c: Complex, l: SparseElement, rs: Seq<SparseElement>, i: u16, j: u16) -> Complex
    decreases rs.len(),
{
    if rs.len() == 0 {
        c
    } else {
        let p = cell_sum_inner(c, l, rs.drop_last(), i, j);
        if is_term(l, rs.last(), i, j) {
            p.add_spec(l.value().mul_spec(rs.last().value()))
        } else {
            p
        }
    }
}

/// `c` plus every term `A[i][k] * B[k][j]` of cell `(i, j)`, taken left entry
/// by left entry and added with saturation.
pub open spec fn cell_sum(c: Complex, ls: Seq<SparseElement>, rs: Seq<SparseElement>, i: u16, j: u16) -> Complex
    decreases ls.len(),
{
    if ls.len() == 0 {
        c
    } else {
        cell_sum_inner(cell_sum(c, ls.drop_last(), rs, i, j), ls.last(), rs, i, j)
    }
}

proof fn lemma_mul_inner_cells(acc: SparseView, l: SparseElement, rs: Seq<SparseElement>, cap: nat, i: u16, j: u16)
    requires
        acc.elements.len() + rs.len() <= cap,
        l.row < acc.dimension,
        forall|k: int| 0 <= k < rs.len() ==> (#[trigger] rs[k]).col < acc.dimension,
        i < acc.dimension,
        j < acc.dimension,
    ensures
        mul_inner(acc, l, rs, cap).dimension == acc.dimension,
        mul_inner(acc, l, rs, cap).elements.len() <= acc.elements.len() + rs.len(),
        get_spec(mul_inner(acc, l, rs, cap), i, j).value() == cell_sum_inner(
            get_spec(acc, i, j).value(),
            l,
            rs,
            i,
            j,
        ),
    decreases rs.len(),
{
    if rs.len() > 0 {
        let rp = rs.drop_last();
        let r = rs.last();
        assert(r == rs[rs.len() - 1]);
        assert forall|k: int| 0 <= k < rp.len() implies (#[trigger] rp[k]).col < acc.dimension by {
            assert(rp[k] == rs[k]);
        }
        lemma_mul_inner_cells(acc, l, rp, cap, i, j);
        let prev = mul_inner(acc, l, rp, cap);
        if r.row == l.col {
            let upd = get_spec(prev, l.row, r.col).value().add_spec(l.value().mul_spec(r.value()));
            lemma_find_key_props(prev.elements, l.row, r.col);
            let w = set_spec(prev, cap, l.row, r.col, upd.re, upd.im);
            assert(w is Some);
            assert(mul_inner(acc, l, rs, cap) == w.unwrap());
            law_get_after_set(prev, cap, l.row, r.col, upd.re, upd.im, i, j);
        }
    }
}

proof fn lemma_mul_outer_cells(acc: SparseView, ls: Seq<SparseElement>, rs: Seq<SparseElement>, cap: nat, i: u16, j: u16)
    requires
        acc.elements.len() + ls.len() * rs.len() <= cap,
        forall|k: int| 0 <= k < ls.len() ==> (#[trigger] ls[k]).row < acc.dimension,
        forall|k: int| 0 <= k < rs.len() ==> (#[trigger] rs[k]).col < acc.dimension,
        i < acc.dimension,
        j < acc.dimension,
    ensures
        mul_outer(acc, ls, rs, cap).dimension == acc.dimension,
        mul_outer(acc, ls, rs, cap).elements.len() <= acc.elements.len() + ls.len() * rs.len(),
        get_spec(mul_outer(acc, ls, rs, cap), i, j).value() == cell_sum(get_spec(acc, i, j).value(), ls, rs, i, j),
    decreases ls.len(),
{
    if ls.len() > 0 {
        let lp = ls.drop_last();
        let l = ls.last();
        assert(l == ls[ls.len() - 1]);
        assert forall|k: int| 0 <= k < lp.len() implies (#[trigger] lp[k]).row < acc.dimension by {
            assert(lp[k] == ls[k]);
        }
        assert(lp.len() * rs.len() + rs.len() == ls.len() * rs.len()) by (nonlinear_arith)
            requires
                lp.len() + 1 == ls.len(),
        ;
        lemma_mul_outer_cells(acc, lp, rs, cap, i, j);
        let prev = mul_outer(acc, lp, rs, cap);
        lemma_mul_inner_cells(prev, l, rs, cap, i, j);
    }
}

/// Each cell of the sparse product is the sum of its terms: for left and
/// right entries inside the dimension, with room for every product cell,
/// entry `(i, j)` of the product equals the sum, added in order with
/// saturation, of `A[i][k] * B[k][j]` over the stored pairs that meet at a
/// common `k`.
pub proof fn law_product_cell_is_sum_of_terms(
    dim: u16,
    ls: Seq<SparseElement>,
    rs: Seq<SparseElement>,
    cap: nat,
    i: u16,
    j: u16,
)
    requires
        ls.len() * rs.len() <= cap,
        forall|k: int| 0 <= k < ls.len() ==> (#[trigger] ls[k]).row < dim,
        forall|k: int| 0 <= k < rs.len() ==> (#[trigger] rs[k]).col < dim,
        i < dim,
        j < dim,
    ensures
        get_spec(mul_outer(empty_view(dim), ls, rs, cap), i, j).value() == cell_sum(
            Complex { re: 0, im: 0 },
            ls,
            rs,
            i,
            j,
        ),
{
    lemma_mul_outer_cells(empty_view(dim), ls, rs, cap, i, j);
    assert(find_key(Seq::<SparseElement>::empty(), i, j) == -1);
}

/// Every product that the multiplication forms fits in `i32` parts.
pub open spec fn products_fit(ls: Seq<SparseElement>, rs: Seq<SparseElement>) -> bool {
    forall|i: int, j: int|
        0 <= i < ls.len() && 0 <= j < rs.len() && #[trigger] rs[j].row == #[trigger] ls[i].col
            ==> ls[i].value().mul_fits(rs[j].value())
}

/// Entry `j` holds the conjugate of entry `k` at the swapped key.
pub open spec fn conj_at(s: Seq<SparseElement>, k: int, j: int) -> bool {
    s[j].row == s[k].col && s[j].col == s[k].row && s[j].re == s[k].re && s[j].im == -s[k].im
}

/// The matrix is Hermitian: each entry's conjugate is stored at the swapped
/// key.
pub open spec fn hermitian_spec(s: Seq<SparseElement>) -> bool {
    forall|k: int| 0 <= k < s.len() ==> #[trigger] has_conj(s, k)
}

/// Some entry holds the conjugate of entry `k` at the swapped key.
pub open spec fn has_conj(s: Seq<SparseElement>, k: int) -> bool {
    exists|j: int| 0 <= j < s.len() && #[trigger] conj_at(s, k, j)
}

/// The output vector with its first `n` entries cleared.
pub open spec fn zero_prefix(y: Seq<Complex>, n: int) -> Seq<Complex> {
    Seq::new(y.len(), |k: int| if k < n { Complex { re: 0, im: 0 } } else { y[k] })
}

/// `y[row] += a * x[col]` for each entry in order, with saturating sums.
pub open spec fn matvec_fold(y: Seq<Complex>, s: Seq<SparseElement>, x: Seq<Complex>) -> Seq<Complex>
    decreases s.len(),
{
    if s.len() == 0 {
        y
    } else {
        let y1 = matvec_fold(y, s.drop_last(), x);
        let e = s.last();
        y1.update(e.row as int, y1[e.row as int].add_spec(e.value().mul_spec(x[e.col as int])))
    }
}

/// Every entry indexes inside `x` and `y` and its product with `x` fits.
pub open spec fn matvec_ok(s: Seq<SparseElement>, x: Seq<Complex>, ylen: int) -> bool {
    forall|i: int|
        0 <= i < s.len() ==> (#[trigger] s[i]).row < ylen && s[i].col < x.len() && s[i].value().mul_fits(
            x[s[i].col as int],
        )
}

/// A dense row-major copy: zeros, then each entry written at `row * n + col`
/// in order (entries past the end are skipped).
pub open spec fn dense_fold(d: Seq<Complex>, s: Seq<SparseElement>, n: int) -> Seq<Complex>
    decreases s.len(),
{
    if s.len() == 0 {
        d
    } else {
        let d1 = dense_fold(d, s.drop_last(), n);
        let idx = s.last().row * n + s.last().col;
        if idx < d1.len() {
            d1.update(idx, s.last().value())
        } else {
            d1
        }
    }
}

pub proof fn lemma_swap_multiset(s: Seq<SparseElement>, j: int)
    requires
        0 < j < s.len(),
    ensures
        s.update(j, s[j - 1]).update(j - 1, s[j]).to_multiset() == s.to_multiset(),
{
    broadcast use vstd::seq_lib::to_multiset_update;
    broadcast use vstd::multiset::group_multiset_axioms;

    let s1 = s.update(j, s[j - 1]);
    assert(s1[j - 1] == s[j - 1]);
    let s2 = s1.update(j - 1, s[j]);
    assert(s1.to_multiset() == s.to_multiset().insert(s[j - 1]).remove(s[j]));
    assert(s2.to_multiset() == s1.to_multiset().insert(s[j]).remove(s[j - 1]));
    let m = s.to_multiset();
    broadcast use vstd::seq_lib::to_multiset_contains;
    assert(s.contains(s[j]));
    assert(s.contains(s[j - 1]));
    assert(m.count(s[j]) > 0);
    assert(m.count(s[j - 1]) > 0);
    assert forall|x: SparseElement| #[trigger] s2.to_multiset().count(x) == m.count(x) by {}
    assert(s2.to_multiset() =~= s.to_multiset());
}

impl<const MAX_ELEM: usize> SparseMatrix<MAX_ELEM> {
    /// Sort entries into row-then-column order (insertion sort) and flag the
    /// matrix sorted. The flag is not trusted: a matrix can carry it after a
    /// transpose that reordered its keys, so the entries are always checked.
    pub fn sort(&mut self)
        ensures
            final(self).sorted,
            final(self).dimension == old(self).dimension,
            final(self).elements@.to_multiset() == old(self).elements@.to_multiset(),
            sorted_by_key(final(self).elements@),
    {
        let n = self.elements.len();
        let mut i: usize = 1;
        while i < n
            invariant
                n == self.elements@.len(),
                1 <= i || n == 0,
                i <= n || n == 0,
                self.dimension == old(self).dimension,
                self.elements@.to_multiset() == old(self).elements@.to_multiset(),
                forall|a: int, b: int|
                    0 <= a < b < i && b < n ==> key_le(
                        #[trigger] self.elements@[a],
                        #[trigger] self.elements@[b],
                    ),
            decreases n - i,
        {
            let mut j: usize = i;
            while j > 0 && (self.elements[j].row < self.elements[j - 1].row || (self.elements[j].row
                == self.elements[j - 1].row && self.elements[j].col < self.elements[j - 1].col))
                invariant
                    n == self.elements@.len(),
                    1 <= i < n,
                    j <= i,
                    self.dimension == old(self).dimension,
                    self.elements@.to_multiset() == old(self).elements@.to_multiset(),
                    forall|a: int, b: int|
                        0 <= a < b < j ==> key_le(
                            #[trigger] self.elements@[a],
                            #[trigger] self.elements@[b],
                        ),
                    forall|a: int, b: int|
                        j < a < b <= i ==> key_le(
                            #[trigger] self.elements@[a],
                            #[trigger] self.elements@[b],
                        ),
                    forall|a: int, b: int|
                        0 <= a < j < b <= i ==> key_le(
                            #[trigger] self.elements@[a],
                            #[trigger] self.elements@[b],
                        ),
                    forall|b: int| j < b <= i ==> key_lt(self.elements@[j as int], #[trigger] self.elements@[b]),
                decreases j,
            {
                let x = self.elements[j];
                let y = self.elements[j - 1];
                proof {
                    lemma_swap_multiset(self.elements@, j as int);
                }
                self.elements[j] = y;
                self.elements[j - 1] = x;
                j -= 1;
            }
            proof {
                let s = self.elements@;
                assert forall|a: int, b: int| 0 <= a < b < i + 1 && b < n implies key_le(
                    #[trigger] s[a],
                    #[trigger] s[b],
                ) by {
                    if b == j {
                        if a < j - 1 {
                            assert(key_le(s[a], s[j - 1]));
                        }
                        assert(key_le(s[j - 1], s[j as int]));
                    } else if a == j {
                        assert(key_lt(s[j as int], s[b]));
                    }
                }
            }
            i += 1;
        }
        self.sorted = true;
    }

    /// The entries of one row, in stored order.
    pub fn row_iter(&self, row: MatrixIndex) -> (r: Vec<SparseElement>)
        ensures
            r@ == self.elements@.filter(|e: SparseElement| e.row == row),
    {
        let n = self.elements.len();
        let mut out: Vec<SparseElement> = Vec::new();
        let mut i: usize = 0;
        while i < n
            invariant
                n == self.elements@.len(),
                i <= n,
                out@ == self.elements@.take(i as int).filter(|e: SparseElement| e.row == row),
            decreases n - i,
        {
            proof {
                assert(self.elements@.take(i + 1) == self.elements@.take(i as int).push(
                    self.elements@[i as int],
                ));
                self.elements@.take(i as int).lemma_filter_push(
                    self.elements@[i as int],
                    |e: SparseElement| e.row == row,
                );
            }
            if self.elements[i].row == row {
                out.push(self.elements[i]);
            }
            i += 1;
        }
        assert(self.elements@.take(n as int) == self.elements@);
        out
    }

    /// The diagonal entries, in stored order.
    pub fn diagonal_iter(&self) -> (r: Vec<SparseElement>)
        ensures
            r@ == self.elements@.filter(|e: SparseElement| e.row == e.col),
    {
        let n = self.elements.len();
        let mut out: Vec<SparseElement> = Vec::new();
        let mut i: usize = 0;
        while i < n
            invariant
                n == self.elements@.len(),
                i <= n,
                out@ == self.elements@.take(i as int).filter(|e: SparseElement| e.row == e.col),
            decreases n - i,
        {
            proof {
                assert(self.elements@.take(i + 1) == self.elements@.take(i as int).push(
                    self.elements@[i as int],
                ));
                self.elements@.take(i as int).lemma_filter_push(
                    self.elements@[i as int],
                    |e: SparseElement| e.row == e.col,
                );
            }
            if self.elements[i].row == self.elements[i].col {
                out.push(self.elements[i]);
            }
            i += 1;
        }
        assert(self.elements@.take(n as int) == self.elements@);
        out
    }

    /// Frobenius norm squared: the entries' squared magnitudes, added with
    /// saturation.
    pub fn frobenius_norm_sqr(&self) -> (r: i64)
        ensures
            r == frobenius_sum(self.elements@),
    {
        let n = self.elements.len();
        let mut sum: i64 = 0;
        let mut i: usize = 0;
        while i < n
            invariant
                n == self.elements@.len(),
                i <= n,
                sum == frobenius_sum(self.elements@.take(i as int)),
            decreases n - i,
        {
            assert(self.elements@.take(i + 1).drop_last() == self.elements@.take(i as int));
            let norm_sq = self.elements[i].norm_sqr() as i64;
            sum = sat_add_i64(sum, norm_sq);
            i += 1;
        }
        assert(self.elements@.take(n as int) == self.elements@);
        sum
    }

    /// The transpose: each entry stored with row and column swapped.
    pub fn transpose(&self) -> (r: Self)
        ensures
            r@ == transpose_view(self@, MAX_ELEM as nat),
            r.dimension == self.dimension,
    {
        let mut t = Self::new(self.dimension);
        let n = self.elements.len();
        let mut i: usize = 0;
        while i < n
            invariant
                n == self.elements@.len(),
                i <= n,
                t@ == transpose_fold(empty_view(self.dimension), self.elements@.take(i as int), MAX_ELEM as nat),
                t.dimension == self.dimension,
            decreases n - i,
        {
            assert(self.elements@.take(i + 1).drop_last() == self.elements@.take(i as int));
            let e = self.elements[i];
            let _ = t.set(e.col, e.row, e.re, e.im);
            i += 1;
        }
        assert(self.elements@.take(n as int) == self.elements@);
        t.sorted = self.sorted;
        t
    }

    /// Sparse-sparse product; the result keeps the storage bound of `self`.
    pub fn sparse_mul<const RHS_MAX: usize>(&self, other: &SparseMatrix<RHS_MAX>) -> (r: Self)
        requires
            self.dimension == other.dimension,
            products_fit(self.elements@, other.elements@),
        ensures
            r@ == mul_outer(empty_view(self.dimension), self.elements@, other.elements@, MAX_ELEM as nat),
            r.dimension == self.dimension,
    {
        let mut result = Self::new(self.dimension);
        let n = self.elements.len();
        let m = other.elements.len();
        let ghost ls = self.elements@;
        let ghost rs = other.elements@;
        let mut li: usize = 0;
        while li < n
            invariant
                n == ls.len(),
                m == rs.len(),
                ls == self.elements@,
                rs == other.elements@,
                products_fit(ls, rs),
                li <= n,
                result@ == mul_outer(empty_view(self.dimension), ls.take(li as int), rs, MAX_ELEM as nat),
                result.dimension == self.dimension,
            decreases n - li,
        {
            let left = self.elements[li];
            let ghost before = result@;
            let mut ri: usize = 0;
            while ri < m
                invariant
                    n == ls.len(),
                    m == rs.len(),
                    ls == self.elements@,
                    rs == other.elements@,
                    products_fit(ls, rs),
                    li < n,
                    left == ls[li as int],
                    ri <= m,
                    result@ == mul_inner(before, left, rs.take(ri as int), MAX_ELEM as nat),
                    result.dimension == self.dimension,
                decreases m - ri,
            {
                assert(rs.take(ri + 1).drop_last() == rs.take(ri as int));
                let right = other.elements[ri];
                if right.row == left.col {
                    assert(ls[li as int].value().mul_fits(rs[ri as int].value()));
                    let product = left.to_complex().mul(&right.to_complex());
                    let current = result.get(left.row, right.col).to_complex();
                    let updated = current.add(&product);
                    let _ = result.set(left.row, right.col, updated.re, updated.im);
                }
                ri += 1;
            }
            assert(rs.take(m as int) == rs);
            assert(ls.take(li + 1).drop_last() == ls.take(li as int));
            li += 1;
        }
        assert(ls.take(n as int) == ls);
        result
    }

    /// Whether every product that `self * other` forms fits in `i32` parts.
    pub fn products_fit_with<const RHS_MAX: usize>(&self, other: &SparseMatrix<RHS_MAX>) -> (r: bool)
        ensures
            r == products_fit(self.elements@, other.elements@),
    {
        let n = self.elements.len();
        let m = other.elements.len();
        let ghost ls = self.elements@;
        let ghost rs = other.elements@;
        let mut i: usize = 0;
        while i < n
            invariant
                n == ls.len(),
                m == rs.len(),
                ls == self.elements@,
                rs == other.elements@,
                i <= n,
                forall|a: int, b: int|
                    0 <= a < i && 0 <= b < m && #[trigger] rs[b].row == #[trigger] ls[a].col ==> ls[a].value().mul_fits(
                        rs[b].value(),
                    ),
            decreases n - i,
        {
            let mut j: usize = 0;
            while j < m
                invariant
                    n == ls.len(),
                    m == rs.len(),
                    ls == self.elements@,
                    rs == other.elements@,
                    i < n,
                    j <= m,
                    forall|a: int, b: int|
                        0 <= a < i && 0 <= b < m && #[trigger] rs[b].row == #[trigger] ls[a].col ==> ls[a].value().mul_fits(
                            rs[b].value(),
                        ),
                    forall|b: int|
                        0 <= b < j && #[trigger] rs[b].row == ls[i as int].col ==> ls[i as int].value().mul_fits(
                            rs[b].value(),
                        ),
                decreases m - j,
            {
                let l = self.elements[i];
                let rr = other.elements[j];
                if rr.row == l.col {
                    let re: i64 = fixed_mul(l.re, rr.re) as i64 - fixed_mul(l.im, rr.im) as i64;
                    let im: i64 = fixed_mul(l.re, rr.im) as i64 + fixed_mul(l.im, rr.re) as i64;
                    if re < i32::MIN as i64 || re > i32::MAX as i64 || im < i32::MIN as i64 || im > i32::MAX as i64 {
                        assert(!ls[i as int].value().mul_fits(rs[j as int].value()));
                        return false;
                    }
                }
                j += 1;
            }
            i += 1;
        }
        true
    }

    /// Whether each entry's conjugate is stored at the swapped key.
    pub fn is_hermitian(&self) -> (r: bool)
        requires
            forall|i: int| 0 <= i < self.elements@.len() ==> (#[trigger] self.elements@[i]).im != i32::MIN,
        ensures
            r == hermitian_spec(self.elements@),
    {
        let n = self.elements.len();
        let ghost s = self.elements@;
        let mut i: usize = 0;
        while i < n
            invariant
                n == s.len(),
                s == self.elements@,
                i <= n,
                forall|i: int| 0 <= i < s.len() ==> (#[trigger] s[i]).im != i32::MIN,
                forall|k: int| 0 <= k < i ==> #[trigger] has_conj(s, k),
            decreases n - i,
        {
            let elem = self.elements[i];
            let conj_elem = elem.conj();
            let mut found = false;
            let mut j: usize = 0;
            while j < n
                invariant
                    n == s.len(),
                    s == self.elements@,
                    j <= n,
                    i < n,
                    elem == s[i as int],
                    conj_elem.re == elem.re && conj_elem.im == -elem.im,
                    found <==> exists|q: int| 0 <= q < j && #[trigger] conj_at(s, i as int, q),
                decreases n - j,
            {
                let e = self.elements[j];
                if e.row == elem.col && e.col == elem.row && e.re == conj_elem.re && e.im == conj_elem.im {
                    assert(conj_at(s, i as int, j as int));
                    found = true;
                }
                j += 1;
            }
            if !found {
                assert(!has_conj(s, i as int));
                return false;
            }
            assert(has_conj(s, i as int));
            i += 1;
        }
        true
    }
}


impl<const MAX_ELEM: usize> SparseMatrix<MAX_ELEM> {
    /// Matrix-vector product `y = A * x`: the first `dimension` outputs are
    /// cleared, then each entry adds its product into its row (saturating).
    /// Returns the number of contributions (the number of entries).
    pub fn matvec(&self, x: &[Complex], y: &mut [Complex]) -> (r: usize)
        requires
            x@.len() >= self.dimension,
            old(y)@.len() >= self.dimension,
            matvec_ok(self.elements@, x@, old(y)@.len() as int),
        ensures
            r == self.elements@.len(),
            final(y)@ == matvec_fold(
                zero_prefix(old(y)@, self.dimension as int),
                self.elements@,
                x@,
            ),
    {
        let dim = self.dimension as usize;
        let mut k: usize = 0;
        while k < dim
            invariant
                dim == self.dimension,
                dim <= y@.len(),
                y@.len() == old(y)@.len(),
                k <= dim,
                forall|q: int| 0 <= q < y@.len() ==> #[trigger] y@[q] == (if q < k {
                    Complex { re: 0, im: 0 }
                } else {
                    old(y)@[q]
                }),
            decreases dim - k,
        {
            y[k] = Complex::default();
            k += 1;
        }
        assert(y@ == zero_prefix(old(y)@, self.dimension as int));
        let ghost y0 = y@;
        let n = self.elements.len();
        let mut nnz: usize = 0;
        let mut i: usize = 0;
        while i < n
            invariant
                n == self.elements@.len(),
                i <= n,
                nnz == i,
                y@.len() == old(y)@.len(),
                matvec_ok(self.elements@, x@, old(y)@.len() as int),
                y@ == matvec_fold(y0, self.elements@.take(i as int), x@),
            decreases n - i,
        {
            assert(self.elements@.take(i + 1).drop_last() == self.elements@.take(i as int));
            let elem = self.elements[i];
            let row = elem.row as usize;
            let col = elem.col as usize;
            let a = elem.to_complex();
            let xj = x[col];
            let product = a.mul(&xj);
            let cur = y[row];
            y[row] = cur.add(&product);
            nnz += 1;
            i += 1;
        }
        assert(self.elements@.take(n as int) == self.elements@);
        nnz
    }

    /// Dense row-major copy of the matrix (at most 64x64).
    pub fn to_dense(&self) -> (r: Vec<Complex>)
        requires
            self.dimension * self.dimension <= 4096,
        ensures
            r@ == dense_fold(
                Seq::new(
                    (self.dimension * self.dimension) as nat,
                    |k: int| Complex { re: 0, im: 0 },
                ),
                self.elements@,
                self.dimension as int,
            ),
    {
        let size = self.dimension as usize;
        let total = size * size;
        let mut dense: Vec<Complex> = Vec::new();
        let mut k: usize = 0;
        while k < total
            invariant
                k <= total,
                dense@ == Seq::new(k as nat, |q: int| Complex { re: 0, im: 0 }),
            decreases total - k,
        {
            dense.push(Complex::default());
            k += 1;
        }
        let ghost d0 = dense@;
        assert(d0 == Seq::new(
            (self.dimension * self.dimension) as nat,
            |k: int| Complex { re: 0, im: 0 },
        ));
        let n = self.elements.len();
        let mut i: usize = 0;
        while i < n
            invariant
                n == self.elements@.len(),
                i <= n,
                size == self.dimension,
                size * size <= 4096,
                dense@ == dense_fold(d0, self.elements@.take(i as int), size as int),
            decreases n - i,
        {
            assert(self.elements@.take(i + 1).drop_last() == self.elements@.take(i as int));
            let elem = self.elements[i];
            assert(size <= 64) by (nonlinear_arith)
                requires
                    size * size <= 4096,
            ;
            assert((elem.row as usize) * size <= 65535 * 64) by (nonlinear_arith)
                requires
                    size <= 64,
                    elem.row <= 65535,
            ;
            let idx = (elem.row as usize) * size + (elem.col as usize);
            if idx < dense.len() {
                dense[idx] = elem.to_complex();
            }
            i += 1;
        }
        assert(self.elements@.take(n as int) == self.elements@);
        dense
    }
}


/// An entry with its row and column exchanged.
pub open spec fn swap_elem(e: SparseElement) -> SparseElement {
    SparseElement { row: e.col, col: e.row, re: e.re, im: e.im }
}

proof fn lemma_transpose_fold_wf(v: SparseView, s: Seq<SparseElement>, cap: nat)
    requires
        wf_view(SparseView { elements: s, ..v }, cap),
    ensures
        transpose_fold(empty_view(v.dimension), s, cap) == (SparseView {
            dimension: v.dimension,
            elements: s.map_values(|e: SparseElement| swap_elem(e)),
            sorted: s.len() == 0,
        }),
    decreases s.len(),
{
    let sw = |e: SparseElement| swap_elem(e);
    if s.len() == 0 {
        assert(s.map_values(sw) =~= Seq::<SparseElement>::empty());
    } else {
        let dl = s.drop_last();
        assert(wf_view(SparseView { elements: dl, ..v }, cap)) by {
            assert forall|i: int, j: int| 0 <= i < j < dl.len() implies !at_key(
                #[trigger] dl[i],
                #[trigger] dl[j].row,
                dl[j].col,
            ) by {
                assert(dl[i] == s[i] && dl[j] == s[j]);
            }
        }
        lemma_transpose_fold_wf(v, dl, cap);
        let prev = transpose_fold(empty_view(v.dimension), dl, cap);
        let e = s.last();
        let pe = dl.map_values(sw);
        assert(prev.elements == pe);
        assert forall|j: int| 0 <= j < pe.len() implies !at_key(#[trigger] pe[j], e.col, e.row) by {
            assert(pe[j] == swap_elem(dl[j]));
            assert(dl[j] == s[j]);
            assert(!at_key(s[j], s[s.len() - 1].row, s[s.len() - 1].col));
        }
        lemma_find_key_unique(pe, e.col, e.row, -1);
        assert(s[s.len() - 1].row < v.dimension && s[s.len() - 1].col < v.dimension);
        assert(pe.push(swap_elem(e)) =~= s.map_values(sw));
    }
}

/// Transposing a well-formed matrix twice gives it back unchanged.
pub proof fn law_transpose_involution(v: SparseView, cap: nat)
    requires
        wf_view(v, cap),
    ensures
        transpose_view(transpose_view(v, cap), cap) == v,
{
    let sw = |e: SparseElement| swap_elem(e);
    lemma_transpose_fold_wf(v, v.elements, cap);
    let t = transpose_view(v, cap);
    let ts = v.elements.map_values(sw);
    assert(t.elements == ts);
    assert(wf_view(t, cap)) by {
        assert forall|i: int, j: int| 0 <= i < j < ts.len() implies !at_key(
            #[trigger] ts[i],
            #[trigger] ts[j].row,
            ts[j].col,
        ) by {
            assert(!at_key(v.elements[i], v.elements[j].row, v.elements[j].col));
        }
        assert forall|i: int| 0 <= i < ts.len() implies (#[trigger] ts[i]).row < t.dimension
            && ts[i].col < t.dimension by {
            assert(v.elements[i].row < v.dimension);
        }
    }
    lemma_transpose_fold_wf(t, ts, cap);
    assert(ts.map_values(sw) =~= v.elements);
}

} // verus!
