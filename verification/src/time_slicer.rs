//! Time-slicing memory: relational-state snapshots `W(t)` in sparse form,
//! their byte serialization, and the 1000 time banks kept in PSRAM.

use vstd::prelude::*;
use crate::fixed::{Complex, Fixed, fixed_mul, fixed_mul_spec, saturate_i32, sat_add_i32, sat_add_i64};
use crate::sparse::{element_norm_sqr, saturate_i64};
use crate::spi::{
    Psram, PsramView, le32, le32_bytes, psram_bytes, psram_range_ok, psram_written, psram_enable,
    psram_read, psram_reset, psram_write, u32_le_bytes, join_le32,
};

verus! {

/// Number of time-step banks.
pub const NUM_TIME_BANKS: usize = 1000;

/// Time bank index type (0-999).
pub type TimeBankIndex = u16;

/// Matrix entries kept in local SRAM per bank.
pub const LOCAL_MATRIX_ELEMENTS: usize = 65536;

/// One entry of the relational state matrix.
#[derive(Debug, Clone, Copy, PartialEq, Eq, Structural)]
pub struct WElement {
    /// Real component (fixed-point)
    pub re: Fixed,
    /// Imaginary component (fixed-point)
    pub im: Fixed,
}

impl Default for WElement {
    fn default() -> (r: Self)
        ensures
            r == (WElement { re: 0, im: 0 }),
    {
        WElement { re: 0, im: 0 }
    }
}

impl WElement {
    pub fn new(re: Fixed, im: Fixed) -> (r: Self)
        ensures
            r == (WElement { re, im }),
    {
        WElement { re, im }
    }

    pub fn to_complex(&self) -> (r: Complex)
        ensures
            r == (Complex { re: self.re, im: self.im }),
    {
        Complex::new(self.re, self.im)
    }

    pub fn from_complex(c: &Complex) -> (r: Self)
        ensures
            r == (WElement { re: c.re, im: c.im }),
    {
        WElement { re: c.re, im: c.im }
    }

    /// Squared magnitude (each square shifted down 16 bits and truncated, the
    /// sum saturating).
    pub fn norm_sqr(&self) -> (r: Fixed)
        ensures
            r == element_norm_sqr(self.re, self.im),
    {
        sat_add_i32(fixed_mul(self.re, self.re), fixed_mul(self.im, self.im))
    }

    /// Saturating addition.
    pub fn add(&self, other: &Self) -> (r: Self)
        ensures
            r == (WElement {
                re: saturate_i32(self.re + other.re),
                im: saturate_i32(self.im + other.im),
            }),
    {
        WElement { re: sat_add_i32(self.re, other.re), im: sat_add_i32(self.im, other.im) }
    }

    /// Multiply both parts by a fixed-point factor.
    pub fn scale(&self, factor: Fixed) -> (r: Self)
        ensures
            r == (WElement { re: fixed_mul_spec(self.re, factor), im: fixed_mul_spec(self.im, factor) }),
    {
        WElement { re: fixed_mul(self.re, factor), im: fixed_mul(self.im, factor) }
    }
}

/// A stored entry: row, column and value.
pub type WEntry = (u16, u16, WElement);

/// The abstract state of a `SparseWMatrix`.
pub ghost struct WView {
    pub dimension: u16,
    pub elements: Seq<WEntry>,
}

pub open spec fn w_at_key(e: WEntry, row: u16, col: u16) -> bool {
    e.0 == row && e.1 == col
}

/// Index of the first entry at or after `i` under `(row, col)`, or -1.
pub open spec fn w_find_from(s: Seq<WEntry>, row: u16, col: u16, i: int) -> int
    decreases s.len() - i,
{
    if i < 0 || i >= s.len() {
        -1
    } else if w_at_key(s[i], row, col) {
        i
    } else {
        w_find_from(s, row, col, i + 1)
    }
}

pub open spec fn w_find(s: Seq<WEntry>, row: u16, col: u16) -> int {
    w_find_from(s, row, col, 0)
}

proof fn lemma_w_find_from_props(s: Seq<WEntry>, row: u16, col: u16, i: int)
    requires
        0 <= i,
    ensures
        w_find_from(s, row, col, i) == -1 || (i <= w_find_from(s, row, col, i) < s.len() && w_at_key(
            s[w_find_from(s, row, col, i)],
            row,
            col,
        )),
        forall|j: int|
            i <= j < s.len() && (w_find_from(s, row, col, i) == -1 || j < w_find_from(s, row, col, i))
                ==> !w_at_key(#[trigger] s[j], row, col),
    decreases s.len() - i,
{
    if i < s.len() && !w_at_key(s[i], row, col) {
        lemma_w_find_from_props(s, row, col, i + 1);
    }
}

pub proof fn lemma_w_find_unique(s: Seq<WEntry>, row: u16, col: u16, k: int)
    requires
        -1 <= k < s.len(),
        k >= 0 ==> w_at_key(s[k], row, col),
        forall|j: int| 0 <= j < s.len() && (k == -1 || j < k) ==> !w_at_key(#[trigger] s[j], row, col),
    ensures
        w_find(s, row, col) == k,
{
    lemma_w_find_from_props(s, row, col, 0);
    let f = w_find(s, row, col);
    if f != k {
        if f == -1 {
            assert(!w_at_key(s[k], row, col));
        } else if k == -1 {
            assert(!w_at_key(s[f], row, col));
        } else if f < k {
            assert(!w_at_key(s[f], row, col));
        } else {
            assert(!w_at_key(s[k], row, col));
        }
    }
}

/// The value read at `(row, col)`: the first stored entry under the key, or
/// zero.
pub open spec fn w_get_spec(v: WView, row: u16, col: u16) -> WElement {
    if row >= v.dimension || col >= v.dimension || w_find(v.elements, row, col) < 0 {
        WElement { re: 0, im: 0 }
    } else {
        v.elements[w_find(v.elements, row, col)].2
    }
}

/// The matrix after storing `value` under `(row, col)`, or `None` when the key
/// is outside the dimension or a new entry would exceed `cap`.
pub open spec fn w_set_spec(v: WView, cap: nat, row: u16, col: u16, value: WElement) -> Option<WView> {
    if row >= v.dimension || col >= v.dimension {
        None
    } else if w_find(v.elements, row, col) >= 0 {
        Some(WView { elements: v.elements.update(w_find(v.elements, row, col), (row, col, value)), ..v })
    } else if v.elements.len() < cap {
        Some(WView { elements: v.elements.push((row, col, value)), ..v })
    } else {
        None
    }
}

/// A well-formed state matrix: at most `cap` entries, keys inside the
/// dimension, no key stored twice.
pub open spec fn w_wf(v: WView, cap: nat) -> bool {
    &&& v.elements.len() <= cap
    &&& forall|i: int|
        0 <= i < v.elements.len() ==> (#[trigger] v.elements[i]).0 < v.dimension && v.elements[i].1
            < v.dimension
    &&& forall|i: int, j: int|
        0 <= i < j < v.elements.len() ==> !w_at_key(
            #[trigger] v.elements[i],
            #[trigger] v.elements[j].0,
            v.elements[j].1,
        )
}

/// The Frobenius norm squared of the stored entries, added in order with
/// saturation.
pub open spec fn w_frobenius(s: Seq<WEntry>) -> i64
    decreases s.len(),
{
    if s.len() == 0 {
        0
    } else {
        saturate_i64(w_frobenius(s.drop_last()) + element_norm_sqr(s.last().2.re, s.last().2.im))
    }
}

// ---------------------------------------------------------------------------
// Byte format

/// Little-endian bytes of a `u16`.
pub open spec fn le16_bytes(x: u16) -> Seq<u8> {
    seq![(x % 256) as u8, (x / 256) as u8]
}

/// The two's-complement bits of an `i32`.
pub open spec fn i32_bits(x: i32) -> u32 {
    #[verifier::truncate] (x as u32)
}

/// The twelve bytes of one stored entry: row, column, real part, imaginary
/// part, each little-endian.
pub open spec fn ser_record(e: WEntry) -> Seq<u8> {
    le16_bytes(e.0) + le16_bytes(e.1) + le32_bytes(i32_bits(e.2.re)) + le32_bytes(i32_bits(e.2.im))
}

/// The records of the entries, in order.
pub open spec fn ser_records(s: Seq<WEntry>) -> Seq<u8>
    decreases s.len(),
{
    if s.len() == 0 {
        Seq::empty()
    } else {
        ser_records(s.drop_last()) + ser_record(s.last())
    }
}

/// The serialized matrix: the dimension (`u16`), the entry count (as `u32`),
/// then one record per entry.
pub open spec fn serialize_spec(v: WView) -> Seq<u8> {
    le16_bytes(v.dimension) + le32_bytes(#[verifier::truncate] (v.elements.len() as u32))
        + ser_records(v.elements)
}

pub open spec fn rd16(d: Seq<u8>, off: int) -> u16 {
    (d[off] + 256 * d[off + 1]) as u16
}

pub open spec fn rd32(d: Seq<u8>, off: int) -> u32 {
    le32(d[off], d[off + 1], d[off + 2], d[off + 3])
}

pub open spec fn rdi32(d: Seq<u8>, off: int) -> i32 {
    #[verifier::truncate] (rd32(d, off) as i32)
}

/// Parse records `k..count` of `d` into `acc`; `None` when a record runs past
/// the end of the data or its entry cannot be stored.
pub open spec fn parse_from(d: Seq<u8>, acc: WView, cap: nat, k: nat, count: nat) -> Option<WView>
    decreases count - k,
{
    if k >= count {
        Some(acc)
    } else {
        let off: int = 6 + 12 * (k as int);
        if off + 12 > d.len() {
            None
        } else {
            match w_set_spec(
                acc,
                cap,
                rd16(d, off),
                rd16(d, off + 2),
                WElement { re: rdi32(d, off + 4), im: rdi32(d, off + 8) },
            ) {
                Some(a) => parse_from(d, a, cap, k + 1, count),
                None => None,
            }
        }
    }
}

/// The matrix that a byte string decodes to, or `None`.
pub open spec fn deserialize_spec(d: Seq<u8>, cap: nat) -> Option<WView> {
    if d.len() < 6 {
        None
    } else {
        parse_from(d, WView { dimension: rd16(d, 0), elements: Seq::empty() }, cap, 0, rd32(d, 2) as nat)
    }
}

fn push_u16(out: &mut Vec<u8>, x: u16)
    ensures
        final(out)@ == old(out)@ + le16_bytes(x),
{
    let lo = (x & 0xff) as u8;
    let hi = (x >> 8u16) as u8;
    assert(x & 0xff == x % 256) by (bit_vector);
    assert(x >> 8u16 == x / 256) by (bit_vector);
    out.push(lo);
    out.push(hi);
    assert(out@ =~= old(out)@ + le16_bytes(x));
}

fn push_u32(out: &mut Vec<u8>, x: u32)
    ensures
        final(out)@ == old(out)@ + le32_bytes(x),
{
    let b = u32_le_bytes(x);
    out.push(b[0]);
    out.push(b[1]);
    out.push(b[2]);
    out.push(b[3]);
    assert(out@ =~= old(out)@ + le32_bytes(x));
}

fn read_u16(data: &[u8], off: usize) -> (r: u16)
    requires
        off + 2 <= data@.len(),
    ensures
        r == rd16(data@, off as int),
{
    let lo = data[off];
    let hi = data[off + 1];
    let r = (lo as u16) | ((hi as u16) << 8u16);
    assert((lo as u16) | ((hi as u16) << 8u16) == lo + 256 * hi) by (bit_vector);
    r
}

fn read_u32(data: &[u8], off: usize) -> (r: u32)
    requires
        off + 4 <= data@.len(),
    ensures
        r == rd32(data@, off as int),
{
    join_le32(data[off], data[off + 1], data[off + 2], data[off + 3])
}

fn read_i32(data: &[u8], off: usize) -> (r: i32)
    requires
        off + 4 <= data@.len(),
    ensures
        r == rdi32(data@, off as int),
{
    let u = read_u32(data, off);
    #[verifier::truncate]
    (u as i32)
}

/// Sparse relational-state matrix holding at most `MAX_ELEMENTS` entries.
#[derive(Debug, Clone)]
pub struct SparseWMatrix<const MAX_ELEMENTS: usize> {
    /// Number of rows/columns
    pub dimension: u16,
    /// Stored entries as (row, col, value)
    pub elements: Vec<(u16, u16, WElement)>,
}

impl<const MAX_ELEMENTS: usize> View for SparseWMatrix<MAX_ELEMENTS> {
    type V = WView;

    open spec fn view(&self) -> WView {
        WView { dimension: self.dimension, elements: self.elements@ }
    }
}

impl<const MAX_ELEMENTS: usize> SparseWMatrix<MAX_ELEMENTS> {
    /// Create an empty matrix.
    pub fn new(dimension: u16) -> (r: Self)
        ensures
            r@ == (WView { dimension, elements: Seq::empty() }),
    {
        SparseWMatrix { dimension, elements: Vec::new() }
    }

    /// Insert or update an entry.
    pub fn set(&mut self, row: u16, col: u16, value: WElement) -> (r: Result<(), ()>)
        ensures
            r is Ok <==> w_set_spec(old(self)@, MAX_ELEMENTS as nat, row, col, value) is Some,
            r is Ok ==> final(self)@ == w_set_spec(old(self)@, MAX_ELEMENTS as nat, row, col, value).unwrap(),
            r is Err ==> final(self)@ == old(self)@,
    {
        if row >= self.dimension || col >= self.dimension {
            return Err(());
        }
        let n = self.elements.len();
        let mut i: usize = 0;
        while i < n
            invariant
                n == self.elements@.len(),
                i <= n,
                self@ == old(self)@,
                row < self.dimension && col < self.dimension,
                forall|j: int| 0 <= j < i ==> !w_at_key(#[trigger] self.elements@[j], row, col),
            decreases n - i,
        {
            if self.elements[i].0 == row && self.elements[i].1 == col {
                proof {
                    lemma_w_find_unique(self.elements@, row, col, i as int);
                }
                self.elements[i] = (row, col, value);
                return Ok(());
            }
            i += 1;
        }
        proof {
            lemma_w_find_unique(self.elements@, row, col, -1);
        }
        if self.elements.len() < MAX_ELEMENTS {
            self.elements.push((row, col, value));
            Ok(())
        } else {
            Err(())
        }
    }

    /// Read an entry; zero when it is not stored or outside the dimension.
    pub fn get(&self, row: u16, col: u16) -> (r: WElement)
        ensures
            r == w_get_spec(self@, row, col),
    {
        if row >= self.dimension || col >= self.dimension {
            return WElement::default();
        }
        let n = self.elements.len();
        let mut i: usize = 0;
        while i < n
            invariant
                n == self.elements@.len(),
                i <= n,
                row < self.dimension && col < self.dimension,
                forall|j: int| 0 <= j < i ==> !w_at_key(#[trigger] self.elements@[j], row, col),
            decreases n - i,
        {
            if self.elements[i].0 == row && self.elements[i].1 == col {
                proof {
                    lemma_w_find_unique(self.elements@, row, col, i as int);
                }
                return self.elements[i].2;
            }
            i += 1;
        }
        proof {
            lemma_w_find_unique(self.elements@, row, col, -1);
        }
        WElement::default()
    }

    /// Serialize into the little-endian byte format; fails only when the
    /// length does not fit in `usize`.
    pub fn serialize(&self) -> (r: Result<Vec<u8>, ()>)
        ensures
            r is Ok <==> 6 + 12 * self.elements@.len() <= usize::MAX,
            r matches Ok(d) ==> d@ == serialize_spec(self@),
    {
        let n = self.elements.len();
        if n > (usize::MAX - 6) / 12 {
            return Err(());
        }
        let mut out: Vec<u8> = Vec::new();
        push_u16(&mut out, self.dimension);
        let count: u32 = #[verifier::truncate] (n as u32);
        push_u32(&mut out, count);
        let ghost header = out@;
        let mut i: usize = 0;
        while i < n
            invariant
                n == self.elements@.len(),
                i <= n,
                out@ == header + ser_records(self.elements@.take(i as int)),
            decreases n - i,
        {
            assert(self.elements@.take(i + 1).drop_last() == self.elements@.take(i as int));
            let (row, col, value) = self.elements[i];
            push_u16(&mut out, row);
            push_u16(&mut out, col);
            push_u32(&mut out, #[verifier::truncate] (value.re as u32));
            push_u32(&mut out, #[verifier::truncate] (value.im as u32));
            assert(out@ =~= header + ser_records(self.elements@.take(i + 1)));
            i += 1;
        }
        assert(self.elements@.take(n as int) == self.elements@);
        Ok(out)
    }

    /// Decode a matrix from bytes produced by `serialize` (trailing bytes are
    /// ignored).
    pub fn deserialize(data: &[u8]) -> (r: Result<Self, ()>)
        ensures
            r is Ok <==> deserialize_spec(data@, MAX_ELEMENTS as nat) is Some,
            r matches Ok(m) ==> m@ == deserialize_spec(data@, MAX_ELEMENTS as nat).unwrap(),
    {
        let len = data.len();
        if len < 6 {
            return Err(());
        }
        let dimension = read_u16(data, 0);
        let count = read_u32(data, 2) as usize;
        let mut matrix = Self::new(dimension);
        let ghost acc0 = matrix@;
        assert(deserialize_spec(data@, MAX_ELEMENTS as nat) == parse_from(
            data@,
            acc0,
            MAX_ELEMENTS as nat,
            0,
            count as nat,
        ));
        let mut k: usize = 0;
        let mut offset: usize = 6;
        while k < count
            invariant
                len == data@.len(),
                count == rd32(data@, 2),
                k <= count,
                offset == 6 + 12 * k,
                offset <= len,
                deserialize_spec(data@, MAX_ELEMENTS as nat) == parse_from(
                    data@,
                    acc0,
                    MAX_ELEMENTS as nat,
                    0,
                    count as nat,
                ),
                parse_from(data@, acc0, MAX_ELEMENTS as nat, 0, count as nat) == parse_from(
                    data@,
                    matrix@,
                    MAX_ELEMENTS as nat,
                    k as nat,
                    count as nat,
                ),
            decreases count - k,
        {
            if len - offset < 12 {
                assert(parse_from(data@, matrix@, MAX_ELEMENTS as nat, k as nat, count as nat) is None);
                return Err(());
            }
            let row = read_u16(data, offset);
            let col = read_u16(data, offset + 2);
            let re = read_i32(data, offset + 4);
            let im = read_i32(data, offset + 8);
            let ghost before = matrix@;
            let r = matrix.set(row, col, WElement::new(re, im));
            if r.is_err() {
                assert(parse_from(data@, before, MAX_ELEMENTS as nat, k as nat, count as nat) is None);
                return Err(());
            }
            assert(parse_from(data@, before, MAX_ELEMENTS as nat, k as nat, count as nat) == parse_from(
                data@,
                matrix@,
                MAX_ELEMENTS as nat,
                (k + 1) as nat,
                count as nat,
            ));
            offset = offset + 12;
            k += 1;
        }
        Ok(matrix)
    }

    /// Frobenius norm squared of the stored entries.
    pub fn frobenius_norm_sqr(&self) -> (r: i64)
        ensures
            r == w_frobenius(self.elements@),
    {
        let n = self.elements.len();
        let mut sum: i64 = 0;
        let mut i: usize = 0;
        while i < n
            invariant
                n == self.elements@.len(),
                i <= n,
                sum == w_frobenius(self.elements@.take(i as int)),
            decreases n - i,
        {
            assert(self.elements@.take(i + 1).drop_last() == self.elements@.take(i as int));
            let norm_sq = self.elements[i].2.norm_sqr() as i64;
            sum = sat_add_i64(sum, norm_sq);
            i += 1;
        }
        assert(self.elements@.take(n as int) == self.elements@);
        sum
    }

    /// Remove every entry.
    pub fn clear(&mut self)
        ensures
            final(self)@ == (WView { dimension: old(self).dimension, elements: Seq::empty() }),
    {
        self.elements.clear();
    }

    /// Number of stored entries.
    pub fn len(&self) -> (r: usize)
        ensures
            r == self.elements@.len(),
    {
        self.elements.len()
    }

    /// Whether no entry is stored.
    pub fn is_empty(&self) -> (r: bool)
        ensures
            r == (self.elements@.len() == 0),
    {
        self.elements.len() == 0
    }
}


proof fn lemma_le32_decode(u: u32)
    ensures
        le32(le32_bytes(u)[0], le32_bytes(u)[1], le32_bytes(u)[2], le32_bytes(u)[3]) == u,
{
    assert((u % 256) + 256 * ((u / 256) % 256) + 65536 * ((u / 65536) % 256) + 16777216 * (u
        / 16777216) == u) by (nonlinear_arith);
}

proof fn lemma_i32_bits_round_trip(x: i32)
    ensures
        #[verifier::truncate] (i32_bits(x) as i32) == x,
{
    assert((#[verifier::truncate] ((#[verifier::truncate] (x as u32)) as i32)) == x) by (bit_vector);
}

proof fn lemma_ser_records_len(s: Seq<WEntry>)
    ensures
        ser_records(s).len() == 12 * s.len(),
    decreases s.len(),
{
    if s.len() > 0 {
        lemma_ser_records_len(s.drop_last());
    }
}

proof fn lemma_ser_records_at(s: Seq<WEntry>, k: int)
    requires
        0 <= k < s.len(),
    ensures
        ser_records(s).subrange(12 * k, 12 * k + 12) == ser_record(s[k]),
    decreases s.len(),
{
    let dl = s.drop_last();
    lemma_ser_records_len(dl);
    let a = ser_records(dl);
    let b = ser_record(s.last());
    assert(ser_records(s) == a + b);
    if k < s.len() - 1 {
        lemma_ser_records_at(dl, k);
        assert(dl[k] == s[k]);
        assert((a + b).subrange(12 * k, 12 * k + 12) =~= a.subrange(12 * k, 12 * k + 12));
    } else {
        assert((a + b).subrange(12 * k, 12 * k + 12) =~= b);
    }
}

proof fn lemma_parse_serialized(v: WView, cap: nat, d: Seq<u8>, k: nat)
    requires
        w_wf(v, cap),
        v.elements.len() <= u32::MAX,
        k <= v.elements.len(),
        d.len() >= 6 + 12 * v.elements.len(),
        d.subrange(6, 6 + 12 * (v.elements.len() as int)) == ser_records(v.elements),
    ensures
        parse_from(
            d,
            WView { dimension: v.dimension, elements: v.elements.take(k as int) },
            cap,
            k,
            v.elements.len(),
        ) == Some(v),
    decreases v.elements.len() - k,
{
    let s = v.elements;
    let n = s.len();
    if k == n {
        assert(s.take(k as int) =~= s);
    } else {
        let off: int = 6 + 12 * (k as int);
        let e = s[k as int];
        lemma_ser_records_at(s, k as int);
        lemma_ser_records_len(s);
        let rec = ser_record(e);
        assert forall|j: int| 0 <= j < 12 implies d[off + j] == #[trigger] rec[j] by {
            assert(d.subrange(6, 6 + 12 * (n as int))[12 * k + j] == d[off + j]);
            assert(ser_records(s).subrange(12 * (k as int), 12 * (k as int) + 12)[j] == ser_records(s)[12 * (k as int) + j]);
        }
        assert(rec[0] == (e.0 % 256) as u8 && rec[1] == (e.0 / 256) as u8);
        assert(rec[2] == (e.1 % 256) as u8 && rec[3] == (e.1 / 256) as u8);
        assert(d[off] == rec[0] && d[off + 1] == rec[1] && d[off + 2] == rec[2] && d[off + 3] == rec[3]);
        assert(rd16(d, off) == e.0);
        assert(rd16(d, off + 2) == e.1);
        assert(d[off + 4] == rec[4] && d[off + 5] == rec[5] && d[off + 6] == rec[6] && d[off + 7] == rec[7]);
        assert(d[off + 8] == rec[8] && d[off + 9] == rec[9] && d[off + 10] == rec[10] && d[off + 11] == rec[11]);
        assert(rec.subrange(4, 8) =~= le32_bytes(i32_bits(e.2.re)));
        assert(rec.subrange(8, 12) =~= le32_bytes(i32_bits(e.2.im)));
        lemma_le32_decode(i32_bits(e.2.re));
        lemma_le32_decode(i32_bits(e.2.im));
        lemma_i32_bits_round_trip(e.2.re);
        lemma_i32_bits_round_trip(e.2.im);
        assert(rd32(d, off + 4) == i32_bits(e.2.re));
        assert(rd32(d, off + 8) == i32_bits(e.2.im));
        let acc = WView { dimension: v.dimension, elements: s.take(k as int) };
        assert forall|j: int| 0 <= j < acc.elements.len() implies !w_at_key(
            #[trigger] acc.elements[j],
            e.0,
            e.1,
        ) by {
            assert(acc.elements[j] == s[j]);
        }
        lemma_w_find_unique(acc.elements, e.0, e.1, -1);
        assert(acc.elements.push((e.0, e.1, WElement { re: e.2.re, im: e.2.im })) =~= s.take(k as int + 1));
        lemma_parse_serialized(v, cap, d, k + 1);
    }
}

/// Decoding a serialized well-formed matrix gives it back, whatever bytes
/// follow the serialization (a bank read returns the whole bank).
pub proof fn law_serialize_round_trip(v: WView, cap: nat, extra: Seq<u8>)
    requires
        w_wf(v, cap),
        v.elements.len() <= u32::MAX,
    ensures
        deserialize_spec(serialize_spec(v) + extra, cap) == Some(v),
{
    let n = v.elements.len();
    let d = serialize_spec(v) + extra;
    lemma_ser_records_len(v.elements);
    let cnt: u32 = #[verifier::truncate] (n as u32);
    assert(cnt == n);
    lemma_le32_decode(cnt);
    assert(rd16(d, 0) == v.dimension);
    assert(rd32(d, 2) == cnt);
    assert(d.subrange(6, 6 + 12 * (n as int)) =~= ser_records(v.elements));
    lemma_parse_serialized(v, cap, d, 0);
    assert(v.elements.take(0) =~= Seq::<WEntry>::empty());
}


/// A cut-short copy of bytes whose parse succeeds, ending before the last
/// record, fails to parse.
proof fn lemma_parse_prefix(d: Seq<u8>, kk: int, acc: WView, cap: nat, j: nat, count: nat)
    requires
        6 <= kk <= d.len(),
        j < count,
        6 + 12 * (j as int) <= kk,
        kk < 6 + 12 * (count as int),
        parse_from(d, acc, cap, j, count) is Some,
    ensures
        parse_from(d.take(kk), acc, cap, j, count) is None,
    decreases count - j,
{
    let dp = d.take(kk);
    let off: int = 6 + 12 * (j as int);
    if off + 12 <= kk {
        assert forall|i: int| 0 <= i < 12 implies #[trigger] dp[off + i] == d[off + i] by {}
        assert(rd16(dp, off) == rd16(d, off));
        assert(rd16(dp, off + 2) == rd16(d, off + 2));
        assert(rd32(dp, off + 4) == rd32(d, off + 4));
        assert(rd32(dp, off + 8) == rd32(d, off + 8));
        let e = WElement { re: rdi32(d, off + 4), im: rdi32(d, off + 8) };
        let a = w_set_spec(acc, cap, rd16(d, off), rd16(d, off + 2), e).unwrap();
        lemma_parse_prefix(d, kk, a, cap, j + 1, count);
    }
}

/// Every proper prefix of a serialized matrix is rejected.
pub proof fn law_deserialize_rejects_prefixes(v: WView, cap: nat, k: int)
    requires
        w_wf(v, cap),
        v.elements.len() <= u32::MAX,
        0 <= k < serialize_spec(v).len(),
    ensures
        deserialize_spec(serialize_spec(v).take(k), cap) is None,
{
    let d = serialize_spec(v);
    law_serialize_round_trip(v, cap, Seq::empty());
    assert(d + Seq::<u8>::empty() =~= d);
    lemma_ser_records_len(v.elements);
    let n = v.elements.len();
    let cnt: u32 = #[verifier::truncate] (n as u32);
    assert(cnt == n);
    lemma_le32_decode(cnt);
    assert(rd32(d, 2) == cnt);
    if k >= 6 {
        let dp = d.take(k);
        assert(dp[0] == d[0] && dp[1] == d[1] && dp[2] == d[2] && dp[3] == d[3] && dp[4] == d[4] && dp[5]
            == d[5]);
        assert(rd16(dp, 0) == rd16(d, 0));
        assert(rd32(dp, 2) == rd32(d, 2));
        let acc0 = WView { dimension: rd16(d, 0), elements: Seq::empty() };
        lemma_parse_prefix(d, k, acc0, cap, 0, n);
    }
}

/// The abstract state of a time slicer.
pub ghost struct TimeSlicerView {
    pub current_time: u16,
    pub current_w: WView,
    pub psram_base: u32,
    pub bank_capacity: u32,
    pub psram: PsramView,
}

/// The PSRAM address of a time bank.
pub open spec fn bank_address(bank: u16, capacity: u32) -> int {
    bank * capacity
}

/// Saving the current matrix to a bank: the new state and whether it
/// succeeded. A bank outside 0..1000, a serialization longer than the bank,
/// or a PSRAM range error fails and changes nothing.
pub open spec fn save_spec(t: TimeSlicerView, bank: u16) -> (TimeSlicerView, bool) {
    let data = serialize_spec(t.current_w);
    let addr = bank_address(bank, t.bank_capacity);
    if bank >= NUM_TIME_BANKS {
        (t, false)
    } else if data.len() > t.bank_capacity {
        (t, false)
    } else if !psram_range_ok(addr as u32, data.len() as int) {
        (t, false)
    } else {
        (
            TimeSlicerView {
                psram: PsramView { enabled: true, memory: psram_written(t.psram.memory, addr as u32, data) },
                ..t
            },
            true,
        )
    }
}

/// Loading a bank into the current matrix: the whole bank is read and
/// decoded. A successful read enables the PSRAM even when decoding fails.
pub open spec fn load_spec(t: TimeSlicerView, bank: u16, cap: nat) -> (TimeSlicerView, bool) {
    let addr = bank_address(bank, t.bank_capacity);
    if bank >= NUM_TIME_BANKS {
        (t, false)
    } else if !psram_range_ok(addr as u32, t.bank_capacity as int) {
        (t, false)
    } else {
        let t1 = TimeSlicerView { psram: PsramView { enabled: true, ..t.psram }, ..t };
        match deserialize_spec(psram_bytes(t.psram.memory, addr, t.bank_capacity as int), cap) {
            Some(w) => (TimeSlicerView { current_w: w, ..t1 }, true),
            None => (t1, false),
        }
    }
}

/// Step forward: save the current bank, advance the time (mod 1000) and
/// clear the current matrix.
pub open spec fn step_forward_spec(t: TimeSlicerView) -> (TimeSlicerView, bool) {
    let (t1, ok) = save_spec(t, t.current_time);
    if !ok {
        (t1, false)
    } else {
        (
            TimeSlicerView {
                current_time: ((t.current_time + 1) % 1000) as u16,
                current_w: WView { dimension: t.current_w.dimension, elements: Seq::empty() },
                ..t1
            },
            true,
        )
    }
}

/// The bank before `t` (999 before 0).
pub open spec fn prev_bank(t: u16) -> u16 {
    if t == 0 {
        999
    } else {
        (t - 1) as u16
    }
}

/// Step backward: save the current bank, move the time back one bank, and
/// load that bank. A failed load leaves the time moved back.
pub open spec fn step_backward_spec(t: TimeSlicerView, cap: nat) -> (TimeSlicerView, bool) {
    let (t1, ok) = save_spec(t, t.current_time);
    if !ok {
        (t1, false)
    } else {
        load_spec(TimeSlicerView { current_time: prev_bank(t.current_time), ..t1 }, prev_bank(t.current_time), cap)
    }
}

/// Jump: save the current bank, load the target bank, and on success make it
/// the current time.
pub open spec fn jump_spec(t: TimeSlicerView, bank: u16, cap: nat) -> (TimeSlicerView, bool) {
    let (t1, ok) = save_spec(t, t.current_time);
    if !ok {
        (t1, false)
    } else {
        let (t2, ok2) = load_spec(t1, bank, cap);
        if !ok2 {
            (t2, false)
        } else {
            (TimeSlicerView { current_time: bank, ..t2 }, true)
        }
    }
}

/// Time-slicing memory manager.
pub struct TimeSlicer<const MAX_ELEMENTS: usize> {
    current_time: TimeBankIndex,
    current_w: SparseWMatrix<MAX_ELEMENTS>,
    psram_base: u32,
    bank_capacity: u32,
    psram: Psram,
}

impl<const MAX_ELEMENTS: usize> View for TimeSlicer<MAX_ELEMENTS> {
    type V = TimeSlicerView;

    closed spec fn view(&self) -> TimeSlicerView {
        TimeSlicerView {
            current_time: self.current_time,
            current_w: self.current_w@,
            psram_base: self.psram_base,
            bank_capacity: self.bank_capacity,
            psram: self.psram@,
        }
    }
}

/// The bank-address arithmetic of a bank below 1000 does not overflow.
pub open spec fn bank_fits(bank: u16, capacity: u32) -> bool {
    bank < NUM_TIME_BANKS ==> bank * capacity <= u32::MAX
}

/// The current matrix serializes to a length that a PSRAM address can hold.
pub open spec fn w_serial_fits(w: WView) -> bool {
    6 + 12 * w.elements.len() <= u32::MAX
}

impl<const MAX_ELEMENTS: usize> TimeSlicer<MAX_ELEMENTS> {
    /// The time stays a valid bank index.
    pub open spec fn wf(&self) -> bool {
        self@.current_time < NUM_TIME_BANKS
    }

    /// Create a time slicer at time 0 with an empty 10,000-node matrix; its
    /// PSRAM is reset and enabled.
    pub fn new(psram_base: u32, bank_capacity: u32) -> (r: Self)
        ensures
            r.wf(),
            r@ == (TimeSlicerView {
                current_time: 0,
                current_w: WView { dimension: 10000, elements: Seq::empty() },
                psram_base,
                bank_capacity,
                psram: PsramView { enabled: true, memory: Map::empty() },
            }),
    {
        let mut psram = Psram::new();
        let _ = psram_reset(&mut psram);
        let _ = psram_enable(&mut psram);
        TimeSlicer { current_time: 0, current_w: SparseWMatrix::new(10000), psram_base, bank_capacity, psram }
    }

    /// The current time step.
    pub fn current_time(&self) -> (r: TimeBankIndex)
        ensures
            r == self@.current_time,
    {
        self.current_time
    }

    /// The current matrix.
    pub fn current_w(&self) -> (r: &SparseWMatrix<MAX_ELEMENTS>)
        ensures
            r@ == self@.current_w,
    {
        &self.current_w
    }

    /// The current matrix, for changes.
    pub fn current_w_mut(&mut self) -> (r: &mut SparseWMatrix<MAX_ELEMENTS>)
        ensures
            r@ == old(self)@.current_w,
            final(self)@ == (TimeSlicerView { current_w: final(r)@, ..old(self)@ }),
    {
        &mut self.current_w
    }

    /// Save the current matrix to a time bank.
    pub fn save_to_bank(&mut self, bank: TimeBankIndex) -> (r: Result<(), ()>)
        requires
            bank_fits(bank, old(self)@.bank_capacity),
            w_serial_fits(old(self)@.current_w),
        ensures
            (final(self)@, r is Ok) == save_spec(old(self)@, bank),
    {
        if bank as usize >= NUM_TIME_BANKS {
            return Err(());
        }
        let address = (bank as u32) * self.bank_capacity;
        let data = match self.current_w.serialize() {
            Ok(d) => d,
            Err(_) => {
                return Err(());
            },
        };
        proof {
            lemma_ser_records_len(self.current_w.elements@);
        }
        if data.len() as u32 > self.bank_capacity {
            return Err(());
        }
        match psram_write(&mut self.psram, address, data.as_slice()) {
            Ok(()) => Ok(()),
            Err(_) => Err(()),
        }
    }

    /// Load a time bank into the current matrix.
    pub fn load_from_bank(&mut self, bank: TimeBankIndex) -> (r: Result<(), ()>)
        requires
            bank_fits(bank, old(self)@.bank_capacity),
        ensures
            (final(self)@, r is Ok) == load_spec(old(self)@, bank, MAX_ELEMENTS as nat),
    {
        if bank as usize >= NUM_TIME_BANKS {
            return Err(());
        }
        let address = (bank as u32) * self.bank_capacity;
        let data = match psram_read(&mut self.psram, address, self.bank_capacity as usize) {
            Ok(d) => d,
            Err(_) => {
                return Err(());
            },
        };
        match SparseWMatrix::deserialize(data.as_slice()) {
            Ok(w) => {
                self.current_w = w;
                Ok(())
            },
            Err(()) => Err(()),
        }
    }

    /// Save the current bank, then advance the time (mod 1000) with a cleared
    /// matrix.
    pub fn step_forward(&mut self) -> (r: Result<(), ()>)
        requires
            old(self).wf(),
            bank_fits(old(self)@.current_time, old(self)@.bank_capacity),
            w_serial_fits(old(self)@.current_w),
        ensures
            final(self).wf(),
            (final(self)@, r is Ok) == step_forward_spec(old(self)@),
    {
        self.save_to_bank(self.current_time)?;
        self.current_time = (self.current_time + 1) % 1000;
        self.current_w.clear();
        Ok(())
    }

    /// Save the current bank, move back one bank (999 before 0) and load it.
    pub fn step_backward(&mut self) -> (r: Result<(), ()>)
        requires
            old(self).wf(),
            bank_fits(old(self)@.current_time, old(self)@.bank_capacity),
            bank_fits(prev_bank(old(self)@.current_time), old(self)@.bank_capacity),
            w_serial_fits(old(self)@.current_w),
        ensures
            final(self).wf(),
            (final(self)@, r is Ok) == step_backward_spec(old(self)@, MAX_ELEMENTS as nat),
    {
        self.save_to_bank(self.current_time)?;
        self.current_time = if self.current_time == 0 { 999 } else { self.current_time - 1 };
        self.load_from_bank(self.current_time)?;
        Ok(())
    }

    /// Save the current bank, then load `bank` and make it current.
    pub fn jump_to(&mut self, bank: TimeBankIndex) -> (r: Result<(), ()>)
        requires
            old(self).wf(),
            bank_fits(old(self)@.current_time, old(self)@.bank_capacity),
            bank_fits(bank, old(self)@.bank_capacity),
            w_serial_fits(old(self)@.current_w),
        ensures
            final(self).wf(),
            (final(self)@, r is Ok) == jump_spec(old(self)@, bank, MAX_ELEMENTS as nat),
    {
        self.save_to_bank(self.current_time)?;
        self.load_from_bank(bank)?;
        self.current_time = bank;
        Ok(())
    }

    /// Reset to time 0 with a cleared matrix.
    pub fn reset(&mut self)
        ensures
            final(self).wf(),
            final(self)@ == (TimeSlicerView {
                current_time: 0,
                current_w: WView { dimension: old(self)@.current_w.dimension, elements: Seq::empty() },
                ..old(self)@
            }),
    {
        self.current_time = 0;
        self.current_w.clear();
    }

    /// Whether the current Frobenius norm squared is within `tolerance` of
    /// the expected value.
    pub fn verify_norm_conservation(&self, expected_norm_sq: i64, tolerance: i64) -> (r: bool)
        requires
            i64::MIN < w_frobenius(self@.current_w.elements) - expected_norm_sq <= i64::MAX,
        ensures
            r == (crate::fixed::abs_int(w_frobenius(self@.current_w.elements) - expected_norm_sq)
                <= tolerance),
    {
        let current = self.current_w.frobenius_norm_sqr();
        let d = current - expected_norm_sq;
        let diff = if d < 0 { -d } else { d };
        diff <= tolerance
    }
}


proof fn lemma_bank_read_has_prefix(m: Map<u32, u8>, addr: int, cap: int, data: Seq<u8>)
    requires
        0 <= addr,
        data.len() <= cap,
        forall|i: int| 0 <= i < data.len() ==> crate::spi::psram_byte(m, addr + i) == #[trigger] data[i],
    ensures
        psram_bytes(m, addr, cap) == data + psram_bytes(m, addr, cap).subrange(data.len() as int, cap),
{
    let b = psram_bytes(m, addr, cap);
    assert(b =~= data + b.subrange(data.len() as int, cap));
}

/// A bank that was saved loads back the matrix that was saved, whatever the
/// current matrix became in between (for a well-formed matrix, and a bank
/// whose whole range lies inside the PSRAM).
pub proof fn law_save_then_load(t: TimeSlicerView, bank: u16, cap: nat, between: WView)
    requires
        w_wf(t.current_w, cap),
        w_serial_fits(t.current_w),
        bank_fits(bank, t.bank_capacity),
        save_spec(t, bank).1,
        psram_range_ok(bank_address(bank, t.bank_capacity) as u32, t.bank_capacity as int),
    ensures
        load_spec(TimeSlicerView { current_w: between, ..save_spec(t, bank).0 }, bank, cap).1,
        load_spec(TimeSlicerView { current_w: between, ..save_spec(t, bank).0 }, bank, cap).0.current_w
            == t.current_w,
{
    let t1 = save_spec(t, bank).0;
    let data = serialize_spec(t.current_w);
    let addr = bank_address(bank, t.bank_capacity);
    crate::spi::law_psram_read_after_write(t.psram.memory, addr as u32, data);
    let m1 = t1.psram.memory;
    assert forall|i: int| 0 <= i < data.len() implies crate::spi::psram_byte(m1, addr + i) == #[trigger] data[i] by {
        assert(psram_bytes(m1, addr, data.len() as int)[i] == data[i]);
    }
    lemma_bank_read_has_prefix(m1, addr, t.bank_capacity as int, data);
    let rest = psram_bytes(m1, addr, t.bank_capacity as int).subrange(data.len() as int, t.bank_capacity as int);
    law_serialize_round_trip(t.current_w, cap, rest);
}

/// A jump saves the bank it leaves: after a successful jump from bank `t` to
/// any bank, loading bank `t` gives back the relational state held at `t`
/// before the jump (for a well-formed matrix, and a bank whose whole range
/// lies inside the PSRAM).
pub proof fn law_jump_keeps_departed_bank(t: TimeSlicerView, bank: u16, cap: nat)
    requires
        t.current_time < NUM_TIME_BANKS,
        w_wf(t.current_w, cap),
        w_serial_fits(t.current_w),
        bank_fits(t.current_time, t.bank_capacity),
        psram_range_ok(bank_address(t.current_time, t.bank_capacity) as u32, t.bank_capacity as int),
        jump_spec(t, bank, cap).1,
    ensures
        load_spec(jump_spec(t, bank, cap).0, t.current_time, cap).1,
        load_spec(jump_spec(t, bank, cap).0, t.current_time, cap).0.current_w == t.current_w,
{
    let t1 = save_spec(t, t.current_time).0;
    let after = jump_spec(t, bank, cap).0;
    assert(save_spec(t, t.current_time).1);
    law_save_then_load(t, t.current_time, cap, after.current_w);
    let x = TimeSlicerView { current_w: after.current_w, ..t1 };
    assert(after.psram == x.psram);
    assert(after.bank_capacity == x.bank_capacity);
}

/// Time reversibility: a step forward followed by a step backward, when both
/// succeed, returns to the same time with the same relational state.
#[verifier::spinoff_prover]
#[verifier::rlimit(60)]
pub proof fn law_forward_then_backward(t: TimeSlicerView, cap: nat)
    requires
        t.current_time < NUM_TIME_BANKS,
        w_wf(t.current_w, cap),
        w_serial_fits(t.current_w),
        bank_fits(t.current_time, t.bank_capacity),
        step_forward_spec(t).1,
        step_backward_spec(step_forward_spec(t).0, cap).1,
    ensures
        step_backward_spec(step_forward_spec(t).0, cap).0.current_time == t.current_time,
        step_backward_spec(step_forward_spec(t).0, cap).0.current_w == t.current_w,
{
    let ct = t.current_time;
    let c = t.bank_capacity;
    let data = serialize_spec(t.current_w);
    lemma_ser_records_len(t.current_w.elements);
    let t1 = step_forward_spec(t).0;
    let m1 = t1.psram.memory;
    let a = bank_address(ct, c);
    let nt = ((ct + 1) % 1000) as u16;
    assert(t1.current_time == nt);
    assert(prev_bank(nt) == ct);
    let w_empty = t1.current_w;
    let data2 = serialize_spec(w_empty);
    assert(ser_records(w_empty.elements) =~= Seq::<u8>::empty());
    assert(data2.len() == 6);
    let a2 = bank_address(nt, c);
    let t2 = save_spec(t1, nt).0;
    assert(save_spec(t1, nt).1);
    let m2 = t2.psram.memory;
    assert(data.len() <= c);
    assert(psram_range_ok(a as u32, c as int));
    // the second save does not touch the first bank's serialization
    if ct < 999 {
        assert(a2 == a + c) by (nonlinear_arith)
            requires
                a2 == nt * c,
                a == ct * c,
                nt == ct + 1,
        ;
    } else {
        assert(ct == 999);
        assert(nt == 0);
        assert(a2 == 0);
        assert(a >= 999 * 6) by (nonlinear_arith)
            requires
                a == ct * c,
                ct == 999,
                c >= 6,
        ;
    }
    crate::spi::law_psram_read_after_write(t.psram.memory, a as u32, data);
    assert forall|i: int| 0 <= i < data.len() implies crate::spi::psram_byte(m2, a + i) == #[trigger] data[i] by {
        assert(psram_bytes(m1, a, data.len() as int)[i] == data[i]);
        crate::spi::law_psram_write_elsewhere(m1, a2 as u32, data2, a + i);
    }
    lemma_bank_read_has_prefix(m2, a, c as int, data);
    let rest = psram_bytes(m2, a, c as int).subrange(data.len() as int, c as int);
    law_serialize_round_trip(t.current_w, cap, rest);
}

} // verus!
