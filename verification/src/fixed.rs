//! Q15.16 fixed-point scalars, complex numbers built on them, and memory-bank
//! identifiers.

use vstd::prelude::*;

verus! {

/// Fixed-point scalar in Q15.16 format.
pub type Fixed = i32;

/// The fixed-point representation of 1.0.
pub const FIXED_ONE: Fixed = 65536;

/// `(a * b) >> 16` over the integers: an arithmetic right shift by 16 is a
/// floor division by 2^16.
pub open spec fn q16_product(a: int, b: int) -> int {
    (a * b) / 65536
}

/// `fixed_mul` over the integers: the product shifted down by 16 bits,
/// clamped to the `i32` range.
pub open spec fn fixed_mul_spec(a: i32, b: i32) -> i32 {
    saturate_i32(q16_product(a as int, b as int))
}

/// The low 32 bits of an integer, read as an `i32`.
pub open spec fn wrap_i32(x: int) -> i32 {
    #[verifier::truncate] (x as i32)
}

/// Clamp an integer into the `i32` range.
pub open spec fn saturate_i32(x: int) -> i32 {
    if x > i32::MAX {
        i32::MAX
    } else if x < i32::MIN {
        i32::MIN
    } else {
        x as i32
    }
}

/// Division of integers rounding toward zero, as Rust's `/` does.
pub open spec fn trunc_div(x: int, y: int) -> int
    recommends
        y != 0,
{
    let q = abs_int(x) / abs_int(y);
    if (x >= 0) == (y > 0) || q == 0 {
        q
    } else {
        -q
    }
}

pub open spec fn abs_int(x: int) -> int {
    if x < 0 {
        -x
    } else {
        x
    }
}

pub proof fn lemma_shr16_is_floor_div(x: i64)
    ensures
        (x >> 16u64) as int == (x as int) / 65536,
{
    assert((x >> 16u64) as int == (x as int) / 65536) by (bit_vector);
}

pub proof fn lemma_i32_product_fits_i64(a: i32, b: i32)
    ensures
        -0x4000_0000_0000_0000 <= (a as int) * (b as int) <= 0x4000_0000_0000_0000,
{
    assert((a as int) * (b as int) <= 0x4000_0000_0000_0000 && (a as int) * (b as int)
        >= -0x4000_0000_0000_0000) by (nonlinear_arith)
        requires
            -0x8000_0000 <= a < 0x8000_0000,
            -0x8000_0000 <= b < 0x8000_0000,
    ;
}

/// `i32` addition that clamps at the bounds instead of overflowing.
pub fn sat_add_i32(a: i32, b: i32) -> (r: i32)
    ensures
        r == saturate_i32(a + b),
{
    let s: i64 = a as i64 + b as i64;
    if s > i32::MAX as i64 {
        i32::MAX
    } else if s < i32::MIN as i64 {
        i32::MIN
    } else {
        s as i32
    }
}

/// `i32` subtraction that clamps at the bounds instead of overflowing.
pub fn sat_sub_i32(a: i32, b: i32) -> (r: i32)
    ensures
        r == saturate_i32(a - b),
{
    let s: i64 = a as i64 - b as i64;
    if s > i32::MAX as i64 {
        i32::MAX
    } else if s < i32::MIN as i64 {
        i32::MIN
    } else {
        s as i32
    }
}

/// `i64` addition that clamps at the bounds instead of overflowing.
pub fn sat_add_i64(a: i64, b: i64) -> (r: i64)
    ensures
        r == (if a + b > i64::MAX {
            i64::MAX
        } else if a + b < i64::MIN {
            i64::MIN
        } else {
            (a + b) as i64
        }),
{
    if b > 0 && a > i64::MAX - b {
        i64::MAX
    } else if b < 0 && a < i64::MIN - b {
        i64::MIN
    } else {
        a + b
    }
}

/// Multiply two fixed-point numbers: the wide product shifted down by 16 bits,
/// saturating at the `i32` bounds.
pub fn fixed_mul(a: Fixed, b: Fixed) -> (r: Fixed)
    ensures
        r == fixed_mul_spec(a, b),
{
    proof {
        lemma_i32_product_fits_i64(a, b);
    }
    let p: i64 = a as i64 * b as i64;
    proof {
        lemma_shr16_is_floor_div(p);
    }
    let s: i64 = p >> 16u64;
    if s > i32::MAX as i64 {
        i32::MAX
    } else if s < i32::MIN as i64 {
        i32::MIN
    } else {
        s as Fixed
    }
}

/// `fixed_div` over the integers.
pub open spec fn fixed_div_spec(a: i32, b: i32) -> i32 {
    if b == 0 {
        0
    } else {
        wrap_i32(trunc_div(a * 65536, b as int))
    }
}

/// Divide two fixed-point numbers (rounding toward zero, the quotient
/// truncated to 32 bits); division by zero gives 0.
pub fn fixed_div(a: Fixed, b: Fixed) -> (r: Fixed)
    ensures
        r == fixed_div_spec(a, b),
{
    if b == 0 {
        0
    } else {
        let num: i64 = (a as i64) * 65536;
        let den: i64 = b as i64;
        let un: u64 = if num < 0 { (-num) as u64 } else { num as u64 };
        let ud: u64 = if den < 0 { (-den) as u64 } else { den as u64 };
        let uq: u64 = un / ud;
        assert(uq as int == abs_int(num as int) / abs_int(den as int));
        assert(uq <= un) by (nonlinear_arith) requires uq == un / ud, ud >= 1;
        let q: i64 = if (num >= 0) == (den > 0) || uq == 0 { uq as i64 } else { -(uq as i64) };
        #[verifier::truncate]
        (q as Fixed)
    }
}

/// Whether `r` is the integer square root of `v`: the largest natural number
/// whose square does not exceed `v`.
pub open spec fn is_isqrt(v: int, r: int) -> bool {
    r >= 0 && r * r <= v && v < (r + 1) * (r + 1)
}

/// `fixed_sqrt` over the integers: for positive `x`, the square root of the
/// fixed-point value, `floor(sqrt(x * 2^16))`, clamped to at most 2.0; 0 for
/// non-positive `x`.
pub open spec fn fixed_sqrt_spec(x: i32, r: i32) -> bool {
    if x <= 0 {
        r == 0
    } else {
        let v = x * 65536;
        &&& 0 <= r <= 131072
        &&& r * r <= v
        &&& (r == 131072 || v < (r + 1) * (r + 1))
    }
}

/// Square root of a fixed-point number, rounded down to the fixed-point grid
/// (0 for non-positive inputs, clamped to at most 2.0).
pub fn fixed_sqrt(x: Fixed) -> (r: Fixed)
    ensures
        fixed_sqrt_spec(x, r),
        x > 0 && r < 2 * FIXED_ONE ==> is_isqrt(x * 65536, r as int),
        r <= 2 * FIXED_ONE,
{
    if x <= 0 {
        return 0;
    }
    let v: i64 = (x as i64) * 65536;
    // Largest `lo` in [0, 131072] with lo * lo <= v, by bisection.
    let mut lo: i64 = 0;
    let mut hi: i64 = 131073;
    while hi - lo > 1
        invariant
            0 < v <= 0x7fff_ffff * 65536,
            0 <= lo < hi <= 131073,
            lo * lo <= v,
            hi == 131073 || v < hi * hi,
        decreases hi - lo,
    {
        let mid: i64 = lo + (hi - lo) / 2;
        assert(0 <= mid * mid <= 131073 * 131073) by (nonlinear_arith)
            requires
                0 <= mid <= 131073,
        ;
        if mid * mid <= v {
            lo = mid;
        } else {
            hi = mid;
        }
    }
    assert(hi == lo + 1);
    let r: i32 = lo as i32;
    proof {
        if r < 131072 {
            assert(hi < 131073);
        }
    }
    r
}

/// Complex number `re + i·im` with fixed-point parts.
#[derive(Debug, Clone, Copy, PartialEq, Eq, Structural)]
pub struct Complex {
    pub re: Fixed,
    pub im: Fixed,
}

impl Default for Complex {
    fn default() -> (r: Self)
        ensures
            r == (Complex { re: 0, im: 0 }),
    {
        Complex { re: 0, im: 0 }
    }
}

impl Complex {
    pub fn new(re: Fixed, im: Fixed) -> (r: Self)
        ensures
            r == (Complex { re, im }),
    {
        Complex { re, im }
    }

    /// `|z|^2` computed as `fixed_mul(re, re) + fixed_mul(im, im)`.
    pub open spec fn norm_sqr_spec(self) -> int {
        fixed_mul_spec(self.re, self.re) + fixed_mul_spec(self.im, self.im)
    }

    /// Magnitude squared; the sum of the two fixed-point squares must fit in
    /// an `i32`.
    pub fn norm_sqr(&self) -> (r: Fixed)
        requires
            i32::MIN <= self.norm_sqr_spec() <= i32::MAX,
        ensures
            r == self.norm_sqr_spec(),
    {
        fixed_mul(self.re, self.re) + fixed_mul(self.im, self.im)
    }

    /// Complex conjugate; the imaginary part must not be `i32::MIN`.
    pub fn conj(&self) -> (r: Self)
        requires
            self.im != i32::MIN,
        ensures
            r == (Complex { re: self.re, im: (-self.im) as i32 }),
    {
        Complex { re: self.re, im: -self.im }
    }

    /// The real part of the product, before narrowing.
    pub open spec fn mul_re_spec(self, other: Complex) -> int {
        fixed_mul_spec(self.re, other.re) - fixed_mul_spec(self.im, other.im)
    }

    /// The imaginary part of the product, before narrowing.
    pub open spec fn mul_im_spec(self, other: Complex) -> int {
        fixed_mul_spec(self.re, other.im) + fixed_mul_spec(self.im, other.re)
    }

    /// Whether the fixed-point product of the two numbers fits in `i32` parts.
    pub open spec fn mul_fits(self, other: Complex) -> bool {
        &&& i32::MIN <= self.mul_re_spec(other) <= i32::MAX
        &&& i32::MIN <= self.mul_im_spec(other) <= i32::MAX
    }

    /// The product as a value, for numbers whose product fits.
    pub open spec fn mul_spec(self, other: Complex) -> Complex {
        Complex { re: self.mul_re_spec(other) as i32, im: self.mul_im_spec(other) as i32 }
    }

    /// Complex multiplication in fixed point.
    pub fn mul(&self, other: &Self) -> (r: Self)
        requires
            self.mul_fits(*other),
        ensures
            r == self.mul_spec(*other),
    {
        Complex {
            re: fixed_mul(self.re, other.re) - fixed_mul(self.im, other.im),
            im: fixed_mul(self.re, other.im) + fixed_mul(self.im, other.re),
        }
    }

    /// Saturating complex addition, as a value.
    pub open spec fn add_spec(self, other: Complex) -> Complex {
        Complex { re: saturate_i32(self.re + other.re), im: saturate_i32(self.im + other.im) }
    }

    /// Complex addition; each part saturates at the `i32` bounds.
    pub fn add(&self, other: &Self) -> (r: Self)
        ensures
            r == self.add_spec(*other),
    {
        Complex { re: sat_add_i32(self.re, other.re), im: sat_add_i32(self.im, other.im) }
    }

    /// Scale both parts by a fixed-point factor.
    pub fn scale(&self, factor: Fixed) -> (r: Self)
        ensures
            r == (Complex { re: fixed_mul_spec(self.re, factor), im: fixed_mul_spec(self.im, factor) }),
    {
        Complex { re: fixed_mul(self.re, factor), im: fixed_mul(self.im, factor) }
    }
}

/// Memory bank identifier.
#[derive(Debug, Clone, Copy, PartialEq, Eq, Structural)]
pub enum MemoryBank {
    /// Time-slicing banks (0-999)
    TimeBank(u16),
    /// Edge cache (local node storage)
    EdgeCache,
    /// Eigenbasis storage
    EigenStorage,
    /// System configuration
    Config,
    /// Undefined
    Undefined,
}

impl Default for MemoryBank {
    fn default() -> (r: Self)
        ensures
            r == MemoryBank::Undefined,
    {
        MemoryBank::Undefined
    }
}

impl MemoryBank {
    /// The numeric bank id.
    pub open spec fn to_id_spec(self) -> u16 {
        match self {
            MemoryBank::TimeBank(t) => if t < 999 { t } else { 999 },
            MemoryBank::EdgeCache => 1000,
            MemoryBank::EigenStorage => 1001,
            MemoryBank::Config => 1002,
            MemoryBank::Undefined => 255,
        }
    }

    /// The bank for a numeric id.
    pub open spec fn from_id_spec(id: u16) -> MemoryBank {
        if id <= 999 {
            MemoryBank::TimeBank(id)
        } else if id == 1000 {
            MemoryBank::EdgeCache
        } else if id == 1001 {
            MemoryBank::EigenStorage
        } else if id == 1002 {
            MemoryBank::Config
        } else {
            MemoryBank::Undefined
        }
    }

    /// Convert to numeric bank id (time banks are capped at 999).
    pub fn to_id(self) -> (r: u16)
        ensures
            r == self.to_id_spec(),
    {
        match self {
            MemoryBank::TimeBank(t) => if t < 999 { t } else { 999 },
            MemoryBank::EdgeCache => 1000,
            MemoryBank::EigenStorage => 1001,
            MemoryBank::Config => 1002,
            MemoryBank::Undefined => 255,
        }
    }

    /// Create from numeric bank id.
    pub fn from_id(id: u16) -> (r: Self)
        ensures
            r == Self::from_id_spec(id),
    {
        if id <= 999 {
            MemoryBank::TimeBank(id)
        } else if id == 1000 {
            MemoryBank::EdgeCache
        } else if id == 1001 {
            MemoryBank::EigenStorage
        } else if id == 1002 {
            MemoryBank::Config
        } else {
            MemoryBank::Undefined
        }
    }
}

/// Every defined bank id (0 to 1002) survives `from_id` then `to_id`.
pub proof fn law_bank_id_round_trip(id: u16)
    requires
        id <= 1002,
    ensures
        MemoryBank::from_id_spec(id).to_id_spec() == id,
{
}

/// A bank that names a time bank in range or a special region survives
/// `to_id` then `from_id`.
pub proof fn law_bank_round_trip(b: MemoryBank)
    requires
        b != MemoryBank::Undefined,
        b matches MemoryBank::TimeBank(t) ==> t <= 999,
    ensures
        MemoryBank::from_id_spec(b.to_id_spec()) == b,
{
}

} // verus!
