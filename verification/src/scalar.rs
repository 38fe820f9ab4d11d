//! Saturating fixed-point numbers with six decimal places.

use vstd::prelude::*;

verus! {

/// Number of raw units that make up the value one.
pub const SCALE: i64 = 1_000_000;

/// Largest magnitude, in raw units, that a scalar can hold. A scalar
/// with this magnitude stands for an infinite value of its sign.
pub const LIMIT: i64 = 9_223_372_036_854_775_807;

/// Largest magnitude of an intermediate result: the square of 2^63.
const WIDE_LIMIT: i128 = 85_070_591_730_234_615_865_843_651_857_942_052_864;

/// `v` brought into the symmetric range of a scalar.
pub open spec fn clip(v: int) -> int {
    if v > LIMIT {
        LIMIT as int
    } else if v < -LIMIT {
        -LIMIT
    } else {
        v
    }
}

/// The magnitude of `v`.
pub open spec fn magnitude(v: int) -> int {
    if v < 0 {
        -v
    } else {
        v
    }
}

/// Quotient of `a` by `b` rounded toward zero; zero where `b` is zero.
pub open spec fn trunc_div(a: int, b: int) -> int {
    if b == 0 {
        0
    } else if (a < 0) == (b < 0) {
        magnitude(a) / magnitude(b)
    } else {
        -(magnitude(a) / magnitude(b))
    }
}

/// Whether `r` is the integer square root of `n`.
pub open spec fn is_floor_sqrt(n: int, r: int) -> bool {
    0 <= r && r * r <= n < (r + 1) * (r + 1)
}

/// The integer square root of `n`: the largest `r` with `r * r <= n`,
/// and zero for a negative `n`.
pub open spec fn floor_sqrt(n: int) -> int {
    if n < 0 {
        0
    } else {
        choose|r: int| is_floor_sqrt(n, r)
    }
}

/// Two candidates for the integer square root of one number are equal.
pub proof fn lemma_floor_sqrt_unique(n: int, r: int, s: int)
    requires
        is_floor_sqrt(n, r),
        is_floor_sqrt(n, s),
    ensures
        r == s,
{
    if r < s {
        assert((r + 1) * (r + 1) <= s * s) by (nonlinear_arith)
            requires
                0 <= r,
                r + 1 <= s,
        ;
    } else if s < r {
        assert((s + 1) * (s + 1) <= r * r) by (nonlinear_arith)
            requires
                0 <= s,
                s + 1 <= r,
        ;
    }
}

/// Every number that is not negative has an integer square root.
pub proof fn lemma_floor_sqrt_exists(n: int)
    requires
        n >= 0,
    ensures
        is_floor_sqrt(n, floor_sqrt(n)),
    decreases n,
{
    if n == 0 {
        assert(is_floor_sqrt(0, 0));
    } else {
        lemma_floor_sqrt_exists(n - 1);
        let r = floor_sqrt(n - 1);
        if (r + 1) * (r + 1) <= n {
            assert((r + 1) * (r + 1) < (r + 2) * (r + 2)) by (nonlinear_arith)
                requires
                    r >= 0,
            ;
            assert(is_floor_sqrt(n, r + 1));
        } else {
            assert(r * r <= n) by (nonlinear_arith)
                requires
                    r * r <= n - 1,
            ;
            assert(is_floor_sqrt(n, r));
        }
    }
}

/// A candidate for the integer square root is the integer square root.
pub proof fn lemma_floor_sqrt_is(n: int, r: int)
    requires
        is_floor_sqrt(n, r),
    ensures
        floor_sqrt(n) == r,
{
    let s = choose|s: int| is_floor_sqrt(n, s);
    lemma_floor_sqrt_unique(n, r, s);
}

/// A fixed-point number: `raw` millionths, never below `-LIMIT`.
#[derive(Clone, Copy, Debug, PartialEq, Eq, Structural)]
pub struct Scalar {
    pub(crate) raw: i64,
}

impl View for Scalar {
    type V = int;

    /// The number of millionths.
    closed spec fn view(&self) -> int {
        self.raw as int
    }
}

impl Scalar {
    /// The range that every scalar of a running program lies in.
    #[verifier::type_invariant]
    pub closed spec fn wf(self) -> bool {
        -LIMIT <= self.raw
    }

    /// The scalar of `clip(v)` millionths.
    pub closed spec fn of(v: int) -> Scalar {
        Scalar { raw: clip(v) as i64 }
    }

    /// The scalar of `raw` millionths, with the one value below the range
    /// raised to its lower end.
    pub fn from_raw(raw: i64) -> (r: Scalar)
        ensures
            r == Scalar::of(raw as int),
            r@ == clip(raw as int),
    {
        if raw < -LIMIT {
            Scalar { raw: -LIMIT }
        } else {
            Scalar { raw }
        }
    }

    /// The number of millionths.
    pub fn raw(&self) -> (r: i64)
        ensures
            r == self@,
    {
        self.raw
    }

    /// The scalar nearest to a wide number of millionths.
    fn from_wide(v: i128) -> (r: Scalar)
        ensures
            r == Scalar::of(v as int),
    {
        if v > LIMIT as i128 {
            Scalar { raw: LIMIT }
        } else if v < -(LIMIT as i128) {
            Scalar { raw: -LIMIT }
        } else {
            Scalar { raw: v as i64 }
        }
    }

    /// The whole number `n`.
    pub open spec fn spec_from_int(n: int) -> Scalar {
        Scalar::of(n * SCALE)
    }

    /// The whole number `n`, or the end of the range that it lies beyond.
    pub fn from_int(n: i64) -> (r: Scalar)
        ensures
            r == Scalar::spec_from_int(n as int),
            r@ == clip(n * SCALE),
    {
        Scalar::from_wide(scaled(n))
    }

    /// The fraction `n / d`, rounded toward zero.
    pub open spec fn spec_from_ratio(n: int, d: int) -> Scalar {
        Scalar::of(quotient(n * SCALE, d))
    }

    /// The fraction `n / d`, rounded toward zero to a whole number of
    /// millionths.
    pub fn from_ratio(n: i64, d: i64) -> (r: Scalar)
        ensures
            r == Scalar::spec_from_ratio(n as int, d as int),
            r@ == clip(quotient(n * SCALE, d as int)),
    {
        Scalar::from_wide(wide_quotient(scaled(n), d as i128))
    }

    /// The value zero.
    pub fn zero() -> (r: Scalar)
        ensures
            r == Scalar::of(0),
            r@ == 0,
    {
        Scalar { raw: 0 }
    }

    /// The value one.
    pub fn one() -> (r: Scalar)
        ensures
            r == Scalar::of(SCALE as int),
            r@ == SCALE,
    {
        Scalar { raw: SCALE }
    }

    /// The upper end of the range, which stands for positive infinity.
    pub fn infinity() -> (r: Scalar)
        ensures
            r == Scalar::of(LIMIT as int),
            r@ == LIMIT,
    {
        Scalar { raw: LIMIT }
    }

    /// Sum of two scalars, brought into range.
    pub open spec fn spec_add(self, rhs: Scalar) -> Scalar {
        Scalar::of(self@ + rhs@)
    }

    /// Sum of two scalars; it saturates at the ends of the range.
    pub fn add(self, rhs: Scalar) -> (r: Scalar)
        ensures
            r == self.spec_add(rhs),
            r@ == clip(self@ + rhs@),
    {
        Scalar::from_wide(self.raw as i128 + rhs.raw as i128)
    }

    /// Difference of two scalars, brought into range.
    pub open spec fn spec_sub(self, rhs: Scalar) -> Scalar {
        Scalar::of(self@ - rhs@)
    }

    /// Difference of two scalars; it saturates at the ends of the range.
    pub fn sub(self, rhs: Scalar) -> (r: Scalar)
        ensures
            r == self.spec_sub(rhs),
            r@ == clip(self@ - rhs@),
    {
        Scalar::from_wide(self.raw as i128 - rhs.raw as i128)
    }

    /// The scalar of opposite sign.
    pub open spec fn spec_neg(self) -> Scalar {
        Scalar::of(-self@)
    }

    /// The scalar of opposite sign. The range is symmetric, so this is exact.
    pub fn neg(self) -> (r: Scalar)
        ensures
            r == self.spec_neg(),
            r@ == -self@,
    {
        proof {
            use_type_invariant(&self);
        }
        Scalar { raw: -self.raw }
    }

    /// The magnitude of a scalar.
    pub open spec fn spec_abs(self) -> Scalar {
        if self@ < 0 {
            self.spec_neg()
        } else {
            self
        }
    }

    /// The magnitude of a scalar.
    pub fn abs(self) -> (r: Scalar)
        ensures
            r == self.spec_abs(),
            r@ == magnitude(self@),
    {
        if self.raw < 0 {
            self.neg()
        } else {
            self
        }
    }

    /// Product of two scalars, rounded toward zero and brought into range.
    pub open spec fn spec_mul(self, rhs: Scalar) -> Scalar {
        Scalar::of(trunc_div(self@ * rhs@, SCALE as int))
    }

    /// Product of two scalars, rounded toward zero to a whole number of
    /// millionths; it saturates at the ends of the range.
    pub fn mul(self, rhs: Scalar) -> (r: Scalar)
        ensures
            r == self.spec_mul(rhs),
            r@ == clip(trunc_div(self@ * rhs@, SCALE as int)),
    {
        proof {
            lemma_product_fits(self.raw as int, rhs.raw as int);
        }
        let wide: i128 = (self.raw as i128) * (rhs.raw as i128);
        Scalar::from_wide(wide_quotient(wide, SCALE as i128))
    }

    /// Quotient of two scalars, rounded toward zero and brought into range;
    /// a quotient by zero is infinite with the sign of the dividend, and
    /// zero where the dividend is zero too.
    pub open spec fn spec_div(self, rhs: Scalar) -> Scalar {
        Scalar::of(quotient(self@ * SCALE, rhs@))
    }

    /// Quotient of two scalars, rounded toward zero to a whole number of
    /// millionths; it saturates at the ends of the range, and a quotient
    /// by zero is infinite with the sign of the dividend.
    pub fn div(self, rhs: Scalar) -> (r: Scalar)
        ensures
            r == self.spec_div(rhs),
            r@ == clip(quotient(self@ * SCALE, rhs@)),
    {
        Scalar::from_wide(wide_quotient(scaled(self.raw), rhs.raw as i128))
    }

    /// Square root, rounded down; zero for a negative scalar.
    pub open spec fn spec_sqrt(self) -> Scalar {
        Scalar::of(floor_sqrt(self@ * SCALE))
    }

    /// Square root, rounded down to a whole number of millionths; zero
    /// for a negative scalar.
    pub fn sqrt(self) -> (r: Scalar)
        ensures
            r == self.spec_sqrt(),
            r@ == floor_sqrt(self@ * SCALE),
            r@ >= 0,
    {
        if self.raw <= 0 {
            proof {
                if self.raw == 0 {
                    lemma_floor_sqrt_is(0, 0);
                }
            }
            return Scalar { raw: 0 };
        }
        let n: u128 = (self.raw as u128) * (SCALE as u128);
        let mut low: u128 = 0;
        let mut high: u128 = 4_398_046_511_104;
        assert(n < high * high) by (nonlinear_arith)
            requires
                n == (self.raw as u128) * (SCALE as u128),
                self.raw <= LIMIT,
                self.raw > 0,
                SCALE == 1_000_000,
                LIMIT == 9_223_372_036_854_775_807,
                high == 4_398_046_511_104,
        ;
        while high - low > 1
            invariant
                low < high <= 4_398_046_511_104,
                low * low <= n < high * high,
            decreases high - low,
        {
            let mid: u128 = low + (high - low) / 2;
            assert(mid * mid < 4_398_046_511_104 * 4_398_046_511_104) by (nonlinear_arith)
                requires
                    mid < 4_398_046_511_104,
            ;
            if mid * mid <= n {
                low = mid;
            } else {
                high = mid;
            }
        }
        proof {
            lemma_floor_sqrt_is(n as int, low as int);
        }
        Scalar { raw: low as i64 }
    }

    /// Whether this scalar is less than `rhs`.
    pub fn lt(self, rhs: Scalar) -> (r: bool)
        ensures
            r == (self@ < rhs@),
    {
        self.raw < rhs.raw
    }

    /// Whether this scalar is at most `rhs`.
    pub fn le(self, rhs: Scalar) -> (r: bool)
        ensures
            r == (self@ <= rhs@),
    {
        self.raw <= rhs.raw
    }
}

/// Quotient of `a` by `b` rounded toward zero; where `b` is zero, the
/// limit with the sign of `a`.
pub open spec fn quotient(a: int, b: int) -> int {
    if b != 0 {
        trunc_div(a, b)
    } else if a > 0 {
        LIMIT as int
    } else if a < 0 {
        -LIMIT
    } else {
        0
    }
}

/// `v` millionths as a wide number of millionths of millionths.
fn scaled(v: i64) -> (r: i128)
    ensures
        r == v * SCALE,
        -WIDE_LIMIT <= r <= WIDE_LIMIT,
{
    assert(-WIDE_LIMIT <= v * SCALE <= WIDE_LIMIT) by (nonlinear_arith)
        requires
            -9_223_372_036_854_775_808 <= v <= 9_223_372_036_854_775_807,
            SCALE == 1_000_000,
            WIDE_LIMIT == 85_070_591_730_234_615_865_843_651_857_942_052_864,
    ;
    (v as i128) * (SCALE as i128)
}

/// `quotient` on wide numbers.
fn wide_quotient(a: i128, b: i128) -> (r: i128)
    requires
        -WIDE_LIMIT <= a <= WIDE_LIMIT,
        -WIDE_LIMIT <= b <= WIDE_LIMIT,
    ensures
        r == quotient(a as int, b as int),
{
    if b == 0 {
        if a > 0 {
            LIMIT as i128
        } else if a < 0 {
            -(LIMIT as i128)
        } else {
            0
        }
    } else {
        let top: u128 = if a < 0 { (-a) as u128 } else { a as u128 };
        let bottom: u128 = if b < 0 { (-b) as u128 } else { b as u128 };
        let q: u128 = top / bottom;
        if (a < 0) == (b < 0) {
            q as i128
        } else {
            -(q as i128)
        }
    }
}

/// The view of `Scalar::of(v)` is `v` brought into range, and it is in range.
pub proof fn lemma_of_view(v: int)
    ensures
        Scalar::of(v)@ == clip(v),
        Scalar::of(v).wf(),
{
}

/// A scalar in range is at least `-LIMIT` and at most `LIMIT`.
pub proof fn lemma_view_range(a: Scalar)
    ensures
        a.wf() <==> -LIMIT <= a@,
        a@ <= LIMIT,
{
}

/// Whether `v` lies in the range of a scalar, so that it is held as it
/// is.
pub open spec fn in_range(v: int) -> bool {
    -LIMIT <= v <= LIMIT
}

/// The square root of a scalar that is not negative is the integer square
/// root of its number of millionths times `SCALE`: it never leaves the
/// range.
pub proof fn lemma_sqrt_view(a: Scalar)
    requires
        a@ >= 0,
    ensures
        is_floor_sqrt(a@ * SCALE, a.spec_sqrt()@),
{
    let n = a@ * SCALE;
    lemma_floor_sqrt_exists(n);
    let r = floor_sqrt(n);
    if r > LIMIT {
        assert(r * r > LIMIT * SCALE) by (nonlinear_arith)
            requires
                r > LIMIT,
                LIMIT == 9_223_372_036_854_775_807,
                SCALE == 1_000_000,
        ;
    }
}

/// A square root is not negative.
pub proof fn lemma_sqrt_not_negative(a: Scalar)
    ensures
        a.spec_sqrt()@ >= 0,
{
    if a@ * SCALE >= 0 {
        lemma_floor_sqrt_exists(a@ * SCALE);
    }
}

/// The product of a scalar with itself is not negative.
pub proof fn lemma_square_not_negative(a: Scalar)
    ensures
        a.spec_mul(a)@ >= 0,
{
    assert(a@ * a@ >= 0) by (nonlinear_arith);
}

/// The sum of two scalars that are not negative is not negative.
pub proof fn lemma_sum_not_negative(a: Scalar, b: Scalar)
    requires
        a@ >= 0,
        b@ >= 0,
    ensures
        a.spec_add(b)@ >= 0,
{
}

/// Rounding toward zero keeps the order of the dividends, for a positive
/// divisor.
pub proof fn lemma_trunc_div_monotone(x: int, y: int, d: int)
    requires
        x <= y,
        d > 0,
    ensures
        trunc_div(x, d) <= trunc_div(y, d),
{
    if x >= 0 {
        vstd::arithmetic::div_mod::lemma_div_is_ordered(x, y, d);
    } else if y < 0 {
        vstd::arithmetic::div_mod::lemma_div_is_ordered(-y, -x, d);
    } else {
        vstd::arithmetic::div_mod::lemma_div_is_ordered(0, -x, d);
        vstd::arithmetic::div_mod::lemma_div_is_ordered(0, y, d);
    }
}

/// Division by a scalar that is not negative keeps the order of the
/// dividends.
pub proof fn lemma_div_monotone(a: Scalar, b: Scalar, d: Scalar)
    requires
        a@ <= b@,
        d@ >= 0,
    ensures
        a.spec_div(d)@ <= b.spec_div(d)@,
{
    if d@ > 0 {
        lemma_trunc_div_monotone(a@ * SCALE, b@ * SCALE, d@);
    }
}

/// Adding a scalar that is not negative gives at least what subtracting
/// it gives.
pub proof fn lemma_sub_below_add(h: Scalar, s: Scalar)
    requires
        s@ >= 0,
    ensures
        h.spec_sub(s)@ <= h.spec_add(s)@,
{
}

/// Rounding toward zero treats a number and its opposite alike.
pub proof fn lemma_trunc_div_odd(x: int, d: int)
    requires
        d > 0,
    ensures
        trunc_div(-x, d) == -trunc_div(x, d),
{
}

/// The product with the opposite of a scalar is the opposite of the
/// product.
pub proof fn lemma_mul_neg(a: Scalar, b: Scalar)
    requires
        b.wf(),
    ensures
        a.spec_mul(b.spec_neg()) == a.spec_mul(b).spec_neg(),
{
    assert(a@ * (-b@) == -(a@ * b@)) by (nonlinear_arith);
    lemma_trunc_div_odd(a@ * b@, SCALE as int);
}

/// The sum of two opposites is the opposite of the sum.
pub proof fn lemma_add_neg(a: Scalar, b: Scalar)
    requires
        a.wf(),
        b.wf(),
    ensures
        a.spec_neg().spec_add(b.spec_neg()) == a.spec_add(b).spec_neg(),
{
}

/// The product of two raw values fits in a wide number.
proof fn lemma_product_fits(a: int, b: int)
    requires
        -LIMIT - 1 <= a <= LIMIT,
        -LIMIT - 1 <= b <= LIMIT,
    ensures
        -WIDE_LIMIT <= a * b <= WIDE_LIMIT,
{
    assert(-WIDE_LIMIT <= a * b <= WIDE_LIMIT) by (nonlinear_arith)
        requires
            -9_223_372_036_854_775_808 <= a <= 9_223_372_036_854_775_807,
            -9_223_372_036_854_775_808 <= b <= 9_223_372_036_854_775_807,
            WIDE_LIMIT == 85_070_591_730_234_615_865_843_651_857_942_052_864,
    ;
}

} // verus!
