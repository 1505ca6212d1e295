//! A signed decimal number held as an `i128` scaled by `10^FIXED_DIGITS`.
use vstd::prelude::*;

use crate::error::Errors;
use vstd::arithmetic::div_mod::{lemma_basic_div, lemma_fundamental_div_mod, lemma_mod_pos_bound};

verus! {

/// Number of decimal digits after the point.
pub const FIXED_DIGITS: u32 = 10;

/// The representation of `1.0`: `10^FIXED_DIGITS`.
pub const FIXED_ONE: i128 = 10000000000;

/// `FIXED_ONE` as a `u64`, for the pool's unsigned quantities.
pub const FIXED_ONE_U64: u64 = 10000000000;

/// The square root of `FIXED_ONE`, by which both doubly-fractional factors
/// are reduced before they are multiplied.
pub const MUL_PRECISION: i128 = 100000;

/// The value `v / FIXED_ONE`, held as the integer `v`.
#[derive(PartialEq, Eq, Structural, Clone, Copy, PartialOrd, Debug)]
pub struct Fixed(pub i128);

/// The scale as a mathematical integer.
pub open spec fn scale() -> int {
    FIXED_ONE as int
}

/// The reduction applied to fractional parts before their product.
pub open spec fn precision() -> int {
    MUL_PRECISION as int
}

/// Whether `v` can be held in an `i128`.
pub open spec fn in_i128(v: int) -> bool {
    i128::MIN <= v <= i128::MAX
}

/// Magnitude of an integer.
pub open spec fn abs(v: int) -> int {
    if v < 0 {
        -v
    } else {
        v
    }
}

/// Integer division that truncates toward zero, as Rust's `/` does.
pub open spec fn tdiv(a: int, d: int) -> int {
    let q = abs(a) / abs(d);
    if (a < 0) != (d < 0) {
        -q
    } else {
        q
    }
}

/// The integer part of a scaled value, in whole units (truncated toward zero).
pub open spec fn int_part(v: int) -> int {
    tdiv(v, scale())
}

/// The scaled remainder left once the integer part is taken out; it has the
/// sign of `v`.
pub open spec fn frac_part(v: int) -> int {
    v - int_part(v) * scale()
}

/// The product of two scaled values as the four cross terms of
/// `(x1 + x2) * (y1 + y2)`, the doubly-fractional term computed on factors
/// reduced by `precision()`.
pub open spec fn mul_value(a: int, b: int) -> int {
    let x1 = int_part(a);
    let x2 = frac_part(a);
    let y1 = int_part(b);
    let y2 = frac_part(b);
    x1 * y1 * scale() + x2 * y1 + x1 * y2 + tdiv(x2, precision()) * tdiv(y2, precision())
}

/// Checked exact sum.
pub open spec fn add_res(a: Fixed, b: Fixed) -> Result<Fixed, Errors> {
    if in_i128(a.0 + b.0) {
        Ok(Fixed((a.0 + b.0) as i128))
    } else {
        Err(Errors::Overflow)
    }
}

/// Checked exact difference.
pub open spec fn sub_res(a: Fixed, b: Fixed) -> Result<Fixed, Errors> {
    if in_i128(a.0 - b.0) {
        Ok(Fixed((a.0 - b.0) as i128))
    } else {
        Err(Errors::Overflow)
    }
}

/// Checked product: `mul_value`, or `Overflow` where it does not fit.
pub open spec fn mul_res(a: Fixed, b: Fixed) -> Result<Fixed, Errors> {
    if in_i128(mul_value(a.0 as int, b.0 as int)) {
        Ok(Fixed(mul_value(a.0 as int, b.0 as int) as i128))
    } else {
        Err(Errors::Overflow)
    }
}

/// The reciprocal `FIXED_ONE^2 / v`, truncated toward zero.
pub open spec fn reciprocal_value(v: int) -> int {
    tdiv(scale() * scale(), v)
}

/// Checked quotient, as multiplication by the reciprocal of the divisor.
pub open spec fn div_res(a: Fixed, b: Fixed) -> Result<Fixed, Errors> {
    if b.0 == 0 {
        Err(Errors::DivisionByZero)
    } else if b.0 == FIXED_ONE {
        Ok(a)
    } else if a.0 == b.0 {
        Ok(Fixed(FIXED_ONE))
    } else if abs(b.0 as int) > scale() * scale() {
        Err(Errors::DivisorTooLarge)
    } else {
        mul_res(a, Fixed(reciprocal_value(b.0 as int) as i128))
    }
}

/// Euclidean quotient and remainder of a non-negative integer by a positive
/// one.
pub proof fn lemma_div_rem(n: int, d: int)
    requires
        n >= 0,
        d > 0,
    ensures
        n / d >= 0,
        0 <= n - (n / d) * d < d,
{
    lemma_fundamental_div_mod(n, d);
    lemma_mod_pos_bound(n, d);
    assert(d * (n / d) == (n / d) * d) by (nonlinear_arith);
    assert(n / d >= 0) by (nonlinear_arith)
        requires
            n >= 0,
            d > 0,
            n == d * (n / d) + (n % d),
            0 <= n % d < d,
    ;
}

/// Integer and fractional parts, and the reduced fractional part, all carry
/// the sign of the value; the fractional part is smaller than one unit.
pub proof fn lemma_parts_sign(v: int)
    ensures
        v >= 0 ==> int_part(v) >= 0 && 0 <= frac_part(v) < scale() && tdiv(
            frac_part(v),
            precision(),
        ) >= 0,
        v <= 0 ==> int_part(v) <= 0 && -scale() < frac_part(v) <= 0 && tdiv(
            frac_part(v),
            precision(),
        ) <= 0,
        v == int_part(v) * scale() + frac_part(v),
{
    lemma_div_rem(abs(v), scale());
    lemma_div_rem(abs(frac_part(v)), precision());
}

proof fn lemma_sign_of_product(x: int, y: int)
    ensures
        (x >= 0 && y >= 0) || (x <= 0 && y <= 0) ==> x * y >= 0,
        (x >= 0 && y <= 0) || (x <= 0 && y >= 0) ==> x * y <= 0,
{
    assert((x >= 0 && y >= 0) || (x <= 0 && y <= 0) ==> x * y >= 0) by (nonlinear_arith);
    assert((x >= 0 && y <= 0) || (x <= 0 && y >= 0) ==> x * y <= 0) by (nonlinear_arith);
}

/// The four cross terms of `mul_value` share one sign, so when their sum
/// fits in an `i128`, every product and every partial sum on the way fits.
pub proof fn lemma_mul_steps_fit(a: int, b: int)
    requires
        in_i128(mul_value(a, b)),
    ensures
        in_i128(int_part(a) * int_part(b)),
        in_i128(int_part(a) * int_part(b) * scale()),
        in_i128(frac_part(a) * int_part(b)),
        in_i128(int_part(a) * frac_part(b)),
        in_i128(tdiv(frac_part(a), precision()) * tdiv(frac_part(b), precision())),
        in_i128(int_part(a) * int_part(b) * scale() + frac_part(a) * int_part(b)),
        in_i128(
            int_part(a) * int_part(b) * scale() + frac_part(a) * int_part(b) + int_part(a)
                * frac_part(b),
        ),
{
    let x1 = int_part(a);
    let x2 = frac_part(a);
    let x3 = tdiv(x2, precision());
    let y1 = int_part(b);
    let y2 = frac_part(b);
    let y3 = tdiv(y2, precision());
    lemma_parts_sign(a);
    lemma_parts_sign(b);
    lemma_sign_of_product(x1, y1);
    lemma_sign_of_product(x2, y1);
    lemma_sign_of_product(x1, y2);
    lemma_sign_of_product(x3, y3);
}

/// Multiplying by zero, on either side, gives zero.
pub proof fn lemma_mul_by_zero(b: int)
    ensures
        mul_value(0, b) == 0,
        mul_value(b, 0) == 0,
{
    assert(int_part(0) == 0);
    assert(frac_part(0) == 0);
    assert(tdiv(0, precision()) == 0);
}

/// Multiplying by `1.0`, on either side, gives the other factor back.
pub proof fn lemma_mul_by_one(b: int)
    ensures
        mul_value(scale(), b) == b,
        mul_value(b, scale()) == b,
{
    lemma_parts_sign(b);
    assert(int_part(scale()) == 1);
    assert(frac_part(scale()) == 0);
    assert(tdiv(0, precision()) == 0);
}

/// Subtracting what was added gives the first operand back: wherever
/// `a + b` is representable, `(a + b) - b` is too, and equals `a`.
pub proof fn lemma_add_sub_inverse(a: Fixed, b: Fixed)
    requires
        add_res(a, b) is Ok,
    ensures
        sub_res(add_res(a, b)->Ok_0, b) == Ok::<Fixed, Errors>(a),
{
}

/// Multiplication is commutative, in its value and in when it overflows.
pub proof fn lemma_mul_commutative(a: Fixed, b: Fixed)
    ensures
        mul_res(a, b) == mul_res(b, a),
{
    let x1 = int_part(a.0 as int);
    let x2 = frac_part(a.0 as int);
    let x3 = tdiv(x2, precision());
    let y1 = int_part(b.0 as int);
    let y2 = frac_part(b.0 as int);
    let y3 = tdiv(y2, precision());
    assert(x1 * y1 == y1 * x1) by (nonlinear_arith);
    assert(x2 * y1 == y1 * x2) by (nonlinear_arith);
    assert(x1 * y2 == y2 * x1) by (nonlinear_arith);
    assert(x3 * y3 == y3 * x3) by (nonlinear_arith);
    assert(mul_value(a.0 as int, b.0 as int) == mul_value(b.0 as int, a.0 as int));
}

/// How far `mul_value(a, b) * FIXED_ONE` may fall below `a * b` for
/// non-negative operands: the doubly-fractional term loses less than
/// `2 * MUL_PRECISION^3 + FIXED_ONE` there.
pub open spec fn mul_error_bound() -> int {
    2 * precision() * precision() * precision() + scale()
}

proof fn lemma_cross_terms(x1: int, x3: int, r1: int, y1: int, y3: int, r2: int, p: int)
    ensures
        (x1 * (p * p) + (x3 * p + r1)) * (y1 * (p * p) + (y3 * p + r2)) - (x1 * y1 * (p * p) + (
        x3 * p + r1) * y1 + x1 * (y3 * p + r2) + x3 * y3) * (p * p) == x3 * r2 * p + r1 * y3 * p
            + r1 * r2,
{
    let sq = p * p;
    let xf = x3 * p + r1;
    let yf = y3 * p + r2;
    let u = x1 * sq;
    let v = y1 * sq;
    assert((u + xf) * (v + yf) == u * v + u * yf + xf * v + xf * yf) by (nonlinear_arith);
    assert(u * v == x1 * y1 * sq * sq) by (nonlinear_arith)
        requires
            u == x1 * sq,
            v == y1 * sq,
    ;
    assert(u * yf == x1 * yf * sq) by (nonlinear_arith)
        requires
            u == x1 * sq,
    ;
    assert(xf * v == xf * y1 * sq) by (nonlinear_arith)
        requires
            v == y1 * sq,
    ;
    assert((x1 * y1 * sq + xf * y1 + x1 * yf + x3 * y3) * sq == x1 * y1 * sq * sq + xf * y1 * sq
        + x1 * yf * sq + x3 * y3 * sq) by (nonlinear_arith);
    let xp = x3 * p;
    let yp = y3 * p;
    assert((xp + r1) * (yp + r2) == xp * yp + xp * r2 + r1 * yp + r1 * r2) by (nonlinear_arith);
    assert(xp * yp == x3 * y3 * sq) by (nonlinear_arith)
        requires
            xp == x3 * p,
            yp == y3 * p,
            sq == p * p,
    ;
    assert(xp * r2 == x3 * r2 * p) by (nonlinear_arith)
        requires
            xp == x3 * p,
    ;
    assert(r1 * yp == r1 * y3 * p) by (nonlinear_arith)
        requires
            yp == y3 * p,
    ;
}

proof fn lemma_cross_terms_bound(x3: int, r1: int, y3: int, r2: int, p: int)
    requires
        0 <= x3 < p,
        0 <= y3 < p,
        0 <= r1 < p,
        0 <= r2 < p,
    ensures
        0 <= x3 * r2 * p + r1 * y3 * p + r1 * r2 < 2 * p * p * p + p * p,
{
    assert(0 <= x3 * r2 * p < p * p * p) by (nonlinear_arith)
        requires
            0 <= x3 < p,
            0 <= r2 < p,
    ;
    assert(0 <= r1 * y3 * p < p * p * p) by (nonlinear_arith)
        requires
            0 <= y3 < p,
            0 <= r1 < p,
    ;
    assert(0 <= r1 * r2 < p * p) by (nonlinear_arith)
        requires
            0 <= r1 < p,
            0 <= r2 < p,
    ;
    assert(2 * p * p * p == p * p * p + p * p * p) by (nonlinear_arith);
}

/// For non-negative operands the product is non-negative, never above the
/// exact `a * b / FIXED_ONE`, and below it by less than
/// `mul_error_bound() / FIXED_ONE`.
pub proof fn lemma_mul_value_bounds(a: int, b: int)
    requires
        a >= 0,
        b >= 0,
    ensures
        mul_value(a, b) >= 0,
        0 <= a * b - mul_value(a, b) * scale() < mul_error_bound(),
{
    let p = precision();
    let x1 = int_part(a);
    let x2 = frac_part(a);
    let x3 = tdiv(x2, p);
    let y1 = int_part(b);
    let y2 = frac_part(b);
    let y3 = tdiv(y2, p);
    lemma_parts_sign(a);
    lemma_parts_sign(b);
    lemma_div_rem(x2, p);
    lemma_div_rem(y2, p);
    let r1 = x2 - x3 * p;
    let r2 = y2 - y3 * p;
    assert(x3 < p) by (nonlinear_arith)
        requires
            x2 < p * p,
            x3 * p <= x2,
            p > 0,
    ;
    assert(y3 < p) by (nonlinear_arith)
        requires
            y2 < p * p,
            y3 * p <= y2,
            p > 0,
    ;
    lemma_cross_terms(x1, x3, r1, y1, y3, r2, p);
    lemma_cross_terms_bound(x3, r1, y3, r2, p);
    lemma_sign_of_product(x1, y1);
    lemma_sign_of_product(x2, y1);
    lemma_sign_of_product(x1, y2);
    lemma_sign_of_product(x3, y3);
}

proof fn lemma_round_trip_algebra(
    a: int,
    b: int,
    c: int,
    d: int,
    r: int,
    e1: int,
    e2: int,
    e3: int,
    s: int,
    bound: int,
)
    requires
        b > 0,
        s > 0,
        c >= 0,
        c * s == a * b - e1,
        d * s == c * r - e2,
        r * b == s * s - e3,
        0 <= e1 < bound,
        0 <= e2 < bound,
        0 <= e3 < b,
    ensures
        d <= a,
        (a - d) * b * s < bound * (s + b) + c * b,
{
    assert((a - d) * b * s == s * e1 + c * e3 + e2 * b) by (nonlinear_arith)
        requires
            c * s == a * b - e1,
            d * s == c * r - e2,
            r * b == s * s - e3,
    ;
    assert(s * e1 + c * e3 + e2 * b < bound * (s + b) + c * b) by (nonlinear_arith)
        requires
            b > 0,
            s > 0,
            c >= 0,
            0 <= e1 < bound,
            0 <= e2 < bound,
            0 <= e3 < b,
    ;
    assert(d <= a) by (nonlinear_arith)
        requires
            (a - d) * b * s == s * e1 + c * e3 + e2 * b,
            b > 0,
            s > 0,
            c >= 0,
            e1 >= 0,
            e2 >= 0,
            e3 >= 0,
    ;
}

/// `mul_value` is odd in each factor, so its magnitude is the product of the
/// magnitudes and its sign is the product of the signs.
pub proof fn lemma_mul_value_abs(a: int, b: int)
    ensures
        abs(mul_value(a, b)) == mul_value(abs(a), abs(b)),
        (a >= 0 && b >= 0) || (a <= 0 && b <= 0) ==> mul_value(a, b) >= 0,
        (a >= 0 && b <= 0) || (a <= 0 && b >= 0) ==> mul_value(a, b) <= 0,
{
    lemma_mul_value_neg_left(a, b);
    lemma_mul_value_neg_left(abs(a), b);
    lemma_mul_value_neg_left(a, abs(b));
    lemma_mul_value_neg_right(abs(a), b);
    lemma_mul_value_neg_right(abs(a), abs(b));
    lemma_mul_value_bounds(abs(a), abs(b));
}

proof fn lemma_mul_value_neg_left(a: int, b: int)
    ensures
        mul_value(-a, b) == -mul_value(a, b),
{
    let x1 = int_part(a);
    let x2 = frac_part(a);
    let y1 = int_part(b);
    let y2 = frac_part(b);
    let x3 = tdiv(x2, precision());
    let y3 = tdiv(y2, precision());
    assert(int_part(-a) == -x1);
    assert((-x1) * scale() == -(x1 * scale())) by (nonlinear_arith);
    assert(frac_part(-a) == -x2);
    assert(tdiv(-x2, precision()) == -x3);
    assert((-x1) * y1 * scale() == -(x1 * y1 * scale())) by (nonlinear_arith);
    assert((-x2) * y1 == -(x2 * y1)) by (nonlinear_arith);
    assert((-x1) * y2 == -(x1 * y2)) by (nonlinear_arith);
    assert((-x3) * y3 == -(x3 * y3)) by (nonlinear_arith);
}

proof fn lemma_mul_value_neg_right(a: int, b: int)
    ensures
        mul_value(a, -b) == -mul_value(a, b),
{
    let x1 = int_part(a);
    let x2 = frac_part(a);
    let y1 = int_part(b);
    let y2 = frac_part(b);
    let x3 = tdiv(x2, precision());
    let y3 = tdiv(y2, precision());
    assert(int_part(-b) == -y1);
    assert((-y1) * scale() == -(y1 * scale())) by (nonlinear_arith);
    assert(frac_part(-b) == -y2);
    assert(tdiv(-y2, precision()) == -y3);
    assert(x1 * (-y1) * scale() == -(x1 * y1 * scale())) by (nonlinear_arith);
    assert(x2 * (-y1) == -(x2 * y1)) by (nonlinear_arith);
    assert(x1 * (-y2) == -(x1 * y2)) by (nonlinear_arith);
    assert(x3 * (-y3) == -(x3 * y3)) by (nonlinear_arith);
}

/// Dividing a product by one of its factors gives the other factor back up
/// to truncation. With `c = a * b` and `d = c / b` as computed (both in
/// range), `d` lies between zero and `a`, and on the raw values
/// `(|a| - |d|) * |b| * FIXED_ONE < mul_error_bound() * (FIXED_ONE + |b|) + |c| * |b|`,
/// so the shortfall shrinks as `|b|` grows.
pub proof fn lemma_mul_div_round_trip(a: Fixed, b: Fixed)
    requires
        mul_res(a, b) is Ok,
        div_res(mul_res(a, b)->Ok_0, b) is Ok,
    ensures
        ({
            let c = mul_res(a, b)->Ok_0.0 as int;
            let d = div_res(mul_res(a, b)->Ok_0, b)->Ok_0.0 as int;
            &&& abs(d) <= abs(a.0 as int)
            &&& a.0 >= 0 ==> d >= 0
            &&& a.0 <= 0 ==> d <= 0
            &&& (abs(a.0 as int) - abs(d)) * abs(b.0 as int) * scale() < mul_error_bound() * (
            scale() + abs(b.0 as int)) + abs(c) * abs(b.0 as int)
        }),
{
    let s = scale();
    let ai = a.0 as int;
    let bi = b.0 as int;
    let aa = abs(ai);
    let bb = abs(bi);
    let c = mul_value(ai, bi);
    let cc = abs(c);
    lemma_mul_value_abs(ai, bi);
    lemma_mul_value_bounds(aa, bb);
    assert(mul_error_bound() > 0);
    let e1 = aa * bb - cc * s;
    if bi == FIXED_ONE {
        lemma_mul_by_one(ai);
        assert(0 <= cc * bb) by (nonlinear_arith)
            requires
                cc >= 0,
                bb >= 0,
        ;
        assert(0 < mul_error_bound() * (s + bb)) by (nonlinear_arith)
            requires
                mul_error_bound() > 0,
                s + bb > 0,
        ;
        assert((aa - aa) * bb * s == 0) by (nonlinear_arith);
    } else if c == bi {
        // The quotient is 1.0; `a` is positive, and (a - 1.0) * |b| == e1.
        assert(ai > 0);
        assert((aa - s) * bb == e1) by (nonlinear_arith)
            requires
                bb * s == aa * bb - e1,
        ;
        assert(s <= aa) by (nonlinear_arith)
            requires
                (aa - s) * bb == e1,
                e1 >= 0,
                bb > 0,
        ;
        assert((aa - s) * bb * s < mul_error_bound() * (s + bb) + bb * bb) by (nonlinear_arith)
            requires
                (aa - s) * bb == e1,
                0 <= e1 < mul_error_bound(),
                bb > 0,
                s > 0,
        ;
    } else {
        let r = reciprocal_value(bi);
        let rr = reciprocal_value(bb);
        assert(abs(r) == rr);
        assert(bi > 0 ==> r >= 0);
        assert(bi < 0 ==> r <= 0);
        lemma_div_rem(s * s, bb);
        let d = mul_value(c, r);
        lemma_mul_value_abs(c, r);
        let dd = mul_value(cc, rr);
        lemma_mul_value_bounds(cc, rr);
        lemma_round_trip_algebra(aa, bb, cc, dd, rr, e1, cc * rr - dd * s, s * s - rr * bb, s, mul_error_bound());
    }
}

/// Adds two `i128`s, detecting wraparound by sign consistency: two operands
/// of one sign cannot give a sum that is smaller in magnitude than either.
pub fn i128_add(x: i128, y: i128) -> (r: Result<i128, Errors>)
    ensures
        r == (if in_i128(x + y) {
            Ok::<i128, Errors>((x + y) as i128)
        } else {
            Err(Errors::Overflow)
        }),
{
    let z = x.wrapping_add(y);
    if x > 0 && y > 0 && !(z > x && z > y) {
        return Err(Errors::Overflow);
    }
    if x < 0 && y < 0 && !(z < x && z < y) {
        return Err(Errors::Overflow);
    }
    Ok(z)
}

/// A raw scaled unsigned value, unchanged.
impl From<u64> for Fixed {
    fn from(value: u64) -> Fixed {
        Fixed(value as i128)
    }
}

impl vstd::std_specs::convert::FromSpecImpl<u64> for Fixed {
    open spec fn obeys_from_spec() -> bool {
        true
    }

    open spec fn from_spec(value: u64) -> Fixed {
        Fixed(value as i128)
    }
}

impl Fixed {
    /// The value `1.0`.
    pub fn one() -> (r: Fixed)
        ensures
            r.0 == scale(),
    {
        Fixed(FIXED_ONE)
    }

    /// The fractional part of the value, still scaled, with its sign.
    pub fn fractional(&self) -> (r: i128)
        ensures
            r == frac_part(self.0 as int),
    {
        let whole = self.0 / FIXED_ONE;
        assert(whole == int_part(self.0 as int));
        self.0 - whole * FIXED_ONE
    }

    /// The factor by which each fractional part is reduced in `checked_mul`.
    pub fn mul_precision() -> (r: i128)
        ensures
            r == precision(),
            r * r == scale(),
    {
        MUL_PRECISION
    }

    /// The largest divisor whose reciprocal can be represented:
    /// `FIXED_ONE^2`.
    pub fn max_fixed_divisor() -> (r: i128)
        ensures
            r == scale() * scale(),
    {
        FIXED_ONE * FIXED_ONE
    }

    /// The largest raw value that can be multiplied by `FIXED_ONE`.
    pub fn max_fixed_div() -> (r: i128)
        ensures
            r == (i128::MAX as int) / scale(),
    {
        i128::MAX / FIXED_ONE
    }

    /// Exact sum, or `Overflow`.
    pub fn checked_add(self, rhs: Fixed) -> (r: Result<Fixed, Errors>)
        ensures
            r == add_res(self, rhs),
    {
        match i128_add(self.0, rhs.0) {
            Ok(z) => Ok(Fixed(z)),
            Err(e) => Err(e),
        }
    }

    /// Exact difference, or `Overflow`.
    pub fn checked_sub(self, rhs: Fixed) -> (r: Result<Fixed, Errors>)
        ensures
            r == sub_res(self, rhs),
    {
        if rhs.0 == i128::MIN {
            // `-rhs` is not representable; `self - rhs` fits only below zero.
            if self.0 < 0 {
                Ok(Fixed(self.0 - rhs.0))
            } else {
                Err(Errors::Overflow)
            }
        } else {
            self.checked_add(rhs.neg())
        }
    }

    /// Product of two scaled values: `mul_value`, or `Overflow` where that
    /// does not fit. Exact when either factor is `0` or `1.0`.
    pub fn checked_mul(self, rhs: Fixed) -> (r: Result<Fixed, Errors>)
        ensures
            r == mul_res(self, rhs),
    {
        proof {
            lemma_parts_sign(self.0 as int);
            lemma_parts_sign(rhs.0 as int);
            lemma_mul_by_zero(self.0 as int);
            lemma_mul_by_zero(rhs.0 as int);
        }
        if self.0 == 0 || rhs.0 == 0 {
            return Ok(Fixed(0));
        }
        proof {
            lemma_mul_by_one(self.0 as int);
            lemma_mul_by_one(rhs.0 as int);
        }
        if self.0 == FIXED_ONE {
            return Ok(rhs);
        }
        if rhs.0 == FIXED_ONE {
            return Ok(self);
        }
        proof {
            if in_i128(mul_value(self.0 as int, rhs.0 as int)) {
                lemma_mul_steps_fit(self.0 as int, rhs.0 as int);
            }
        }
        // self = x1 + x2, rhs = y1 + y2: integer and fractional parts.
        let x1 = self.0 / FIXED_ONE;
        let x2 = self.fractional();
        let y1 = rhs.0 / FIXED_ONE;
        let y2 = rhs.fractional();

        let x1y1 = match x1.checked_mul(y1) {
            Some(v) => v,
            None => return Err(Errors::Overflow),
        };
        // Both factors were divided by the scale; undo that once.
        let fixed_x1y1 = match x1y1.checked_mul(FIXED_ONE) {
            Some(v) => v,
            None => return Err(Errors::Overflow),
        };
        let x2y1 = match x2.checked_mul(y1) {
            Some(v) => v,
            None => return Err(Errors::Overflow),
        };
        let x1y2 = match x1.checked_mul(y2) {
            Some(v) => v,
            None => return Err(Errors::Overflow),
        };
        // Drop the lowest digits of both fractional parts so that their
        // product stays in range.
        let x2r = x2 / MUL_PRECISION;
        let y2r = y2 / MUL_PRECISION;
        let x2y2 = match x2r.checked_mul(y2r) {
            Some(v) => v,
            None => return Err(Errors::Overflow),
        };

        let result = match i128_add(fixed_x1y1, x2y1) {
            Ok(v) => v,
            Err(e) => return Err(e),
        };
        let result = match i128_add(result, x1y2) {
            Ok(v) => v,
            Err(e) => return Err(e),
        };
        let result = match i128_add(result, x2y2) {
            Ok(v) => v,
            Err(e) => return Err(e),
        };
        Ok(Fixed(result))
    }

    /// `FIXED_ONE^2 / self`, truncated toward zero; never overflows.
    pub fn reciprocal(self) -> (r: Fixed)
        requires
            self.0 != 0,
        ensures
            r.0 == reciprocal_value(self.0 as int),
    {
        let square = FIXED_ONE * FIXED_ONE;
        if self.0 > 0 {
            Fixed(square / self.0)
        } else if self.0 >= -square {
            Fixed(-(square / -self.0))
        } else {
            // A divisor beyond `square` in magnitude leaves nothing.
            proof {
                lemma_basic_div(scale() * scale(), abs(self.0 as int));
            }
            Fixed(0)
        }
    }

    /// Quotient as multiplication by the reciprocal of the divisor:
    /// `DivisionByZero` for a zero divisor, `self` for a divisor of `1.0`,
    /// `1.0` for equal operands, `DivisorTooLarge` where the reciprocal
    /// cannot be represented.
    pub fn checked_div(self, rhs: Fixed) -> (r: Result<Fixed, Errors>)
        ensures
            r == div_res(self, rhs),
    {
        if rhs.0 == 0 {
            return Err(Errors::DivisionByZero);
        }
        if rhs.0 == FIXED_ONE {
            return Ok(self);
        }
        if self.0 == rhs.0 {
            return Ok(Fixed(FIXED_ONE));
        }
        if rhs.0 > Fixed::max_fixed_divisor() || rhs.0 < -Fixed::max_fixed_divisor() {
            return Err(Errors::DivisorTooLarge);
        }
        self.checked_mul(rhs.reciprocal())
    }

    /// Exact sign flip.
    pub fn neg(self) -> (r: Fixed)
        requires
            self.0 != i128::MIN,
        ensures
            r.0 == -self.0,
    {
        Fixed(-self.0)
    }
}

} // verus!
