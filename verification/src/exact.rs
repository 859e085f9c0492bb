//! The real numbers that encodings stand for, and arithmetic that is exact on them.
//!
//! Laws about exact arithmetic say what an operation is for. Of arithmetic that rounds they hold up
//! to rounding.

use vstd::arithmetic::power2::{
    lemma_pow2_adds, lemma_pow2_pos, lemma_pow2_strictly_increases, pow2,
};
use vstd::prelude::*;

use crate::arithmetic::{
    ceilings, count_casts, counts, differences, exponentials, fast_gain_levels,
    fast_level_gains, floors, level_gains, magnitudes, narrowings, natural_logs, products,
    quotients, roundings, square_roots, sums, wide_counts, wide_differences, wide_products,
    wide_quotients, wide_square_roots, wide_sums, widenings, Arithmetic,
};
use crate::match_curve::WIDE_ONE;
use crate::match_level::WIDE_ZERO;
use crate::single::{double, single, Double, Single, ONE, THREE, TWO, ZERO};

verus! {

/// The magnitude that an encoding without its sign stands for, in units of the smallest one. The
/// lowest `digits` bits are the fraction.
pub open spec fn magnitude(bits: nat, digits: nat) -> nat {
    let exponent = bits / pow2(digits);
    let fraction = bits % pow2(digits);
    if exponent == 0 {
        fraction
    } else {
        (pow2(digits) + fraction) * pow2((exponent - 1) as nat)
    }
}

impl Single {
    /// The number that the encoding stands for.
    pub open spec fn value(self) -> real {
        let units = magnitude(self.absolute().bits as nat, 23) as int as real;
        let size = units / (pow2(149) as int as real);
        if self.is_negative() {
            -size
        } else {
            size
        }
    }
}

/// Larger encodings stand for larger magnitudes.
pub proof fn lemma_magnitude_increases(a: nat, b: nat, digits: nat)
    requires
        a < b,
    ensures
        magnitude(a, digits) < magnitude(b, digits),
{
    let unit = pow2(digits);
    lemma_pow2_pos(digits);
    let (ea, fa) = (a / unit, a % unit);
    let (eb, fb) = (b / unit, b % unit);
    vstd::arithmetic::div_mod::lemma_fundamental_div_mod(a as int, unit as int);
    vstd::arithmetic::div_mod::lemma_fundamental_div_mod(b as int, unit as int);
    assert(fa < unit && fb < unit);
    vstd::arithmetic::div_mod::lemma_div_is_ordered(a as int, b as int, unit as int);
    assert(ea <= eb);
    if ea == eb {
        assert(fa < fb);
        if ea > 0 {
            let scale = pow2((ea - 1) as nat);
            lemma_pow2_pos((ea - 1) as nat);
            assert((unit + fa) * scale < (unit + fb) * scale) by (nonlinear_arith)
                requires
                    fa < fb,
                    scale > 0,
            ;
        }
    } else {
        let scale = pow2((eb - 1) as nat);
        lemma_pow2_pos((eb - 1) as nat);
        assert((unit + fb) * scale >= unit * scale) by (nonlinear_arith)
            requires
                fb >= 0,
                scale > 0,
        ;
        if ea == 0 {
            assert(unit * scale >= unit) by (nonlinear_arith)
                requires
                    scale >= 1,
                    unit > 0,
            ;
        } else {
            let less = pow2((ea - 1) as nat);
            lemma_pow2_adds(1, (ea - 1) as nat);
            vstd::arithmetic::power2::lemma2_to64();
            assert(pow2(ea) == 2 * less);
            if ea < eb - 1 {
                lemma_pow2_strictly_increases(ea, (eb - 1) as nat);
            }
            assert(2 * less <= scale);
            lemma_pow2_pos((ea - 1) as nat);
            assert((unit + fa) * less < unit * scale) by (nonlinear_arith)
                requires
                    fa < unit,
                    2 * less <= scale,
                    less > 0,
                    unit > 0,
            ;
        }
    }
}

/// Numbers are in the order of their values.
pub proof fn lemma_order_is_by_value(a: Single, b: Single)
    requires
        a.is_finite(),
        b.is_finite(),
    ensures
        a.at_most(b) == (a.value() <= b.value()),
        a.below(b) == (a.value() < b.value()),
        a.equals(b) == (a.value() == b.value()),
{
    let (x, y) = (a.absolute().bits as nat, b.absolute().bits as nat);
    if x < y {
        lemma_magnitude_increases(x, y, 23);
    }
    if y < x {
        lemma_magnitude_increases(y, x, 23);
    }
    lemma_zero_magnitude(23);
    if x > 0 {
        lemma_magnitude_increases(0, x, 23);
    }
    if y > 0 {
        lemma_magnitude_increases(0, y, 23);
    }
    lemma_pow2_pos(149);
    let unit = pow2(149) as int as real;
    let (u, w) = (magnitude(x, 23) as int as real, magnitude(y, 23) as int as real);
    lemma_quotient_order(u, w, unit);
    lemma_quotient_order(u, 0real, unit);
    lemma_quotient_order(w, 0real, unit);
    assert(0real / unit == 0real) by (nonlinear_arith)
        requires
            unit > 0real,
    ;
}

proof fn lemma_zero_magnitude(digits: nat)
    ensures
        magnitude(0, digits) == 0,
{
    lemma_pow2_pos(digits);
    let unit = pow2(digits);
    assert(0nat / unit == 0) by (nonlinear_arith)
        requires
            unit > 0,
    ;
    assert(0nat % unit == 0) by (nonlinear_arith)
        requires
            unit > 0,
    ;
}

proof fn lemma_quotient_order(a: real, b: real, unit: real)
    requires
        unit > 0real,
    ensures
        (a / unit < b / unit) == (a < b),
        (a / unit == b / unit) == (a == b),
{
    assert((a / unit) * unit == a) by (nonlinear_arith)
        requires
            unit > 0real,
    ;
    assert((b / unit) * unit == b) by (nonlinear_arith)
        requires
            unit > 0real,
    ;
    let (p, q) = (a / unit, b / unit);
    assert(p < q ==> p * unit < q * unit) by (nonlinear_arith)
        requires
            unit > 0real,
    ;
    assert(q < p ==> q * unit < p * unit) by (nonlinear_arith)
        requires
            unit > 0real,
    ;
}

/// A number is its significand over a power of two.
pub proof fn lemma_value_of(bits: u32, significand: nat, shift: nat)
    requires
        bits < 0x8000_0000,
        shift <= 64,
        bits == (150 - shift) * 0x80_0000 + (significand - 0x80_0000),
        0x80_0000 <= significand < 0x100_0000,
    ensures
        single(bits).value() * (pow2(shift) as int as real) == significand as int as real,
        single(bits).is_finite(),
{
    vstd::arithmetic::power2::lemma2_to64();
    let exponent = (149 - shift) as nat;
    vstd::arithmetic::div_mod::lemma_fundamental_div_mod_converse(
        bits as int,
        0x80_0000,
        exponent as int + 1,
        significand - 0x80_0000,
    );
    let units = magnitude(bits as nat, 23);
    assert(units == significand * pow2(exponent));
    lemma_pow2_adds(exponent, shift);
    lemma_pow2_pos(149);
    let (whole, high, low) = (
        pow2(149) as int as real,
        pow2(exponent) as int as real,
        pow2(shift) as int as real,
    );
    lemma_product_of_casts(pow2(exponent) as int, pow2(shift) as int);
    lemma_product_of_casts(significand as int, pow2(exponent) as int);
    let u = units as int as real;
    let n = significand as int as real;
    assert(u == n * high);
    assert(whole == high * low);
    lemma_quotient_undone(u, whole);
    let v = u / whole;
    assert(v * low == n) by (nonlinear_arith)
        requires
            v * whole == n * high,
            whole == high * low,
            whole > 0real,
    ;
}

/// The product of whole numbers is the same among real numbers.
pub proof fn lemma_product_of_casts(a: int, b: int)
    ensures
        (a * b) as real == (a as real) * (b as real),
{
    assert((a * b) as real == (a as real) * (b as real)) by (nonlinear_arith);
}

/// Multiplying undoes dividing.
pub proof fn lemma_quotient_undone(a: real, b: real)
    requires
        b != 0real,
    ensures
        (a / b) * b == a,
{
    assert((a / b) * b == a) by (nonlinear_arith)
        requires
            b != 0real,
    ;
}

/// The values of the constants.
pub proof fn lemma_constants()
    ensures
        single(ZERO).value() == 0real,
        single(ONE).value() == 1real,
        single(TWO).value() == 2real,
        single(THREE).value() == 3real,
        single(ZERO).is_finite() && single(ONE).is_finite(),
        single(TWO).is_finite() && single(THREE).is_finite(),
{
    lemma_zero_magnitude(23);
    lemma_pow2_pos(149);
    let unit = pow2(149) as int as real;
    assert(0real / unit == 0real) by (nonlinear_arith)
        requires
            unit > 0real,
    ;
    vstd::arithmetic::power2::lemma2_to64();
    lemma_value_of(ONE, 0x80_0000, 23);
    assert(pow2(22) == 0x40_0000);
    assert(pow2(22) as int as real == 4194304real);
    lemma_value_of(TWO, 0x80_0000, 22);
    lemma_value_of(THREE, 0xc0_0000, 22);
}

/// Negating changes the sign of a value, and dropping the sign gives its size.
pub proof fn lemma_signs(a: Single)
    ensures
        a.negated().value() == -a.value(),
        a.negated().is_finite() == a.is_finite(),
        a.absolute().is_finite() == a.is_finite(),
        a.absolute().value() == if a.value() < 0real {
            -a.value()
        } else {
            a.value()
        },
        a.is_negative() ==> a.value() <= 0real,
        !a.is_negative() ==> a.value() >= 0real,
{
    assert(a.negated().absolute() == a.absolute());
    lemma_pow2_pos(149);
    let unit = pow2(149) as int as real;
    let units = magnitude(a.absolute().bits as nat, 23) as int as real;
    lemma_quotient_order(units, 0real, unit);
    assert(0real / unit == 0real) by (nonlinear_arith)
        requires
            unit > 0real,
    ;
}

/// The value moved to the nearer end of a range, and the larger and the smaller of two values.
pub proof fn lemma_selections(a: Single, b: Single, c: Single)
    requires
        a.is_finite(),
        b.is_finite(),
        c.is_finite(),
    ensures
        a.clamped(b, c).is_finite(),
        a.larger(b).is_finite(),
        a.smaller(b).is_finite(),
        b.value() <= c.value() ==> a.clamped(b, c).value() == if a.value() < b.value() {
            b.value()
        } else if a.value() > c.value() {
            c.value()
        } else {
            a.value()
        },
        a.larger(b).value() == if a.value() < b.value() {
            b.value()
        } else {
            a.value()
        },
        a.smaller(b).value() == if a.value() > b.value() {
            b.value()
        } else {
            a.value()
        },
{
    lemma_order_is_by_value(a, b);
    lemma_order_is_by_value(b, a);
    lemma_order_is_by_value(a, c);
    lemma_order_is_by_value(c, a);
}

/// Sums, differences, products, quotients, roots and conversions of numbers are numbers, and have
/// the exact value.
pub open spec fn is_exact<A: Arithmetic>() -> bool {
    &&& forall|a: Single, b: Single, r: Single| #[trigger]
        sums::<A>(a, b, r) && a.is_finite() && b.is_finite() ==> r.is_finite() && r.value()
            == a.value() + b.value()
    &&& forall|a: Single, b: Single, r: Single| #[trigger]
        differences::<A>(a, b, r) && a.is_finite() && b.is_finite() ==> r.is_finite() && r.value()
            == a.value() - b.value()
    &&& forall|a: Single, b: Single, r: Single| #[trigger]
        products::<A>(a, b, r) && a.is_finite() && b.is_finite() ==> r.is_finite() && r.value()
            == a.value() * b.value()
    &&& forall|a: Single, b: Single, r: Single| #[trigger]
        quotients::<A>(a, b, r) && a.is_finite() && b.is_finite() && b.value() != 0real
            ==> r.is_finite() && r.value() * b.value() == a.value()
    &&& forall|a: Single, r: Single| #[trigger]
        square_roots::<A>(a, r) && a.is_finite() && a.value() >= 0real ==> r.is_finite()
            && r.value() >= 0real && r.value() * r.value() == a.value()
    &&& forall|n: usize, r: Single| #[trigger]
        counts::<A>(n, r) ==> r.is_finite() && r.value() == n as int as real
}

/// `base` to the power of `n`.
pub open spec fn power(base: real, n: nat) -> real
    decreases n,
{
    if n == 0 {
        1real
    } else {
        base * power(base, (n - 1) as nat)
    }
}

/// `exp` turns sums into products.
#[verifier::opaque]
pub open spec fn is_exponential(exp: spec_fn(real) -> real) -> bool {
    &&& exp(0real) == 1real
    &&& forall|x: real, y: real| #![trigger exp(x), exp(y)] exp(x + y) == exp(x) * exp(y)
}

/// The exponentials of an arithmetic are the values of `exp`, which turns sums into products.
pub open spec fn exponentials_follow<A: Arithmetic>(exp: spec_fn(real) -> real) -> bool {
    &&& is_exponential(exp)
    &&& forall|a: Single, r: Single| #[trigger]
        exponentials::<A>(a, r) && a.is_finite() ==> r.is_finite() && r.value() == exp(a.value())
}

/// The exponential of a sum is the product of the exponentials.
pub proof fn lemma_exponential_of_sum(exp: spec_fn(real) -> real, x: real, y: real)
    requires
        is_exponential(exp),
    ensures
        exp(x + y) == exp(x) * exp(y),
        exp(0real) == 1real,
{
    reveal(is_exponential);
}

/// A power of an exponential is the exponential of a multiple.
pub proof fn lemma_power_of_exponential(exp: spec_fn(real) -> real, x: real, n: nat)
    requires
        is_exponential(exp),
    ensures
        power(exp(x), n) == exp((n as int as real) * x),
    decreases n,
{
    if n == 0 {
        assert(0real * x == 0real);
        lemma_exponential_of_sum(exp, x, x);
    } else {
        lemma_power_of_exponential(exp, x, (n - 1) as nat);
        let k = (n - 1) as int as real;
        assert(x + k * x == (k + 1real) * x) by (nonlinear_arith);
        assert(n as int as real == k + 1real);
        lemma_exponential_of_sum(exp, x, k * x);
    }
}

/// Products can be regrouped and reordered.
pub proof fn lemma_regroup(a: real, b: real, c: real)
    ensures
        a * (b * c) == (a * b) * c,
        a * b == b * a,
        a * (b + c) == a * b + a * c,
        a * (b - c) == a * b - a * c,
        (a + b) * c == a * c + b * c,
        (a - b) * c == a * c - b * c,
{
    assert(a * (b * c) == (a * b) * c) by (nonlinear_arith);
    assert(a * b == b * a) by (nonlinear_arith);
    assert(a * (b + c) == a * b + a * c) by (nonlinear_arith);
    assert(a * (b - c) == a * b - a * c) by (nonlinear_arith);
    assert((a + b) * c == a * c + b * c) by (nonlinear_arith);
    assert((a - b) * c == a * c - b * c) by (nonlinear_arith);
}

/// Three factors can be multiplied in any order.
pub proof fn lemma_three_factors(a: real, b: real, c: real)
    ensures
        (a * b) * c == (a * c) * b,
        (a * b) * c == (b * c) * a,
        (a * b) * c == (b * a) * c,
        (a * b) * c == (c * a) * b,
        (a * b) * c == (c * b) * a,
        (a * b) * c == a * (b * c),
        (a * b) * c == a * (c * b),
{
    lemma_regroup(a, b, c);
    lemma_regroup(b, c, a);
    lemma_regroup(a, c, b);
    lemma_regroup(c, a, b);
    lemma_regroup(c, b, a);
    lemma_regroup(a, b * c, 0real);
    assert(b * c == c * b);
    assert(a * c == c * a);
    assert(a * (c * b) == (a * c) * b);
    assert((b * c) * a == a * (b * c));
}

/// A factor other than zero can be dropped.
pub proof fn lemma_cancel(a: real, b: real, c: real)
    requires
        c != 0real,
        a * c == b * c,
    ensures
        a == b,
{
    lemma_regroup(a, b, c);
    let d = a - b;
    assert(d * c == 0real);
    assert(d == 0real) by (nonlinear_arith)
        requires
            d * c == 0real,
            c != 0real,
    ;
}

/// The sign of a product.
pub proof fn lemma_sign_of_product(a: real, b: real)
    ensures
        a > 0real && b > 0real ==> a * b > 0real,
        a >= 0real && b >= 0real ==> a * b >= 0real,
        a <= 0real && b >= 0real ==> a * b <= 0real,
        a != 0real && b != 0real ==> a * b != 0real,
        a == 0real || b == 0real ==> a * b == 0real,
{
    assert(a > 0real && b > 0real ==> a * b > 0real) by (nonlinear_arith);
    assert(a >= 0real && b >= 0real ==> a * b >= 0real) by (nonlinear_arith);
    assert(a <= 0real && b >= 0real ==> a * b <= 0real) by (nonlinear_arith);
    assert(a != 0real && b != 0real ==> a * b != 0real) by (nonlinear_arith);
    assert(a == 0real || b == 0real ==> a * b == 0real) by (nonlinear_arith);
}

/// The levels that an arithmetic gives magnitudes are the values of `db`.
pub open spec fn levels_follow<A: Arithmetic>(db: spec_fn(real) -> real) -> bool {
    forall|a: Single, r: Single| #[trigger]
        fast_gain_levels::<A>(a, r) && a.is_finite() ==> r.is_finite() && r.value() == db(
            a.value(),
        )
}

/// A whole number.
pub open spec fn whole(n: int) -> real {
    n as real
}

/// Rounding down gives the whole number at or below a number. A number that is not negative is
/// converted by dropping its fraction, as far as the result fits.
pub open spec fn floors_follow<A: Arithmetic>() -> bool {
    &&& forall|a: Single, r: Single| #[trigger]
        floors::<A>(a, r) && a.is_finite() ==> r.is_finite() && r.value() <= a.value() && a.value()
            < r.value() + 1real && exists|n: int| r.value() == #[trigger] whole(n)
    &&& forall|a: Single, r: u64| #[trigger]
        count_casts::<A>(a, r) && a.is_finite() && a.value() >= 0real ==> r as int as real
            <= a.value() && (a.value() < r as int as real + 1real || r == u64::MAX)
}

/// The magnitude of a complex number is the root of the sum of the squares of its parts.
pub open spec fn magnitudes_follow<A: Arithmetic>() -> bool {
    forall|re: Single, im: Single, r: Single| #[trigger]
        magnitudes::<A>(re, im, r) && re.is_finite() && im.is_finite() ==> r.is_finite()
            && r.value() >= 0real && r.value() * r.value() == re.value() * re.value() + im.value()
            * im.value()
}

/// Rounding up gives the whole number at or above a number.
pub open spec fn ceilings_follow<A: Arithmetic>() -> bool {
    forall|a: Single, r: Single| #[trigger]
        ceilings::<A>(a, r) && a.is_finite() ==> r.is_finite() && a.value() <= r.value()
            && r.value() < a.value() + 1real && exists|n: int| r.value() == #[trigger] whole(n)
}

/// Rounding gives a whole number that is at most one half away.
pub open spec fn roundings_follow<A: Arithmetic>() -> bool {
    forall|a: Single, r: Single| #[trigger]
        roundings::<A>(a, r) && a.is_finite() ==> r.is_finite() && 2real * (r.value() - a.value())
            <= 1real && 2real * (a.value() - r.value()) <= 1real && exists|n: int|
            r.value() == #[trigger] whole(n)
}

/// The linear gains that an arithmetic gives levels are the values of `exp`, which turns sums into
/// products.
pub open spec fn level_gains_follow<A: Arithmetic>(exp: spec_fn(real) -> real) -> bool {
    &&& is_exponential(exp)
    &&& forall|a: Single, r: Single| #[trigger]
        fast_level_gains::<A>(a, r) && a.is_finite() ==> r.is_finite() && r.value() == exp(
            a.value(),
        )
    &&& forall|a: Single, r: Single| #[trigger]
        level_gains::<A>(a, r) && a.is_finite() ==> r.is_finite() && r.value() == exp(a.value())
}

/// The logarithms that an arithmetic gives positive numbers are the values of `ln`.
pub open spec fn logs_follow<A: Arithmetic>(ln: spec_fn(real) -> real) -> bool {
    forall|a: Single, r: Single| #[trigger]
        natural_logs::<A>(a, r) && a.is_finite() && a.value() > 0real ==> r.is_finite()
            && r.value() == ln(a.value())
}

impl Double {
    /// The number that the encoding stands for.
    pub open spec fn value(self) -> real {
        let units = magnitude(self.absolute().bits as nat, 52) as int as real;
        let size = units / (pow2(1074) as int as real);
        if self.is_negative() {
            -size
        } else {
            size
        }
    }
}

/// Numbers are in the order of their values.
pub proof fn lemma_wide_order_is_by_value(a: Double, b: Double)
    requires
        a.is_finite(),
        b.is_finite(),
    ensures
        a.at_most(b) == (a.value() <= b.value()),
        a.below(b) == (a.value() < b.value()),
        a.absolute().value() == (if a.value() < 0real {
            -a.value()
        } else {
            a.value()
        }),
{
    let (x, y) = (a.absolute().bits as nat, b.absolute().bits as nat);
    if x < y {
        lemma_magnitude_increases(x, y, 52);
    }
    if y < x {
        lemma_magnitude_increases(y, x, 52);
    }
    lemma_zero_magnitude(52);
    if x > 0 {
        lemma_magnitude_increases(0, x, 52);
    }
    if y > 0 {
        lemma_magnitude_increases(0, y, 52);
    }
    lemma_pow2_pos(1074);
    let unit = pow2(1074) as int as real;
    let (u, w) = (magnitude(x, 52) as int as real, magnitude(y, 52) as int as real);
    lemma_quotient_order(u, w, unit);
    lemma_quotient_order(u, 0real, unit);
    lemma_quotient_order(w, 0real, unit);
    assert(0real / unit == 0real) by (nonlinear_arith)
        requires
            unit > 0real,
    ;
}

/// The values of the constants.
pub proof fn lemma_wide_constants()
    ensures
        double(WIDE_ZERO).value() == 0real,
        double(WIDE_ZERO).is_finite(),
        double(WIDE_ONE).value() == 1real,
        double(WIDE_ONE).is_finite(),
{
    lemma_zero_magnitude(52);
    lemma_pow2_pos(1074);
    let unit = pow2(1074) as int as real;
    assert(0real / unit == 0real) by (nonlinear_arith)
        requires
            unit > 0real,
    ;
    vstd::arithmetic::power2::lemma2_to64();
    lemma_pow2_adds(32, 20);
    assert(pow2(52) == 0x10_0000_0000_0000);
    vstd::arithmetic::div_mod::lemma_fundamental_div_mod_converse(
        WIDE_ONE as int,
        0x10_0000_0000_0000,
        1023,
        0,
    );
    lemma_pow2_adds(52, 1022);
    assert(magnitude(WIDE_ONE as nat, 52) == pow2(1074));
    lemma_quotient_undone(unit, unit);
    lemma_cancel(unit / unit, 1real, unit);
}

/// Operations on wide numbers, and conversions to and from them, have the exact value.
pub open spec fn is_wide_exact<A: Arithmetic>() -> bool {
    &&& forall|a: Single, r: Double| #[trigger]
        widenings::<A>(a, r) && a.is_finite() ==> r.is_finite() && r.value() == a.value()
    &&& forall|a: Double, r: Single| #[trigger]
        narrowings::<A>(a, r) && a.is_finite() ==> r.is_finite() && r.value() == a.value()
    &&& forall|n: u64, r: Double| #[trigger]
        wide_counts::<A>(n, r) ==> r.is_finite() && r.value() == n as int as real
    &&& forall|a: Double, b: Double, r: Double| #[trigger]
        wide_sums::<A>(a, b, r) && a.is_finite() && b.is_finite() ==> r.is_finite() && r.value()
            == a.value() + b.value()
    &&& forall|a: Double, b: Double, r: Double| #[trigger]
        wide_differences::<A>(a, b, r) && a.is_finite() && b.is_finite() ==> r.is_finite()
            && r.value() == a.value() - b.value()
    &&& forall|a: Double, b: Double, r: Double| #[trigger]
        wide_products::<A>(a, b, r) && a.is_finite() && b.is_finite() ==> r.is_finite()
            && r.value() == a.value() * b.value()
    &&& forall|a: Double, b: Double, r: Double| #[trigger]
        wide_quotients::<A>(a, b, r) && a.is_finite() && b.is_finite() && b.value() != 0real
            ==> r.is_finite() && r.value() * b.value() == a.value()
    &&& forall|a: Double, r: Double| #[trigger]
        wide_square_roots::<A>(a, r) && a.is_finite() && a.value() >= 0real ==> r.is_finite()
            && r.value() >= 0real && r.value() * r.value() == a.value()
}

} // verus!
