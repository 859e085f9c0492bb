//! The operations that compute new floating-point values.

use vstd::prelude::*;

use crate::single::{single, Double, Single, ONE, ZERO};

verus! {

/// The floating-point unit that the library computes with.
///
/// Nothing is assumed of any operation. Where a contract depends on a computed value, it says
/// which operation was applied to which operands, through the relations below. Laws that hold only
/// of operations with some property name it as a condition.
pub trait Arithmetic {
    /// `a + b`.
    fn sum(a: Single, b: Single) -> Single;

    /// `a - b`.
    fn difference(a: Single, b: Single) -> Single;

    /// `a * b`.
    fn product(a: Single, b: Single) -> Single;

    /// `a / b`.
    fn quotient(a: Single, b: Single) -> Single;

    /// The square root of `a`.
    fn square_root(a: Single) -> Single;

    /// The natural logarithm of `a`.
    fn natural_log(a: Single) -> Single;

    /// The number `e` raised to `a`.
    fn exponential(a: Single) -> Single;

    /// `a` rounded to the nearest integer, half-way cases away from zero.
    fn rounded(a: Single) -> Single;

    /// The largest integer that is not above `a`.
    fn floored(a: Single) -> Single;

    /// The smallest integer that is not below `a`.
    fn ceiled(a: Single) -> Single;

    /// The value nearest to `n`.
    fn from_count(n: usize) -> Single;

    /// `a` without its fraction, moved into the range of the result. No number gives zero.
    fn to_count(a: Single) -> u64;

    /// The absolute value of the complex number `re + i * im`.
    fn magnitude(re: Single, im: Single) -> Single;

    /// The level of the linear gain `a`, in decibels.
    fn gain_to_db(a: Single) -> Single;

    /// The level of the linear gain `a` in decibels, approximated and never below -100 dB.
    fn gain_to_db_fast_epsilon(a: Single) -> Single;

    /// The linear gain for a level of `a` decibels.
    fn db_to_gain(a: Single) -> Single;

    /// The linear gain for a level of `a` decibels, approximated.
    fn db_to_gain_fast(a: Single) -> Single;

    /// `a` as a binary64 value.
    fn widened(a: Single) -> Double;

    /// The binary32 value nearest to `a`.
    fn narrowed(a: Double) -> Single;

    /// The binary64 value nearest to `n`.
    fn wide_count(n: u64) -> Double;

    /// `a + b` in binary64.
    fn wide_sum(a: Double, b: Double) -> Double;

    /// `a - b` in binary64.
    fn wide_difference(a: Double, b: Double) -> Double;

    /// `a * b` in binary64.
    fn wide_product(a: Double, b: Double) -> Double;

    /// `a / b` in binary64.
    fn wide_quotient(a: Double, b: Double) -> Double;

    /// The square root of `a` in binary64.
    fn wide_square_root(a: Double) -> Double;

    /// The decimal text of `a`.
    fn text(a: Single) -> String;

    /// The decimal text of `a` with two digits after the decimal point.
    fn text_with_two_decimals(a: Single) -> String;

    /// The decimal text of `a` with its sign and two digits after the decimal point.
    fn text_with_sign(a: Single) -> String;

    /// The value nearest to the number that a text holds, if it holds one.
    fn parsed(text: &str) -> Option<Single>;
}

/// `r` is what [`Arithmetic::sum`] gives for `a` and `b`.
#[verifier::inline]
pub open spec fn sums<A: Arithmetic>(a: Single, b: Single, r: Single) -> bool {
    call_ensures(A::sum, (a, b), r)
}

/// `r` is what [`Arithmetic::difference`] gives for `a` and `b`.
#[verifier::inline]
pub open spec fn differences<A: Arithmetic>(a: Single, b: Single, r: Single) -> bool {
    call_ensures(A::difference, (a, b), r)
}

/// `r` is what [`Arithmetic::product`] gives for `a` and `b`.
#[verifier::inline]
pub open spec fn products<A: Arithmetic>(a: Single, b: Single, r: Single) -> bool {
    call_ensures(A::product, (a, b), r)
}

/// `r` is what [`Arithmetic::quotient`] gives for `a` and `b`.
#[verifier::inline]
pub open spec fn quotients<A: Arithmetic>(a: Single, b: Single, r: Single) -> bool {
    call_ensures(A::quotient, (a, b), r)
}

/// `r` is what [`Arithmetic::square_root`] gives for `a`.
#[verifier::inline]
pub open spec fn square_roots<A: Arithmetic>(a: Single, r: Single) -> bool {
    call_ensures(A::square_root, (a,), r)
}

/// `r` is what [`Arithmetic::natural_log`] gives for `a`.
#[verifier::inline]
pub open spec fn natural_logs<A: Arithmetic>(a: Single, r: Single) -> bool {
    call_ensures(A::natural_log, (a,), r)
}

/// `r` is what [`Arithmetic::exponential`] gives for `a`.
#[verifier::inline]
pub open spec fn exponentials<A: Arithmetic>(a: Single, r: Single) -> bool {
    call_ensures(A::exponential, (a,), r)
}

/// `r` is what [`Arithmetic::rounded`] gives for `a`.
#[verifier::inline]
pub open spec fn roundings<A: Arithmetic>(a: Single, r: Single) -> bool {
    call_ensures(A::rounded, (a,), r)
}

/// `r` is what [`Arithmetic::floored`] gives for `a`.
#[verifier::inline]
pub open spec fn floors<A: Arithmetic>(a: Single, r: Single) -> bool {
    call_ensures(A::floored, (a,), r)
}

/// `r` is what [`Arithmetic::ceiled`] gives for `a`.
#[verifier::inline]
pub open spec fn ceilings<A: Arithmetic>(a: Single, r: Single) -> bool {
    call_ensures(A::ceiled, (a,), r)
}

/// `r` is what [`Arithmetic::from_count`] gives for `n`.
#[verifier::inline]
pub open spec fn counts<A: Arithmetic>(n: usize, r: Single) -> bool {
    call_ensures(A::from_count, (n,), r)
}

/// `r` is what [`Arithmetic::to_count`] gives for `a`.
#[verifier::inline]
pub open spec fn count_casts<A: Arithmetic>(a: Single, r: u64) -> bool {
    call_ensures(A::to_count, (a,), r)
}

/// `r` is what [`Arithmetic::magnitude`] gives for `re` and `im`.
#[verifier::inline]
pub open spec fn magnitudes<A: Arithmetic>(re: Single, im: Single, r: Single) -> bool {
    call_ensures(A::magnitude, (re, im), r)
}

/// `r` is what [`Arithmetic::gain_to_db`] gives for `a`.
#[verifier::inline]
pub open spec fn gain_levels<A: Arithmetic>(a: Single, r: Single) -> bool {
    call_ensures(A::gain_to_db, (a,), r)
}

/// `r` is what [`Arithmetic::gain_to_db_fast_epsilon`] gives for `a`.
#[verifier::inline]
pub open spec fn fast_gain_levels<A: Arithmetic>(a: Single, r: Single) -> bool {
    call_ensures(A::gain_to_db_fast_epsilon, (a,), r)
}

/// `r` is what [`Arithmetic::db_to_gain`] gives for `a`.
#[verifier::inline]
pub open spec fn level_gains<A: Arithmetic>(a: Single, r: Single) -> bool {
    call_ensures(A::db_to_gain, (a,), r)
}

/// `r` is what [`Arithmetic::db_to_gain_fast`] gives for `a`.
#[verifier::inline]
pub open spec fn fast_level_gains<A: Arithmetic>(a: Single, r: Single) -> bool {
    call_ensures(A::db_to_gain_fast, (a,), r)
}

/// `r` is what [`Arithmetic::widened`] gives for `a`.
#[verifier::inline]
pub open spec fn widenings<A: Arithmetic>(a: Single, r: Double) -> bool {
    call_ensures(A::widened, (a,), r)
}

/// `r` is what [`Arithmetic::narrowed`] gives for `a`.
#[verifier::inline]
pub open spec fn narrowings<A: Arithmetic>(a: Double, r: Single) -> bool {
    call_ensures(A::narrowed, (a,), r)
}

/// `r` is what [`Arithmetic::wide_count`] gives for `n`.
#[verifier::inline]
pub open spec fn wide_counts<A: Arithmetic>(n: u64, r: Double) -> bool {
    call_ensures(A::wide_count, (n,), r)
}

/// `r` is what [`Arithmetic::wide_sum`] gives for `a` and `b`.
#[verifier::inline]
pub open spec fn wide_sums<A: Arithmetic>(a: Double, b: Double, r: Double) -> bool {
    call_ensures(A::wide_sum, (a, b), r)
}

/// `r` is what [`Arithmetic::wide_difference`] gives for `a` and `b`.
#[verifier::inline]
pub open spec fn wide_differences<A: Arithmetic>(a: Double, b: Double, r: Double) -> bool {
    call_ensures(A::wide_difference, (a, b), r)
}

/// `r` is what [`Arithmetic::wide_product`] gives for `a` and `b`.
#[verifier::inline]
pub open spec fn wide_products<A: Arithmetic>(a: Double, b: Double, r: Double) -> bool {
    call_ensures(A::wide_product, (a, b), r)
}

/// `r` is what [`Arithmetic::wide_quotient`] gives for `a` and `b`.
#[verifier::inline]
pub open spec fn wide_quotients<A: Arithmetic>(a: Double, b: Double, r: Double) -> bool {
    call_ensures(A::wide_quotient, (a, b), r)
}

/// `r` is what [`Arithmetic::wide_square_root`] gives for `a`.
#[verifier::inline]
pub open spec fn wide_square_roots<A: Arithmetic>(a: Double, r: Double) -> bool {
    call_ensures(A::wide_square_root, (a,), r)
}

/// `r` is what [`Arithmetic::text`] gives for `a`.
#[verifier::inline]
pub open spec fn texts<A: Arithmetic>(a: Single, r: String) -> bool {
    call_ensures(A::text, (a,), r)
}

/// `r` is what [`Arithmetic::text_with_two_decimals`] gives for `a`.
#[verifier::inline]
pub open spec fn short_texts<A: Arithmetic>(a: Single, r: String) -> bool {
    call_ensures(A::text_with_two_decimals, (a,), r)
}

/// `r` is what [`Arithmetic::text_with_sign`] gives for `a`.
#[verifier::inline]
pub open spec fn signed_texts<A: Arithmetic>(a: Single, r: String) -> bool {
    call_ensures(A::text_with_sign, (a,), r)
}

/// `r` is what [`Arithmetic::parsed`] gives for `text`.
#[verifier::inline]
pub open spec fn parses<A: Arithmetic>(text: &str, r: Option<Single>) -> bool {
    call_ensures(A::parsed, (text,), r)
}

/// Sums of numbers keep the order of their operands, and move away from the first one in the
/// direction that the sign of the second one gives. Only numbers add up to a number. This holds of
/// sums that are rounded to the nearest value.
pub open spec fn sums_keep_order<A: Arithmetic>() -> bool {
    &&& forall|a: Single, b: Single, r: Single| #[trigger]
        sums::<A>(a, b, r) && !r.is_nan() ==> {
            &&& !a.is_nan() && !b.is_nan()
            &&& single(ZERO).at_most(b) ==> a.at_most(r)
            &&& b.at_most(single(ZERO)) ==> r.at_most(a)
        }
    &&& forall|a: Single, b: Single, c: Single, d: Single, r: Single, q: Single|
        #![trigger sums::<A>(a, b, r), sums::<A>(c, d, q)]
        sums::<A>(a, b, r) && sums::<A>(c, d, q) && !r.is_nan() && !q.is_nan() && a.at_most(c)
            && b.at_most(d) ==> r.at_most(q)
}

/// A sum with the negated first operand is the negated difference, and a number and its opposite add
/// up to zero. This holds of sums and differences that are rounded to the nearest value.
pub open spec fn sums_mirror_differences<A: Arithmetic>() -> bool {
    &&& forall|a: Single, b: Single, c: Single, d: Single, r: Single, q: Single|
        #![trigger sums::<A>(a, b, r), differences::<A>(c, d, q)]
        sums::<A>(a, b, r) && differences::<A>(c, d, q) && !r.is_nan() && !q.is_nan() && a.equals(
            c.negated(),
        ) && b.equals(d) ==> r.equals(q.negated())
    &&& forall|a: Single, b: Single, r: Single| #[trigger]
        sums::<A>(a, b, r) && !r.is_nan() && b.equals(a.negated()) ==> r.equals(single(ZERO))
}

/// Differences of numbers grow with the first operand and shrink with the second one, and have the
/// sign that the order of their operands gives. Only numbers have a difference that is one. This
/// holds of differences that are rounded to the nearest value.
pub open spec fn differences_keep_order<A: Arithmetic>() -> bool {
    &&& forall|a: Single, b: Single, r: Single| #[trigger]
        differences::<A>(a, b, r) && !r.is_nan() ==> {
            &&& !a.is_nan() && !b.is_nan()
            &&& b.at_most(a) ==> single(ZERO).at_most(r)
            &&& a.at_most(b) ==> r.at_most(single(ZERO))
            &&& single(ZERO).at_most(b) ==> r.at_most(a)
            &&& b.at_most(single(ZERO)) ==> a.at_most(r)
        }
    &&& forall|a: Single, b: Single, c: Single, d: Single, r: Single, q: Single|
        #![trigger differences::<A>(a, b, r), differences::<A>(c, d, q)]
        differences::<A>(a, b, r) && differences::<A>(c, d, q) && !r.is_nan() && !q.is_nan()
            && a.at_most(c) && d.at_most(b) ==> r.at_most(q)
}

/// Two values lie on the same side of zero. Zero lies on both.
pub open spec fn have_same_sign(a: Single, b: Single) -> bool {
    ||| single(ZERO).at_most(a) && single(ZERO).at_most(b)
    ||| a.at_most(single(ZERO)) && b.at_most(single(ZERO))
}

/// Products of numbers follow the rule of signs, grow in magnitude with their operands, and are not
/// below an operand in magnitude where the other one is at least one. Only numbers have a product
/// that is one. This holds of products that are rounded to the nearest value.
pub open spec fn products_keep_order<A: Arithmetic>() -> bool {
    &&& forall|a: Single, b: Single, r: Single| #[trigger]
        products::<A>(a, b, r) && !r.is_nan() ==> {
            &&& !a.is_nan() && !b.is_nan()
            &&& have_same_sign(a, b) ==> single(ZERO).at_most(r)
            &&& have_same_sign(a, b.negated()) ==> r.at_most(single(ZERO))
            &&& single(ONE).at_most(a) ==> b.absolute().at_most(r.absolute())
            &&& single(ONE).at_most(b) ==> a.absolute().at_most(r.absolute())
        }
    &&& forall|a: Single, b: Single, c: Single, d: Single, r: Single, q: Single|
        #![trigger products::<A>(a, b, r), products::<A>(c, d, q)]
        products::<A>(a, b, r) && products::<A>(c, d, q) && !r.is_nan() && !q.is_nan()
            && a.absolute().at_most(c.absolute()) && b.absolute().at_most(d.absolute())
            ==> r.absolute().at_most(q.absolute())
}

/// Quotients of numbers by a positive one grow with the dividend and keep its sign. Where it is not
/// negative they shrink with the divisor, and a divisor of at least one does not enlarge it. Only
/// numbers have a quotient that is one. This holds of
/// quotients that are rounded to the nearest value.
pub open spec fn quotients_keep_order<A: Arithmetic>() -> bool {
    &&& forall|a: Single, b: Single, r: Single| #[trigger]
        quotients::<A>(a, b, r) && !r.is_nan() ==> {
            &&& !a.is_nan() && !b.is_nan()
            &&& single(ZERO).below(b) && single(ZERO).at_most(a) ==> single(ZERO).at_most(r)
            &&& single(ZERO).below(b) && a.at_most(single(ZERO)) ==> r.at_most(single(ZERO))
            &&& single(ONE).at_most(b) && single(ZERO).at_most(a) ==> r.at_most(a)
        }
    &&& forall|a: Single, b: Single, c: Single, r: Single, q: Single|
        #![trigger quotients::<A>(a, b, r), quotients::<A>(c, b, q)]
        quotients::<A>(a, b, r) && quotients::<A>(c, b, q) && !r.is_nan() && !q.is_nan()
            && single(ZERO).below(b) && a.at_most(c) ==> r.at_most(q)
    &&& forall|a: Single, b: Single, c: Single, r: Single, q: Single|
        #![trigger quotients::<A>(a, b, r), quotients::<A>(a, c, q)]
        quotients::<A>(a, b, r) && quotients::<A>(a, c, q) && !r.is_nan() && !q.is_nan()
            && single(ZERO).at_most(a) && single(ZERO).below(b) && b.at_most(c) ==> q.at_most(r)
}

/// Numbers of at least one have positive quotients by positive numbers. This holds of quotients
/// that are rounded to the nearest value.
pub open spec fn quotients_stay_positive<A: Arithmetic>() -> bool {
    forall|a: Single, b: Single, r: Single| #[trigger]
        quotients::<A>(a, b, r) && !r.is_nan() && single(ONE).at_most(a) && single(ZERO).below(b)
            && b.is_finite() ==> single(ZERO).below(r)
}

/// Counts keep their order as numbers, and those of at least one are at least one. This holds of
/// conversions that are rounded to the nearest value.
pub open spec fn counts_keep_order<A: Arithmetic>() -> bool {
    &&& forall|n: usize, r: Single| #[trigger]
        counts::<A>(n, r) && n > 0 ==> r.is_finite() && single(ONE).at_most(r)
    &&& forall|n: usize, m: usize, r: Single, q: Single|
        #![trigger counts::<A>(n, r), counts::<A>(m, q)]
        counts::<A>(n, r) && counts::<A>(m, q) && n <= m ==> r.at_most(q)
}

/// Roots keep the order of numbers that are not negative. Only numbers have a root that is one. This
/// holds of roots that are rounded to the nearest value.
pub open spec fn roots_keep_order<A: Arithmetic>() -> bool {
    &&& forall|a: Single, r: Single| #[trigger]
        square_roots::<A>(a, r) && !r.is_nan() ==> !a.is_nan()
    &&& forall|a: Single, b: Single, r: Single, q: Single|
        #![trigger square_roots::<A>(a, r), square_roots::<A>(b, q)]
        square_roots::<A>(a, r) && square_roots::<A>(b, q) && !r.is_nan() && !q.is_nan()
            && a.at_most(b) ==> r.at_most(q)
}

/// The same operands always have the same sum. This holds of any sums that are computed from their
/// operands alone.
pub open spec fn sums_are_fixed<A: Arithmetic>() -> bool {
    forall|a: Single, b: Single, r: Single, q: Single|
        #![trigger sums::<A>(a, b, r), sums::<A>(a, b, q)]
        sums::<A>(a, b, r) && sums::<A>(a, b, q) ==> r == q
}

} // verus!
