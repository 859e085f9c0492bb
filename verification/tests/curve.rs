use polarity_sc_dark::arithmetic::Arithmetic;
use polarity_sc_dark::curve::{
    no_points, Curve, CurveParams, CurvePoint, MAX_THRESHOLD_CURVE_POINTS,
};
use polarity_sc_dark::single::{double, single, Double, Single};

/// Computes with the machine's own floating-point unit.
struct Hardware;

fn s(value: f32) -> Single {
    single(value.to_bits())
}

fn f(value: Single) -> f32 {
    f32::from_bits(value.bits)
}

fn d(value: f64) -> Double {
    double(value.to_bits())
}

fn w(value: Double) -> f64 {
    f64::from_bits(value.bits)
}

impl Arithmetic for Hardware {
    fn sum(a: Single, b: Single) -> Single {
        s(f(a) + f(b))
    }

    fn difference(a: Single, b: Single) -> Single {
        s(f(a) - f(b))
    }

    fn product(a: Single, b: Single) -> Single {
        s(f(a) * f(b))
    }

    fn quotient(a: Single, b: Single) -> Single {
        s(f(a) / f(b))
    }

    fn square_root(a: Single) -> Single {
        s(f(a).sqrt())
    }

    fn natural_log(a: Single) -> Single {
        s(f(a).ln())
    }

    fn exponential(a: Single) -> Single {
        s(f(a).exp())
    }

    fn rounded(a: Single) -> Single {
        s(f(a).round())
    }

    fn floored(a: Single) -> Single {
        s(f(a).floor())
    }

    fn ceiled(a: Single) -> Single {
        s(f(a).ceil())
    }

    fn from_count(n: usize) -> Single {
        s(n as f32)
    }

    fn to_count(a: Single) -> u64 {
        f(a) as u64
    }

    fn magnitude(re: Single, im: Single) -> Single {
        s(f(re).hypot(f(im)))
    }

    fn gain_to_db(a: Single) -> Single {
        s(f(a).max(1e-5).log10() * 20.0)
    }

    fn gain_to_db_fast_epsilon(a: Single) -> Single {
        s(f(a).max(1e-5).ln() * (std::f32::consts::LOG10_E * 20.0))
    }

    fn db_to_gain(a: Single) -> Single {
        if f(a) > -100.0 {
            s(10.0f32.powf(f(a) * 0.05))
        } else {
            s(0.0)
        }
    }

    fn db_to_gain_fast(a: Single) -> Single {
        s((f(a) * (std::f32::consts::LN_10 / 20.0)).exp())
    }

    fn widened(a: Single) -> Double {
        d(f(a) as f64)
    }

    fn narrowed(a: Double) -> Single {
        s(w(a) as f32)
    }

    fn wide_count(n: u64) -> Double {
        d(n as f64)
    }

    fn wide_sum(a: Double, b: Double) -> Double {
        d(w(a) + w(b))
    }

    fn wide_difference(a: Double, b: Double) -> Double {
        d(w(a) - w(b))
    }

    fn wide_product(a: Double, b: Double) -> Double {
        d(w(a) * w(b))
    }

    fn wide_quotient(a: Double, b: Double) -> Double {
        d(w(a) / w(b))
    }

    fn wide_square_root(a: Double) -> Double {
        d(w(a).sqrt())
    }

    fn text(a: Single) -> String {
        format!("{}", f(a))
    }

    fn text_with_two_decimals(a: Single) -> String {
        format!("{:.2}", f(a))
    }

    fn text_with_sign(a: Single) -> String {
        format!("{:+.2}", f(a))
    }

    fn parsed(text: &str) -> Option<Single> {
        text.parse::<f32>().ok().map(s)
    }
}

fn params_with_points(points: [CurvePoint; MAX_THRESHOLD_CURVE_POINTS]) -> CurveParams {
    CurveParams {
        intercept: s(-12.0),
        center_frequency: s(1_000.0),
        slope: s(0.0),
        curve: s(0.0),
        points,
    }
}

fn point(frequency: f32, offset_db: f32) -> CurvePoint {
    CurvePoint { enabled: true, frequency: s(frequency), offset_db: s(offset_db) }
}

fn offset_at(params: &CurveParams, frequency: f32) -> f32 {
    let curve = Curve::new::<Hardware>(params);
    f(curve.point_offset_ln::<Hardware>(s(frequency.ln())))
}

#[test]
fn no_points_uses_legacy_curve() {
    let params = CurveParams {
        intercept: s(-12.0),
        center_frequency: s(1_000.0),
        slope: s(2.0),
        curve: s(1.5),
        points: [CurvePoint::default(); MAX_THRESHOLD_CURVE_POINTS],
    };
    let curve = Curve::new::<Hardware>(&params);
    let ln_freq = s(2_000.0f32.ln());

    assert_eq!(
        f(curve.evaluate_ln::<Hardware>(ln_freq)),
        f(curve.evaluate_base_ln::<Hardware>(ln_freq))
    );
}

#[test]
fn one_point_applies_constant_offset() {
    let mut points = [CurvePoint::default(); MAX_THRESHOLD_CURVE_POINTS];
    points[0] = point(1_000.0, 6.0);
    let params = params_with_points(points);

    assert_eq!(offset_at(&params, 100.0), 6.0);
    assert_eq!(offset_at(&params, 10_000.0), 6.0);
}

#[test]
fn points_do_not_need_to_be_sorted() {
    let mut points = [CurvePoint::default(); MAX_THRESHOLD_CURVE_POINTS];
    points[0] = point(8_000.0, 12.0);
    points[1] = point(500.0, -12.0);
    let params = params_with_points(points);

    assert_eq!(offset_at(&params, 500.0), -12.0);
    assert_eq!(offset_at(&params, 8_000.0), 12.0);
}

#[test]
fn disabled_points_are_ignored() {
    let mut points = [CurvePoint::default(); MAX_THRESHOLD_CURVE_POINTS];
    points[0] = CurvePoint { enabled: false, frequency: s(1_000.0), offset_db: s(24.0) };
    let params = params_with_points(points);

    assert_eq!(offset_at(&params, 1_000.0), 0.0);
}

#[test]
fn point_offsets_clamp_to_edge_points() {
    let mut points = [CurvePoint::default(); MAX_THRESHOLD_CURVE_POINTS];
    points[0] = point(500.0, -9.0);
    points[1] = point(8_000.0, 9.0);
    let params = params_with_points(points);

    assert_eq!(offset_at(&params, 100.0), -9.0);
    assert_eq!(offset_at(&params, 20_000.0), 9.0);
}

#[test]
fn legacy_curve_still_affects_curve_without_points() {
    let flat_params = CurveParams {
        intercept: s(-12.0),
        center_frequency: s(1_000.0),
        slope: s(0.0),
        curve: s(0.0),
        points: [CurvePoint::default(); MAX_THRESHOLD_CURVE_POINTS],
    };
    let curved_params = CurveParams { curve: s(6.0), ..flat_params };
    let ln_freq = s(4_000.0f32.ln());

    assert_ne!(
        f(Curve::new::<Hardware>(&flat_params).evaluate_ln::<Hardware>(ln_freq)),
        f(Curve::new::<Hardware>(&curved_params).evaluate_ln::<Hardware>(ln_freq))
    );
}

#[test]
fn the_quadratic_is_evaluated_around_its_center() {
    let params = CurveParams {
        intercept: s(-12.0),
        center_frequency: s(1.0),
        slope: s(2.0),
        curve: s(1.5),
        points: no_points(),
    };
    let curve = Curve::new::<Hardware>(&params);

    // ln(1) = 0, so x is the argument itself: -12 + 2 * 3 + 1.5 * 9
    assert_eq!(f(curve.evaluate_base_ln::<Hardware>(s(3.0))), 7.5);
}

#[test]
fn offsets_between_points_are_interpolated_smoothly() {
    let mut points = no_points();
    points[3] = point(100.0, 0.0);
    points[6] = point(10_000.0, 10.0);
    let params = params_with_points(points);

    assert!((offset_at(&params, 1_000.0) - 5.0).abs() < 1.0e-4);
    // A quarter of the way: 10 * (3/16 - 2/64)
    let quarter = (100.0f32.ln() * 0.75 + 10_000.0f32.ln() * 0.25).exp();
    assert!((offset_at(&params, quarter) - 1.5625).abs() < 1.0e-4);
}

#[test]
fn points_that_are_no_numbers_are_ignored() {
    let mut points = no_points();
    points[0] = point(f32::NAN, 6.0);
    points[1] = point(1_000.0, f32::INFINITY);
    let params = params_with_points(points);

    assert_eq!(offset_at(&params, 1_000.0), 0.0);
    assert!(!points[0].is_usable());
    assert_eq!(f(point(5.0, 0.0).clamped_frequency()), 30.0);
    assert_eq!(f(point(50_000.0, 0.0).clamped_frequency()), 22_000.0);
}

#[test]
fn the_order_of_points_does_not_matter() {
    let mut points = no_points();
    points[0] = point(200.0, 3.0);
    points[1] = point(2_000.0, -6.0);
    points[2] = point(9_000.0, 12.0);
    let mut reordered = no_points();
    reordered[7] = points[0];
    reordered[2] = points[1];
    reordered[4] = points[2];
    let params = params_with_points(points);
    let reordered_params = params_with_points(reordered);

    for frequency in [50.0, 200.0, 700.0, 2_000.0, 5_000.0, 9_000.0, 18_000.0] {
        assert_eq!(offset_at(&params, frequency), offset_at(&reordered_params, frequency));
    }
}

#[test]
fn curves_without_a_slope_bend_away_from_their_center() {
    for curve in [2.5f32, -2.5] {
        let params = CurveParams {
            intercept: s(-12.0),
            center_frequency: s(1_000.0),
            slope: s(0.0),
            curve: s(curve),
            points: no_points(),
        };
        let curve_at_center = Curve::new::<Hardware>(&params);
        let center = f(curve_at_center.ln_center_frequency);
        let mut distance = 0.0f32;
        for step in 1..=16 {
            let x = step as f32 * 0.25;
            let above = f(curve_at_center.evaluate_base_ln::<Hardware>(s(center + x)));
            let below = f(curve_at_center.evaluate_base_ln::<Hardware>(s(center - x)));
            assert!((above - below).abs() < 1.0e-4);
            assert_eq!(above > -12.0, curve > 0.0);
            assert_eq!(below > -12.0, curve > 0.0);
            assert!((above + 12.0).abs() > distance);
            distance = (above + 12.0).abs();
        }
    }
}

#[test]
fn points_that_are_off_leave_the_base_curve() {
    let params = CurveParams {
        intercept: s(-12.0),
        center_frequency: s(500.0),
        slope: s(1.5),
        curve: s(-0.5),
        points: no_points(),
    };
    let curve = Curve::new::<Hardware>(&params);
    for ln_freq in [0.0f32, 3.0, 6.5, 10.0] {
        let level = curve.evaluate_ln::<Hardware>(s(ln_freq));
        assert!(level.equals(curve.evaluate_base_ln::<Hardware>(s(ln_freq))));
    }
}

/// The values that the rules of order are tried on.
fn sample_values() -> Vec<f32> {
    let magnitudes = [
        0.0f32,
        f32::from_bits(1),
        f32::MIN_POSITIVE,
        0.1,
        1.0 - f32::EPSILON,
        1.0,
        1.0 + f32::EPSILON,
        3.0,
        16_777_217.0,
        f32::MAX,
        f32::INFINITY,
    ];
    magnitudes.iter().flat_map(|value| [*value, -*value]).collect()
}

#[test]
fn the_machine_keeps_the_order_of_operands() {
    let values = sample_values();
    for &a in &values {
        for &b in &values {
            let (sum, difference) = (a + b, a - b);
            let (product, quotient) = (a * b, a / b);
            if !sum.is_nan() {
                assert!(!(b >= 0.0) || a <= sum);
                assert!(!(b <= 0.0) || sum <= a);
                assert!(b != -a || sum == 0.0);
            }
            if !difference.is_nan() {
                assert!(!(b <= a) || difference >= 0.0);
                assert!(!(a <= b) || difference <= 0.0);
                assert!(!(b >= 0.0) || difference <= a);
                assert!(!(b <= 0.0) || a <= difference);
                assert_eq!(-a + b, -difference);
            }
            if !product.is_nan() {
                let same_sign = (a >= 0.0 && b >= 0.0) || (a <= 0.0 && b <= 0.0);
                let opposite_sign = (a >= 0.0 && b <= 0.0) || (a <= 0.0 && b >= 0.0);
                assert!(!same_sign || product >= 0.0);
                assert!(!opposite_sign || product <= 0.0);
                assert!(!(a >= 1.0) || b.abs() <= product.abs());
                assert!(!(b >= 1.0) || a.abs() <= product.abs());
            }
            if !quotient.is_nan() && b > 0.0 {
                assert!(!(a >= 0.0) || quotient >= 0.0);
                assert!(!(a <= 0.0) || quotient <= 0.0);
                assert!(!(b >= 1.0 && a >= 0.0) || quotient <= a);
            }
            for &c in &values {
                if b > 0.0 && a <= c && !quotient.is_nan() && !(c / b).is_nan() {
                    assert!(quotient <= c / b);
                }
                if a >= 0.0 && b > 0.0 && b <= c && !quotient.is_nan() && !(a / c).is_nan() {
                    assert!(a / c <= quotient);
                }
                for &d in &values {
                    if a <= c && b <= d && !sum.is_nan() && !(c + d).is_nan() {
                        assert!(sum <= c + d);
                    }
                    if a <= c && d <= b && !difference.is_nan() && !(c - d).is_nan() {
                        assert!(difference <= c - d);
                    }
                    let grows = a.abs() <= c.abs() && b.abs() <= d.abs();
                    if grows && !product.is_nan() && !(c * d).is_nan() {
                        assert!(product.abs() <= (c * d).abs());
                    }
                }
            }
        }
    }
}
