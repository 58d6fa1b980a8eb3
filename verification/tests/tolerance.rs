use optic::tolerance::compare;
use optic::tolerance::is_finite;
use optic::tolerance::within_tolerance;
use optic::tolerance::Side;
use optic::tolerance::TOLERANCE;

#[test]
fn tolerance_is_one_picometre_of_a_nanometre() {
    assert_eq!(f64::from_bits(TOLERANCE), 1e-12);
}

#[test]
fn values_closer_than_the_tolerance_are_near() {
    let a = 500.0f64;
    let b = 500.0f64 + 1e-13;
    assert_ne!(a.to_bits(), b.to_bits());
    assert!(within_tolerance(a.to_bits(), b.to_bits()));
    assert!(within_tolerance(b.to_bits(), a.to_bits()));
    assert_eq!(compare(a.to_bits(), b.to_bits()), Side::Near);
}

#[test]
fn values_further_than_the_tolerance_are_apart() {
    let a = 500.0f64;
    let b = 500.000001f64;
    assert!(!within_tolerance(a.to_bits(), b.to_bits()));
    assert_eq!(compare(a.to_bits(), b.to_bits()), Side::Below);
    assert_eq!(compare(b.to_bits(), a.to_bits()), Side::Above);
}

#[test]
fn a_difference_of_exactly_the_tolerance_is_apart() {
    let zero = 0.0f64.to_bits();
    assert_eq!(compare(TOLERANCE, zero), Side::Above);
    assert_eq!(compare(zero, TOLERANCE), Side::Below);
    let just_below = f64::from_bits(TOLERANCE - 1);
    assert_eq!(compare(just_below.to_bits(), zero), Side::Near);
    assert_eq!(compare(zero, (-just_below).to_bits()), Side::Near);
    assert_eq!(compare(zero, (-1e-12f64).to_bits()), Side::Above);
}

#[test]
fn both_zeros_are_one_value() {
    assert!(within_tolerance(0.0f64.to_bits(), (-0.0f64).to_bits()));
}

#[test]
fn infinities_and_nans_are_near_nothing() {
    let nan = f64::NAN.to_bits();
    let inf = f64::INFINITY.to_bits();
    assert!(!is_finite(nan));
    assert!(!is_finite(inf));
    assert!(is_finite(1.0f64.to_bits()));
    assert!(!within_tolerance(nan, nan));
    assert!(!within_tolerance(inf, inf));
    assert!(!within_tolerance(inf, 1.0f64.to_bits()));
}

#[test]
fn tiny_values_are_near_each_other() {
    let a = f64::from_bits(1);
    let b = -1e-300f64;
    assert!(within_tolerance(a.to_bits(), b.to_bits()));
    assert!(within_tolerance(4e-13f64.to_bits(), (-4e-13f64).to_bits()));
    assert!(!within_tolerance(6e-13f64.to_bits(), (-6e-13f64).to_bits()));
}

#[test]
fn a_tiny_value_tips_the_balance_exactly() {
    let tiny = f64::from_bits(1).to_bits();
    let minus_tiny = (-f64::from_bits(1)).to_bits();
    // From the tolerance itself, a tiny positive value is closer than the tolerance, and a
    // tiny negative one is further.
    assert_eq!(compare(TOLERANCE, tiny), Side::Near);
    assert_eq!(compare(TOLERANCE, minus_tiny), Side::Above);
    assert_eq!(compare(tiny, TOLERANCE), Side::Near);
    assert_eq!(compare(minus_tiny, TOLERANCE), Side::Below);
}

#[test]
fn huge_values_are_near_only_themselves() {
    let a = 1e300f64;
    let b = f64::from_bits(a.to_bits() + 1);
    assert_eq!(compare(a.to_bits(), a.to_bits()), Side::Near);
    assert_eq!(compare(a.to_bits(), b.to_bits()), Side::Below);
    assert_eq!(compare((-a).to_bits(), b.to_bits()), Side::Below);
    assert_eq!(compare(a.to_bits(), 1.0f64.to_bits()), Side::Above);
    assert_eq!(compare((-a).to_bits(), 1.0f64.to_bits()), Side::Below);
}

#[test]
fn comparison_agrees_with_rounded_subtraction_where_that_is_exact() {
    let samples = [
        0.0f64, 1e-13, 5e-13, 9.99e-13, 1e-12, 1.01e-12, 2e-12, 1e-9, 1e-3, 0.5, 1.0, 2.0, 350.0, 500.0,
        500.0000000000001, 500.000001, 1e3, 1e9, 4096.0, 4096.000000000001, 8192.0, 8192.000000000002,
    ];
    for &x in samples.iter() {
        for &y in samples.iter() {
            for &(sx, sy) in [(1.0f64, 1.0f64), (-1.0, 1.0), (1.0, -1.0), (-1.0, -1.0)].iter() {
                let a = sx * x;
                let b = sy * y;
                let d = a - b;
                // Only where the subtraction did not round can floating point be the judge.
                if d + b == a && a - d == b {
                    let expected = if d >= 1e-12 {
                        Side::Above
                    } else if d <= -1e-12 {
                        Side::Below
                    } else {
                        Side::Near
                    };
                    assert_eq!(compare(a.to_bits(), b.to_bits()), expected, "{} against {}", a, b);
                }
            }
        }
    }
}

fn exact(bits: u64) -> i128 {
    // The value in units of two to the minus 110, for exponent fields from 965 to 1025.
    let exponent = ((bits >> 52) & 0x7ff) as i128;
    let significand = ((bits & 0xf_ffff_ffff_ffff) | (1 << 52)) as i128;
    let magnitude = significand << (exponent - 965);
    if bits >> 63 == 1 {
        -magnitude
    } else {
        magnitude
    }
}

fn scramble(state: &mut u64) -> u64 {
    *state ^= *state << 13;
    *state ^= *state >> 7;
    *state ^= *state << 17;
    *state
}

fn sample(state: &mut u64) -> u64 {
    let sign = scramble(state) >> 63;
    let exponent = 965 + scramble(state) % 61;
    let fraction = scramble(state) & 0xf_ffff_ffff_ffff;
    (sign << 63) | (exponent << 52) | fraction
}

fn expected(a: u64, b: u64) -> Side {
    let tolerance = exact(TOLERANCE);
    let gap = exact(a) - exact(b);
    if gap >= tolerance {
        Side::Above
    } else if gap <= -tolerance {
        Side::Below
    } else {
        Side::Near
    }
}

#[test]
fn comparison_agrees_with_integer_arithmetic_on_random_values() {
    let mut state = 0x9e37_79b9_7f4a_7c15u64;
    for _ in 0..20000 {
        let a = sample(&mut state);
        let b = sample(&mut state);
        assert_eq!(compare(a, b), expected(a, b), "{:#x} against {:#x}", a, b);
    }
}

#[test]
fn comparison_agrees_with_integer_arithmetic_next_to_the_tolerance() {
    let mut state = 0x2545_f491_4f6c_dd1du64;
    for _ in 0..20000 {
        let a = sample(&mut state);
        // A second value about one tolerance away from the first, give or take a few units in
        // the last place of either.
        let away = exact(a) + if scramble(&mut state) & 1 == 0 { exact(TOLERANCE) } else { -exact(TOLERANCE) };
        let magnitude = away.unsigned_abs();
        if magnitude == 0 {
            continue;
        }
        let top = 127 - magnitude.leading_zeros() as i128;
        let exponent = top - 52 + 965;
        if exponent < 965 || exponent > 1025 {
            continue;
        }
        let significand = (magnitude >> (top - 52)) as u64;
        let sign = if away < 0 { 1u64 } else { 0u64 };
        let base = (sign << 63) | ((exponent as u64) << 52) | (significand & 0xf_ffff_ffff_ffff);
        for nudge in 0..5u64 {
            let b = base.wrapping_add(nudge).wrapping_sub(2);
            if (b >> 52) & 0x7ff < 965 || (b >> 52) & 0x7ff > 1025 {
                continue;
            }
            assert_eq!(compare(a, b), expected(a, b), "{:#x} against {:#x}", a, b);
            assert_eq!(compare(b, a), expected(b, a), "{:#x} against {:#x}", b, a);
        }
    }
}
