use simtrace::binary32::Binary32;
use simtrace::renderer::color::{hot_face, mix_color, rgb, with_alpha, with_opacity, Color};

fn f(x: f32) -> Binary32 {
    Binary32 { bits: x.to_bits() }
}

fn value(x: Binary32) -> f32 {
    f32::from_bits(x.bits)
}

fn same(ours: Binary32, theirs: f32) -> bool {
    if theirs.is_nan() {
        value(ours).is_nan()
    } else {
        ours.bits == theirs.to_bits()
    }
}

/// Edge cases and pseudo-random patterns of all magnitudes.
fn samples() -> Vec<f32> {
    let mut found = vec![
        0.0,
        -0.0,
        1.0,
        -1.0,
        0.5,
        1.5,
        2.5,
        -2.5,
        3.6,
        0.1,
        1e-3,
        16_777_216.0,
        16_777_215.0,
        f32::MAX,
        f32::MIN,
        f32::MIN_POSITIVE,
        f32::EPSILON,
        f32::from_bits(1),
        f32::from_bits(0x007f_ffff),
        f32::INFINITY,
        f32::NEG_INFINITY,
        f32::NAN,
    ];
    let mut state = 0x9e37_79b9_u32;
    for i in 0..120 {
        state = state.wrapping_mul(1_664_525).wrapping_add(1_013_904_223);
        let bits = if i % 2 == 0 {
            state
        } else {
            0x3e00_0000 + (state >> 7)
        };
        found.push(f32::from_bits(bits));
    }
    found
}

#[test]
fn arithmetic_agrees_with_the_machine() {
    let values = samples();
    for &a in &values {
        for &b in &values {
            assert!(same(f(a).plus(f(b)), a + b), "{:?} + {:?}", a, b);
            assert!(same(f(a).minus(f(b)), a - b), "{:?} - {:?}", a, b);
            assert!(same(f(a).times(f(b)), a * b), "{:?} * {:?}", a, b);
            assert!(same(f(a).over(f(b)), a / b), "{:?} / {:?}", a, b);
        }
    }
}

#[test]
fn comparisons_agree_with_the_machine() {
    let values = samples();
    for &a in &values {
        for &b in &values {
            assert_eq!(f(a).lt(f(b)), a < b);
            assert_eq!(f(a).le(f(b)), a <= b);
            assert!(value(f(a).max(f(b))) == a.max(b) || a.max(b).is_nan());
            assert!(value(f(a).min(f(b))) == a.min(b) || a.min(b).is_nan());
        }
        assert_eq!(f(a).is_nan(), a.is_nan());
        assert_eq!(f(a).is_finite(), a.is_finite());
        assert!(same(f(a).clamp_unit(), a.clamp(0.0, 1.0)));
        assert!(same(f(a).clamp_signed_unit(), a.clamp(-1.0, 1.0)));
        assert!(same(f(a).clamp(f(2.0), f(3.0)), a.clamp(2.0, 3.0)));
    }
}

#[test]
fn signs_agree_with_the_machine() {
    for a in samples() {
        assert_eq!(f(a).negate().bits, (-a).to_bits());
        assert_eq!(f(a).abs().bits, a.abs().to_bits());
    }
}

#[test]
fn conversions_agree_with_the_machine() {
    for a in samples() {
        assert_eq!(f(a).truncate_to_u64(), a as u64, "{:?}", a);
        assert_eq!(f(a).ceil_to_u64(), a.ceil() as u64, "{:?}", a);
        assert_eq!(f(a).round_to_u64(), a.round() as u64, "{:?}", a);
        assert!(same(f(a).fraction_of_one(), a.rem_euclid(1.0)), "{:?}", a);
    }
    let mut n = 1_u64;
    for i in 0..64 {
        n = n.wrapping_mul(6_364_136_223_846_793_005).wrapping_add(i);
        let shifted = n >> i;
        assert_eq!(Binary32::from_u64(shifted).bits, (shifted as f32).to_bits());
    }
    assert_eq!(Binary32::from_u64(u64::MAX).bits, (u64::MAX as f32).to_bits());
}

#[test]
fn lengths_agree_with_double_precision() {
    let values = samples();
    for &a in &values {
        for &b in &values {
            if a.is_finite() && b.is_finite() && a.abs() < 1e18 && b.abs() < 1e18 {
                let exact = ((a as f64) * (a as f64) + (b as f64) * (b as f64)).sqrt();
                let ours = value(f(a).hypot(f(b))) as f64;
                assert!((ours - exact).abs() <= exact * 6.0e-8 + 1e-45, "{:?} {:?}", a, b);
            }
        }
    }
    assert_eq!(f(3.0).hypot(f(-4.0)), f(5.0));
    assert_eq!(f(f32::INFINITY).hypot(f(f32::NAN)), f(f32::INFINITY));
    assert!(f(1.0).hypot(f(f32::NAN)).is_nan());
}

#[test]
fn numerals_agree_with_the_machine() {
    for a in samples() {
        assert_eq!(f(a).to_text(), format!("{:.0}", a), "{:?}", a);
        assert_eq!(f(a).to_signed_text(), format!("{:+.0}", a), "{:?}", a);
    }
    for i in 0..400 {
        let a = i as f32 / 4.0;
        assert_eq!(f(a).to_text(), format!("{:.0}", a));
        assert_eq!(f(-a).to_signed_text(), format!("{:+.0}", -a));
    }
}

#[test]
fn sums_and_products_commute() {
    let values = samples();
    for &a in &values {
        for &b in &values {
            assert_eq!(f(a).plus(f(b)), f(b).plus(f(a)));
            assert_eq!(f(a).times(f(b)), f(b).times(f(a)));
        }
    }
}

fn tuple(c: Color) -> (u8, u8, u8, u8) {
    (c.r, c.g, c.b, c.a)
}

#[test]
fn alpha_is_multiplied_in() {
    for channel in 0..=255_u8 {
        for alpha in 0..=255_u8 {
            let scaled = if alpha == 0 {
                0
            } else if alpha == 255 {
                channel
            } else {
                (channel as f32 * (alpha as f32 / 255.0) + 0.5) as u8
            };
            let color = with_alpha(rgb(channel, 255 - channel, 7), alpha);
            assert_eq!(color.r, scaled);
            assert_eq!(color.a, alpha);
        }
    }
    assert_eq!(tuple(with_alpha(rgb(10, 20, 30), 0)), (0, 0, 0, 0));
    assert_eq!(tuple(with_alpha(rgb(10, 20, 30), 255)), (10, 20, 30, 255));
}

#[test]
fn colours_dim_mix_and_heat() {
    assert_eq!(with_opacity(rgb(200, 100, 0), f(0.5)).a, 127);
    assert_eq!(with_opacity(rgb(200, 100, 0), f(7.0)), rgb(200, 100, 0));
    assert_eq!(with_opacity(rgb(200, 100, 0), f(-1.0)).a, 0);
    assert_eq!(mix_color(rgb(0, 0, 0), rgb(255, 100, 0), f(0.5)), rgb(128, 50, 0));
    assert_eq!(mix_color(rgb(1, 2, 3), rgb(255, 100, 0), f(0.0)), rgb(1, 2, 3));
    assert_eq!(mix_color(rgb(1, 2, 3), rgb(255, 100, 0), f(1.0)), rgb(255, 100, 0));
    assert_eq!(hot_face(rgb(0, 100, 255), f(0.5)), rgb(127, 177, 255));
    assert_eq!(hot_face(rgb(0, 100, 255), f(0.0)), rgb(0, 100, 255));
}

#[test]
fn middle_lies_between_its_ends() {
    let middle = |a: f32, b: f32| value(f(a).plus(f(b)).times(f(0.5)));
    assert_eq!(middle(1.0, 4.0), 2.5);
    assert_eq!(middle(-3.0, 3.0), 0.0);
    // Beyond the range the sum, and with it the middle, is infinite.
    assert_eq!(middle(f32::MAX, f32::MAX), f32::INFINITY);
    let values = samples();
    for a in values.iter() {
        for b in values.iter() {
            let sum = *a + *b;
            if *a <= *b && sum.is_finite() {
                let m = middle(*a, *b);
                assert!(*a <= m && m <= *b);
            }
        }
    }
}
