use estimated_wait::binary64::Binary64;

fn b(x: f64) -> Binary64 {
    Binary64::from_bits(x.to_bits())
}

fn f(x: Binary64) -> f64 {
    f64::from_bits(x.to_bits())
}

fn same(ours: Binary64, native: f64) -> bool {
    if native.is_nan() {
        ours.is_nan()
    } else {
        ours.to_bits() == native.to_bits()
    }
}

/// A fixed sequence of bit patterns.
fn next(state: &mut u64) -> u64 {
    *state ^= *state << 13;
    *state ^= *state >> 7;
    *state ^= *state << 17;
    *state
}

fn specials() -> Vec<f64> {
    vec![
        0.0,
        -0.0,
        1.0,
        -1.0,
        0.5,
        1.5,
        2.0,
        3.0,
        10.0,
        0.1,
        0.15,
        0.2,
        0.3,
        0.999,
        1e-300,
        -1e-300,
        1e300,
        -1e300,
        f64::MAX,
        f64::MIN,
        f64::MIN_POSITIVE,
        -f64::MIN_POSITIVE,
        f64::from_bits(1),
        f64::from_bits(0x8000_0000_0000_0001),
        f64::from_bits(0x000f_ffff_ffff_ffff),
        f64::from_bits(0x001f_ffff_ffff_ffff),
        f64::EPSILON,
        1.0 + f64::EPSILON,
        1.0 - f64::EPSILON / 2.0,
        9007199254740991.0,
        9007199254740992.0,
        9007199254740993.0,
        f64::INFINITY,
        f64::NEG_INFINITY,
        f64::NAN,
    ]
}

fn agree(x: f64, y: f64) {
    assert!(same(b(x).add(b(y)), x + y), "{:e} + {:e}", x, y);
    assert!(same(b(x).sub(b(y)), x - y), "{:e} - {:e}", x, y);
    assert!(same(b(x).mul(b(y)), x * y), "{:e} * {:e}", x, y);
    assert!(same(b(x).div(b(y)), x / y), "{:e} / {:e}", x, y);
    assert_eq!(b(x).lt(b(y)), x < y, "{:e} < {:e}", x, y);
    assert_eq!(b(x).le(b(y)), x <= y, "{:e} <= {:e}", x, y);
    assert_eq!(b(x).eq(b(y)), x == y, "{:e} == {:e}", x, y);
}

#[test]
fn operations_agree_with_native_on_special_values() {
    let values = specials();
    for x in &values {
        for y in &values {
            agree(*x, *y);
        }
        assert_eq!(b(*x).is_nan(), x.is_nan());
        assert_eq!(b(*x).is_finite(), x.is_finite());
        assert_eq!(b(*x).is_infinite(), x.is_infinite());
        assert_eq!(b(*x).is_negative(), x.is_sign_negative());
        assert!(same(b(*x).neg(), -*x));
    }
}

#[test]
fn operations_agree_with_native_on_arbitrary_bit_patterns() {
    let mut state: u64 = 0x9e37_79b9_7f4a_7c15;
    for _ in 0..100_000 {
        let x = f64::from_bits(next(&mut state));
        let y = f64::from_bits(next(&mut state));
        agree(x, y);
    }
}

#[test]
fn operations_agree_with_native_on_neighbouring_scales() {
    let mut state: u64 = 0x2545_f491_4f6c_dd1d;
    for _ in 0..100_000 {
        let x = f64::from_bits(next(&mut state));
        let scale = next(&mut state) % 160;
        let exponent = (x.to_bits() >> 52) & 0x7ff;
        let near = exponent.saturating_sub(80).saturating_add(scale).min(0x7fe);
        let sign = next(&mut state) & (1 << 63);
        let fraction = next(&mut state) & 0x000f_ffff_ffff_ffff;
        // few significant bits make ties likely
        let fraction = fraction & !((1 << (next(&mut state) % 53)) - 1);
        agree(x, f64::from_bits(sign | (near << 52) | fraction));
    }
}

#[test]
fn subnormal_results_agree_with_native() {
    let mut state: u64 = 0x1234_5678_9abc_def1;
    for _ in 0..50_000 {
        let x = f64::from_bits((next(&mut state) & 0x800f_ffff_ffff_ffff) | (0x1f0 << 52));
        let y = f64::from_bits((next(&mut state) & 0x800f_ffff_ffff_ffff) | (0x1f8 << 52));
        agree(x, y);
        agree(x, 1.0 / y);
        agree(f64::from_bits(next(&mut state) % (1 << 53)), y);
    }
}

#[test]
fn integers_agree_with_native() {
    let mut state: u64 = 0xdead_beef_cafe_f00d;
    for shift in 0..64 {
        for _ in 0..200 {
            let n = next(&mut state) >> shift;
            assert!(same(Binary64::from_u64(n), n as f64), "{}", n);
            assert!(same(Binary64::from_u32(n as u32), f64::from(n as u32)));
            assert!(same(Binary64::from_i32(n as i32), f64::from(n as i32)));
        }
    }
    for n in [0, 1, u64::MAX, u64::MAX - 1, 1 << 53, (1 << 53) + 1, (1 << 54) + 2] {
        assert!(same(Binary64::from_u64(n), n as f64));
    }
    for n in [0, -1, i32::MIN, i32::MAX] {
        assert!(same(Binary64::from_i32(n), f64::from(n)));
    }
}

#[test]
fn ratios_are_the_nearest_numbers() {
    assert_eq!(f(Binary64::from_ratio(15, 100)), 0.15);
    assert_eq!(f(Binary64::from_ratio(999, 1000)), 0.999);
    assert_eq!(f(Binary64::from_ratio(1, 3)), 1.0 / 3.0);
    assert_eq!(f(Binary64::from_ratio(0, 7)), 0.0);
    assert_eq!(f(Binary64::from_ratio(u64::MAX, 1)), u64::MAX as f64);
    let mut state: u64 = 77;
    for _ in 0..10_000 {
        let num = next(&mut state) >> 11;
        let den = (next(&mut state) >> 11) + 1;
        assert_eq!(f(Binary64::from_ratio(num, den)), num as f64 / den as f64);
    }
}
