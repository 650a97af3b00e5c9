use boardgame_analyzer::rating::Rating;

fn sample_values() -> Vec<f32> {
    vec![
        0.0,
        -0.0,
        f32::MIN_POSITIVE,
        -f32::MIN_POSITIVE,
        f32::from_bits(1),
        f32::from_bits(0x8000_0001),
        0.5,
        -0.5,
        1.0,
        -1.0,
        6.99999,
        7.0,
        7.5,
        8.0,
        10.0,
        f32::MAX,
        f32::MIN,
        f32::INFINITY,
        f32::NEG_INFINITY,
        f32::NAN,
        -f32::NAN,
        f32::from_bits(0x7f80_0001),
        f32::from_bits(0xffff_ffff),
    ]
}

#[test]
fn bits_round_trip() {
    for value in sample_values() {
        assert_eq!(Rating::from_bits(value.to_bits()).to_bits(), value.to_bits());
    }
    assert_eq!(Rating::from_bits(0x40e0_0000).to_bits(), 7.0f32.to_bits());
}

#[test]
fn is_nan_agrees_with_the_hardware() {
    for value in sample_values() {
        assert_eq!(Rating::from_bits(value.to_bits()).is_nan(), value.is_nan(), "{value}");
    }
}

#[test]
fn comparisons_agree_with_the_hardware() {
    for a in sample_values() {
        for b in sample_values() {
            let (x, y) = (Rating::from_bits(a.to_bits()), Rating::from_bits(b.to_bits()));
            assert_eq!(x.gt(y), a > b, "{a} > {b}");
            assert_eq!(x.lt(y), a < b, "{a} < {b}");
            assert_eq!(x.ge(y), a >= b, "{a} >= {b}");
        }
    }
}

#[test]
fn comparisons_agree_with_the_hardware_on_a_sweep_of_bit_patterns() {
    let mut patterns: Vec<u32> = Vec::new();
    let mut bits: u32 = 0;
    loop {
        patterns.push(bits);
        patterns.push(bits ^ 0x8000_0000);
        match bits.checked_add(0x0048_d159) {
            Some(next) if next < 0x8000_0000 => bits = next,
            _ => break,
        }
    }
    for &p in &patterns {
        for &q in &patterns {
            let (a, b) = (f32::from_bits(p), f32::from_bits(q));
            let (x, y) = (Rating::from_bits(p), Rating::from_bits(q));
            assert_eq!(x.gt(y), a > b, "{p:#x} > {q:#x}");
            assert_eq!(x.lt(y), a < b, "{p:#x} < {q:#x}");
            assert_eq!(x.ge(y), a >= b, "{p:#x} >= {q:#x}");
        }
    }
}

#[test]
fn both_zeros_are_equal() {
    let plus = Rating::from_bits(0.0f32.to_bits());
    let minus = Rating::from_bits((-0.0f32).to_bits());
    assert!(plus.ge(minus));
    assert!(minus.ge(plus));
    assert!(!plus.gt(minus));
    assert!(!minus.lt(plus));
}

#[test]
fn nan_compares_false_with_everything() {
    let nan = Rating::from_bits(f32::NAN.to_bits());
    for value in sample_values() {
        let other = Rating::from_bits(value.to_bits());
        assert!(!nan.gt(other));
        assert!(!nan.lt(other));
        assert!(!nan.ge(other));
        assert!(!other.gt(nan));
        assert!(!other.lt(nan));
        assert!(!other.ge(nan));
    }
}
