use s3lightfixes::binary32::{Binary32, INFINITY_BITS, NAN_BITS, SIGN_BIT};

fn number(x: f32) -> Binary32 {
    Binary32::from_bits(x.to_bits())
}

fn is_nan(x: Binary32) -> bool {
    f32::from_bits(x.to_bits()).is_nan()
}

/// A fixed sequence of encodings that visits zeros, subnormals, ordinary
/// numbers, huge ones, infinities and NaNs.
fn samples(count: usize) -> Vec<u32> {
    let mut out = vec![
        0,
        SIGN_BIT,
        1,
        0x007F_FFFF,
        0x0080_0000,
        0x0080_0001,
        0x3F80_0000,
        0x3F80_0001,
        0x3FFF_FFFF,
        0x4B7F_FFFF,
        0x4B80_0000,
        0x4F00_0000,
        0x4F7F_FFFF,
        0x4F80_0000,
        0x7F7F_FFFF,
        INFINITY_BITS,
        INFINITY_BITS | SIGN_BIT,
        NAN_BITS,
        0x7F80_0001,
        0xFFFF_FFFF,
        0.62f32.to_bits(),
        1.2f32.to_bits(),
        0.7f32.to_bits(),
        (-0.0f32).to_bits(),
        (-13.5f32).to_bits(),
    ];
    let mut state: u64 = 0x9E37_79B9_7F4A_7C15;
    while out.len() < count {
        state = state
            .wrapping_mul(6364136223846793005)
            .wrapping_add(1442695040888963407);
        let raw = (state >> 32) as u32;
        let shaped = match out.len() % 4 {
            0 => raw,
            1 => (raw & 0x807F_FFFF) | (((raw >> 23) % 40 + 100) << 23),
            2 => raw & 0x80FF_FFFF,
            _ => (raw & 0x807F_FFFF) | (((raw >> 23) % 8 + 124) << 23),
        };
        out.push(shaped);
    }
    out
}

#[test]
fn times_agrees_with_hardware_multiplication() {
    let values = samples(700);
    for &a in values.iter() {
        for &b in values.iter() {
            let expected = f32::from_bits(a) * f32::from_bits(b);
            let got = number(f32::from_bits(a)).times(number(f32::from_bits(b)));
            if expected.is_nan() {
                assert!(is_nan(got), "{a:#x} * {b:#x}");
            } else {
                assert_eq!(got.to_bits(), expected.to_bits(), "{a:#x} * {b:#x}");
            }
        }
    }
}

#[test]
fn times_gives_the_canonical_nan() {
    let nan = Binary32::from_bits(0x7F80_0001);
    assert_eq!(nan.times(number(1.0)).to_bits(), NAN_BITS);
    assert_eq!(number(1.0).times(nan).to_bits(), NAN_BITS);
    assert_eq!(number(f32::INFINITY).times(number(0.0)).to_bits(), NAN_BITS);
    assert_eq!(number(-0.0).times(number(f32::NEG_INFINITY)).to_bits(), NAN_BITS);
}

#[test]
fn times_rounds_ties_to_even() {
    // (1 + 2^-23) * (1 + 2^-1) = 1.5 + 1.5 * 2^-23: halfway, rounds to even.
    let a = Binary32::from_bits(0x3F80_0001);
    let b = number(1.5);
    assert_eq!(a.times(b).to_bits(), 0x3FC0_0002);
    // (1 + 3 * 2^-23) * 1.5 = 1.5 + 4.5 * 2^-23: halfway again, rounds to even.
    let c = Binary32::from_bits(0x3F80_0003);
    assert_eq!(c.times(b).to_bits(), 0x3FC0_0004);
}

#[test]
fn times_handles_signs_zeros_and_infinities() {
    assert_eq!(number(2.0).times(number(-3.0)).to_bits(), (-6.0f32).to_bits());
    assert_eq!(number(-2.0).times(number(-3.0)).to_bits(), 6.0f32.to_bits());
    assert_eq!(number(0.0).times(number(-3.0)).to_bits(), (-0.0f32).to_bits());
    assert_eq!(number(-0.0).times(number(-3.0)).to_bits(), 0);
    assert_eq!(
        number(f32::INFINITY).times(number(-3.0)).to_bits(),
        INFINITY_BITS | SIGN_BIT
    );
    assert_eq!(number(f32::MAX).times(number(2.0)).to_bits(), INFINITY_BITS);
    assert_eq!(number(f32::MIN_POSITIVE).times(number(0.5)).to_bits(), 0x0040_0000);
    assert_eq!(Binary32::from_bits(1).times(number(0.5)).to_bits(), 0);
    assert_eq!(Binary32::from_bits(3).times(number(0.5)).to_bits(), 2);
}

#[test]
fn from_u32_agrees_with_the_cast() {
    let mut cases: Vec<u32> = vec![
        0,
        1,
        2,
        3,
        100,
        0x00FF_FFFF,
        0x0100_0000,
        0x0100_0001,
        0x0100_0002,
        0x0100_0003,
        0x7FFF_FFFF,
        0x8000_0000,
        0xFFFF_FF7F,
        0xFFFF_FF80,
        0xFFFF_FFFF,
    ];
    for raw in samples(4000) {
        cases.push(raw);
        cases.push(raw >> 7);
    }
    for n in cases {
        assert_eq!(Binary32::from_u32(n).to_bits(), (n as f32).to_bits(), "{n}");
    }
}

#[test]
fn to_u32_agrees_with_the_cast() {
    for raw in samples(20000) {
        let x = f32::from_bits(raw);
        assert_eq!(Binary32::from_bits(raw).to_u32(), x as u32, "{raw:#x}");
    }
    assert_eq!(number(126.25).to_u32(), 126);
    assert_eq!(number(0.999).to_u32(), 0);
    assert_eq!(number(-5.0).to_u32(), 0);
    assert_eq!(number(f32::NAN).to_u32(), 0);
    assert_eq!(number(f32::INFINITY).to_u32(), u32::MAX);
    assert_eq!(number(4294967296.0).to_u32(), u32::MAX);
    assert_eq!(number(4294967040.0).to_u32(), 4294967040);
}

#[test]
fn less_than_agrees_with_the_numbers() {
    let values = samples(600);
    for &a in values.iter() {
        for &b in values.iter() {
            let x = Binary32::from_bits(a);
            let y = Binary32::from_bits(b);
            let expected = f32::from_bits(a) < f32::from_bits(b);
            assert_eq!(x.less_than(y), expected, "{a:#x} < {b:#x}");
            assert_eq!(y.greater_than(x), expected, "{b:#x} > {a:#x}");
        }
    }
}

#[test]
fn the_two_zeros_are_equal_and_nan_is_unordered() {
    assert!(!number(-0.0).less_than(number(0.0)));
    assert!(!number(0.0).less_than(number(-0.0)));
    assert!(!number(f32::NAN).less_than(number(1.0)));
    assert!(!number(1.0).less_than(number(f32::NAN)));
    assert!(!number(f32::NAN).greater_than(number(1.0)));
    assert!(number(-1.0).less_than(number(0.0)));
    assert!(number(f32::NEG_INFINITY).less_than(number(f32::MIN)));
}

#[test]
fn bits_round_trip() {
    assert_eq!(Binary32::from_bits(0x1234_5678).to_bits(), 0x1234_5678);
    assert_eq!(Binary32::from_bits(0x1234_5678).bits, 0x1234_5678);
}
