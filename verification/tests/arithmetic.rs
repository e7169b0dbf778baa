use flexaudio::arith::{from_i16, from_i32, from_u16, mean, to_i16};
use flexaudio::encode::{little_endian, little_endian_shorts};
use flexaudio::sample::{absolute, at_least, below, equal, finite, nan};

/// Patterns of every kind: zeros, the smallest and largest, infinities, ordinary values.
fn patterns() -> Vec<u32> {
    let mut v: Vec<u32> = vec![
        0x0000_0000, 0x8000_0000, 0x0000_0001, 0x8000_0001, 0x0000_0002, 0x0000_0003, 0x007f_ffff,
        0x0080_0000, 0x0080_0001, 0x0100_0000, 0x7f7f_ffff, 0xff7f_ffff, 0x7f80_0000, 0xff80_0000,
        0x7fc0_0000, 0x7f80_0001, 0x3f80_0000, 0xbf80_0000, 0x3f80_0001, 0x3f7f_ffff,
    ];
    let mut seed = 12_345u32;
    for _ in 0..400 {
        seed = seed.wrapping_mul(1_664_525).wrapping_add(1_013_904_223);
        v.push(seed);
    }
    v
}

#[test]
fn means_are_those_of_the_hardware() {
    let all = patterns();
    for &l in &all {
        for &r in &all {
            let want = (f32::from_bits(l) + f32::from_bits(r)) * 0.5;
            let got = f32::from_bits(mean(l, r));
            if want.is_nan() {
                assert!(got.is_nan(), "{l:#x} {r:#x}");
            } else {
                assert_eq!(got.to_bits(), want.to_bits(), "{l:#x} {r:#x}");
            }
        }
    }
}

#[test]
fn comparisons_are_those_of_the_hardware() {
    let all = patterns();
    for &l in &all {
        let a = f32::from_bits(l);
        assert_eq!(finite(l), a.is_finite());
        assert_eq!(nan(l), a.is_nan());
        assert_eq!(absolute(l), a.abs().to_bits());
        for &r in &all {
            let b = f32::from_bits(r);
            assert_eq!(at_least(l, r), a >= b, "{l:#x} {r:#x}");
            assert_eq!(below(l, r), a < b, "{l:#x} {r:#x}");
            assert_eq!(equal(l, r), a == b, "{l:#x} {r:#x}");
        }
    }
}

#[test]
fn shorts_convert_exactly() {
    for v in i16::MIN..=i16::MAX {
        assert_eq!(
            f32::from_bits(from_i16(v)),
            v as f32 / -(i16::MIN as f32)
        );
    }
    for v in 0..=u16::MAX {
        assert_eq!(
            f32::from_bits(from_u16(v)),
            (v as f32 - 32_768.0) / 32_768.0
        );
    }
}

#[test]
fn long_integers_are_rounded_once() {
    let mut values = vec![i32::MIN, i32::MIN + 1, -1, 0, 1, i32::MAX, i32::MAX - 1, 0x0100_0001];
    let mut seed = 99u32;
    for _ in 0..2000 {
        seed = seed.wrapping_mul(1_664_525).wrapping_add(1_013_904_223);
        values.push(seed as i32);
        values.push((seed as i32) >> (seed & 31));
    }
    for v in values {
        assert_eq!(
            from_i32(v),
            (v as f32 / -(i32::MIN as f32)).to_bits(),
            "{v}"
        );
    }
}

#[test]
fn quantizing_is_that_of_the_hardware() {
    for s in patterns() {
        let x = f32::from_bits(s);
        assert_eq!(
            to_i16(s),
            (x.clamp(-1.0, 1.0) * i16::MAX as f32) as i16,
            "{x}"
        );
    }
    for i in -70_000..70_000i32 {
        let x = i as f32 / 65_536.0;
        assert_eq!(
            to_i16(x.to_bits()),
            (x.clamp(-1.0, 1.0) * i16::MAX as f32) as i16,
            "{x}"
        );
    }
}

#[test]
fn bytes_give_the_samples_back() {
    let samples = patterns();
    let bytes = little_endian(&samples);
    assert_eq!(bytes.len(), 4 * samples.len());
    for (i, s) in samples.iter().enumerate() {
        let b = [
            bytes[4 * i],
            bytes[4 * i + 1],
            bytes[4 * i + 2],
            bytes[4 * i + 3],
        ];
        assert_eq!(u32::from_le_bytes(b), *s);
    }
}

#[test]
fn shorts_take_two_bytes_each() {
    let samples: Vec<u32> = [-1.0f32, 1.0, 0.25].iter().map(|s| s.to_bits()).collect();
    let bytes = little_endian_shorts(&samples);
    assert_eq!(bytes.len(), 6);
    assert_eq!(i16::from_le_bytes([bytes[0], bytes[1]]), -32_767);
    assert_eq!(i16::from_le_bytes([bytes[2], bytes[3]]), 32_767);
    assert_eq!(i16::from_le_bytes([bytes[4], bytes[5]]), 8_191);
}
