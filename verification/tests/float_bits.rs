use fyrox_graphics_wgpu::bytes::{low_word, round_up, to_le_bytes};
use fyrox_graphics_wgpu::float_bits::from_integer;

#[test]
fn integers_are_rounded_as_casts_do() {
    let mut values = vec![0, 1, 2, 3, 255, 256, 65535, 0x7f_ffff, 0x80_0000, 0xff_ffff];
    // Halfway between two floats: to the even one.
    values.extend_from_slice(&[0x100_0000, 0x100_0001, 0x100_0002, 0x100_0003, 0x1ff_ffff]);
    values.extend_from_slice(&[0x200_0002, 0x200_0003, 0x200_0006, 0x7fff_ff40, 0x7fff_ffc0]);
    values.extend_from_slice(&[u32::MAX as u64, u32::MAX as u64 + 1, u64::MAX, u64::MAX / 2]);
    for shift in 0..64 {
        for offset in 0..3u64 {
            values.push((1u64 << shift).wrapping_sub(1).wrapping_add(offset));
        }
    }
    let mut state = 0x2545_f491_4f6c_dd1du64;
    for i in 0..20000u32 {
        state = state.wrapping_mul(6364136223846793005).wrapping_add(1442695040888963407);
        values.push(state >> (i % 64));
    }
    for value in values {
        assert_eq!(from_integer(value).0, (value as f32).to_bits(), "{value}");
    }
}

#[test]
fn small_integers_are_exact() {
    for value in [0u64, 1, 7, 42, 255, 65535, 0x100_0000] {
        assert_eq!(f32::from_bits(from_integer(value).0) as u64, value);
    }
    assert_ne!(f32::from_bits(from_integer(0x100_0001).0) as u64, 0x100_0001);
}

#[test]
fn words_and_multiples() {
    assert_eq!(to_le_bytes(0x0a0b0c0d), 0x0a0b0c0du32.to_le_bytes());
    assert_eq!(low_word(0x1_2345_6789), 0x2345_6789);
    assert_eq!(round_up(0, 256), 0);
    assert_eq!(round_up(1, 256), 256);
    assert_eq!(round_up(256, 256), 256);
    assert_eq!(round_up(257, 256), 512);
    assert_eq!(round_up(usize::MAX, 1), usize::MAX);
}
