use pitch_shifter::{Error, ShiftFactor, FFT_SIZE};

fn by_float(by: f32, freq: usize) -> Option<usize> {
    if freq >= FFT_SIZE {
        return None;
    }
    let moved = (freq as f32) * by;
    if moved < (FFT_SIZE / 2 + 1) as f32 {
        Some(moved as usize)
    } else {
        None
    }
}

fn agrees_everywhere(by: f32) {
    let factor = ShiftFactor::from_bits(by.to_bits()).unwrap();
    for freq in 0..FFT_SIZE + 3 {
        assert_eq!(factor.target(freq), by_float(by, freq), "factor {by:e}, bin {freq}");
    }
}

#[test]
fn target_is_floor_of_product() {
    let three_halves = ShiftFactor::from_bits(1.5f32.to_bits()).unwrap();
    assert_eq!(three_halves.target(0), Some(0));
    assert_eq!(three_halves.target(1), Some(1));
    assert_eq!(three_halves.target(2), Some(3));
    assert_eq!(three_halves.target(3), Some(4));
    assert_eq!(three_halves.target(1365), Some(2047));
    assert_eq!(three_halves.target(1366), None);
}

#[test]
fn unity_maps_each_bin_to_itself_up_to_nyquist() {
    let unity = ShiftFactor::from_bits(1.0f32.to_bits()).unwrap();
    for freq in 0..=FFT_SIZE / 2 {
        assert_eq!(unity.target(freq), Some(freq));
    }
    assert_eq!(unity.target(FFT_SIZE / 2 + 1), None);
}

#[test]
fn product_is_rounded_before_the_floor() {
    // 0.9 in single precision lies a little below nine tenths; ten times it
    // rounds to 9.0 exactly, so bin 10 goes to bin 9 and not to bin 8.
    let factor = ShiftFactor::from_bits(0.9f32.to_bits()).unwrap();
    assert_eq!(factor.target(10), Some(9));
    assert_eq!(factor.target(20), Some(18));
}

#[test]
fn tie_goes_to_the_even_neighbour() {
    // (2^24 - 1) * 2^-12 times 3: the exact product needs 26 bits and sits
    // half way between two neighbours.
    let by = f32::from_bits(0x457F_FFFF);
    agrees_everywhere(by);
    let by = f32::from_bits(0x3FC0_0001);
    agrees_everywhere(by);
    let by = f32::from_bits(0x3FC0_0003);
    agrees_everywhere(by);
}

#[test]
fn source_outside_the_spectrum_has_no_target() {
    let quarter = ShiftFactor::from_bits(0.25f32.to_bits()).unwrap();
    assert_eq!(quarter.target(FFT_SIZE - 1), Some(1023));
    assert_eq!(quarter.target(FFT_SIZE), None);
    assert_eq!(quarter.target(usize::MAX), None);
}

#[test]
fn agrees_with_single_precision_on_common_factors() {
    for by in [
        1.0f32, 2.0, 0.5, 1.5, 0.75, 0.9, 1.1, 1.25, 1.333_333_4, 0.666_666_7, 1.059_463_1,
        0.943_874_3, 3.0, 7.3, 0.1, 0.500_244_1, 0.500_244_2, 2048.0, 2048.5, 2049.0, 4096.0,
    ] {
        agrees_everywhere(by);
    }
}

#[test]
fn agrees_with_single_precision_on_extreme_factors() {
    for bits in [
        1u32, 2, 0x007F_FFFF, 0x0080_0000, 0x0080_0001, 0x00FF_FFFF, 0x0100_0000, 0x3380_0000,
        0x3F7F_FFFF, 0x3F80_0001, 0x44FF_FFFF, 0x4500_0000, 0x4500_1000, 0x7F00_0000, 0x7F7F_FFFF,
    ] {
        agrees_everywhere(f32::from_bits(bits));
    }
}

#[test]
fn agrees_with_single_precision_on_scattered_factors() {
    let mut state: u64 = 0x2545_F491_4F6C_DD1D;
    for _ in 0..300 {
        state = state.wrapping_mul(6364136223846793005).wrapping_add(1442695040888963407);
        // exponent fields around one, where the bins actually move
        let field = 118 + ((state >> 40) % 22) as u32;
        let fraction = ((state >> 8) & 0x7F_FFFF) as u32;
        agrees_everywhere(f32::from_bits((field << 23) | fraction));
    }
}

#[test]
fn refuses_what_is_not_positive_and_finite() {
    for by in [0.0f32, -0.0, -1.0, f32::INFINITY, f32::NEG_INFINITY, f32::NAN, -f32::MIN_POSITIVE] {
        assert_eq!(ShiftFactor::from_bits(by.to_bits()).err(), Some(Error::InvalidShift));
    }
    assert_eq!(ShiftFactor::from_bits(0xFFC0_0000).err(), Some(Error::InvalidShift));
    assert_eq!(ShiftFactor::from_bits(0x7F80_0001).err(), Some(Error::InvalidShift));
}

#[test]
fn accepts_every_positive_finite_factor() {
    for by in [f32::MIN_POSITIVE, f32::MAX, 1.0, f32::from_bits(1), 0.5, 440.0] {
        let factor = ShiftFactor::from_bits(by.to_bits()).unwrap();
        assert_eq!(factor.to_bits(), by.to_bits());
    }
}

#[test]
fn higher_bins_never_land_below_lower_ones() {
    let mut state: u64 = 0x9E37_79B9_7F4A_7C15;
    for round in 0..200 {
        state = state.wrapping_mul(6364136223846793005).wrapping_add(1442695040888963407);
        let field = 100 + ((state >> 40) % 60) as u32;
        let fraction = ((state >> 8) & 0x7F_FFFF) as u32;
        let bits = if round == 0 { 1 } else { (field << 23) | fraction };
        let factor = ShiftFactor::from_bits(bits).unwrap();
        let mut below = 0;
        let mut ended = false;
        for freq in 0..FFT_SIZE {
            match factor.target(freq) {
                Some(to) => {
                    // the bins with a target are the first so many
                    assert!(!ended);
                    assert!(to >= below);
                    assert!(to <= FFT_SIZE / 2);
                    below = to;
                }
                None => ended = true,
            }
        }
    }
}
