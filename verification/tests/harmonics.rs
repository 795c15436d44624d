use diysynth::oscillator::{odd_harmonics, saw_harmonics, square_level};
use diysynth::Binary32;

fn number(value: f32) -> Binary32 {
    Binary32::from_bits(value.to_bits())
}

#[test]
fn saw_counts_doublings_up_to_nyquist() {
    // 1000, 2000, 4000, 8000 and 16000 lie below 22050; 32000 does not.
    let count = saw_harmonics(number(1000.0), number(44100.0), 0);
    assert_eq!(count, Some(5));
    let h = i32::from(count.unwrap());
    assert!(2i32.pow(h as u32 - 1) * 1000 < 22050);
    assert!(22050 <= 2i32.pow(h as u32) * 1000);
    // Every partial that is summed lies below the Nyquist frequency.
    assert!(h * 1000 < 22050);
}

#[test]
fn square_and_triangle_count_odd_partials_up_to_nyquist() {
    let count = odd_harmonics(number(1000.0), number(44100.0), 0);
    assert_eq!(count, Some(11));
    let h = i32::from(count.unwrap());
    assert!((2 * h - 1) * 1000 < 22050);
    assert!(22050 <= (2 * h + 1) * 1000);
}

#[test]
fn an_explicit_count_is_used_verbatim() {
    assert_eq!(saw_harmonics(number(1000.0), number(44100.0), 3), Some(3));
    assert_eq!(saw_harmonics(number(20000.0), number(44100.0), 100), Some(100));
    assert_eq!(saw_harmonics(number(1000.0), number(44100.0), -4), Some(-4));
    assert_eq!(odd_harmonics(number(1000.0), number(44100.0), 7), Some(7));
    assert_eq!(odd_harmonics(number(20000.0), number(44100.0), 127), Some(127));
    assert_eq!(odd_harmonics(number(0.0), number(44100.0), 9), Some(9));
}

#[test]
fn a_frequency_of_zero_sums_nothing() {
    assert_eq!(saw_harmonics(number(0.0), number(44100.0), 0), Some(0));
    assert_eq!(saw_harmonics(number(-0.0), number(44100.0), 0), Some(0));
    assert_eq!(odd_harmonics(number(0.0), number(44100.0), 0), Some(0));
    assert_eq!(odd_harmonics(number(-0.0), number(44100.0), 0), Some(0));
}

#[test]
fn saw_counts_at_the_edges() {
    // At or above the Nyquist frequency no doubling is needed.
    assert_eq!(saw_harmonics(number(22050.0), number(44100.0), 0), Some(0));
    assert_eq!(saw_harmonics(number(30000.0), number(44100.0), 0), Some(0));
    // Just below it, one doubling.
    assert_eq!(saw_harmonics(number(22049.998), number(44100.0), 0), Some(1));
    assert_eq!(saw_harmonics(number(11025.0), number(44100.0), 0), Some(1));
    assert_eq!(saw_harmonics(number(11024.999), number(44100.0), 0), Some(2));
    // 440 * 2^6 = 28160 is the first doubling at or above 22050.
    assert_eq!(saw_harmonics(number(440.0), number(44100.0), 0), Some(6));
    // A frequency that is not a whole number.
    assert_eq!(saw_harmonics(number(261.62558), number(48000.0), 0), Some(7));
}

#[test]
fn odd_counts_at_the_edges() {
    // 22050 * 1 is not below 22050: the count before 1.
    assert_eq!(odd_harmonics(number(22050.0), number(44100.0), 0), Some(0));
    assert_eq!(odd_harmonics(number(30000.0), number(44100.0), 0), Some(0));
    // 7350 * 3 = 22050: the third harmonic is out, the first is in.
    assert_eq!(odd_harmonics(number(7350.0), number(44100.0), 0), Some(1));
    assert_eq!(odd_harmonics(number(7349.9995), number(44100.0), 0), Some(2));
    // 440 * 49 = 21560 < 22050 <= 440 * 51: 25 harmonics.
    assert_eq!(odd_harmonics(number(440.0), number(44100.0), 0), Some(25));
    // 176.4 * 125 = 22050, but the nearest binary32 value to 176.4 lies
    // just below it, so the partial at 125 times that value is still in.
    assert!(f64::from(176.4f32) * 125.0 < 22050.0);
    assert_eq!(odd_harmonics(number(176.4), number(44100.0), 0), Some(63));
    // 100 * 219 = 21900 < 22050 <= 100 * 221.
    assert_eq!(odd_harmonics(number(100.0), number(44100.0), 0), Some(110));
}

#[test]
fn a_count_that_does_not_fit_is_none() {
    // 2^127 doublings of the smallest subnormal stay far below 22050.
    assert_eq!(saw_harmonics(Binary32::from_bits(1), number(44100.0), 0), None);
    // A negative frequency never rises to a positive Nyquist frequency.
    assert_eq!(saw_harmonics(number(-1000.0), number(44100.0), 0), None);
    // 20 * 255 = 5100 is still below 22050: more than 127 harmonics.
    assert_eq!(odd_harmonics(number(20.0), number(44100.0), 0), None);
    assert_eq!(odd_harmonics(number(86.0), number(44100.0), 0), None);
    // Nothing finite reaches an infinite Nyquist frequency.
    assert_eq!(saw_harmonics(number(1000.0), number(f32::INFINITY), 0), None);
    assert_eq!(odd_harmonics(number(1000.0), number(f32::INFINITY), 0), None);
}

#[test]
fn the_last_count_that_fits_is_some() {
    // 2^14 < 22050 <= 2^15, so 2^(15 - 127) needs exactly 127 doublings.
    let tiny = f32::from_bits((127 - 112) << 23);
    assert_eq!(tiny, 2.0f32.powi(-112));
    assert_eq!(saw_harmonics(number(tiny), number(44100.0), 0), Some(127));
    assert_eq!(saw_harmonics(number(tiny / 2.0), number(44100.0), 0), None);
    // 87 * 253 = 22011 < 22050 <= 87 * 255: 127 harmonics.
    assert_eq!(odd_harmonics(number(87.0), number(44100.0), 0), Some(127));
    // 180 * 123 = 22140 is out, 180 * 121 = 21780 is in: 61 harmonics.
    assert_eq!(odd_harmonics(number(180.0), number(44100.0), 0), Some(61));
}

#[test]
fn a_nan_is_below_nothing() {
    assert_eq!(saw_harmonics(number(f32::NAN), number(44100.0), 0), Some(0));
    assert_eq!(saw_harmonics(number(1000.0), number(f32::NAN), 0), Some(0));
    // The odd rule steps back from the first count that is out: 0.
    assert_eq!(odd_harmonics(number(f32::NAN), number(44100.0), 0), Some(-1));
    assert_eq!(odd_harmonics(number(1000.0), number(f32::NAN), 0), Some(-1));
}

#[test]
fn negative_and_infinite_frequencies() {
    // -(-30000) = 30000 is not below 22050: the count before 0.
    assert_eq!(odd_harmonics(number(-30000.0), number(44100.0), 0), Some(-1));
    // -(-1000) = 1000 is below, -1000 * 1 is below, and so on for ever.
    assert_eq!(odd_harmonics(number(-1000.0), number(44100.0), 0), None);
    assert_eq!(saw_harmonics(number(f32::INFINITY), number(44100.0), 0), Some(0));
    assert_eq!(saw_harmonics(number(f32::NEG_INFINITY), number(44100.0), 0), None);
    // Minus infinity times -1 is plus infinity: out at once.
    assert_eq!(odd_harmonics(number(f32::NEG_INFINITY), number(44100.0), 0), Some(-1));
    // Plus infinity times -1 is below, plus infinity times 1 is not.
    assert_eq!(odd_harmonics(number(f32::INFINITY), number(44100.0), 0), Some(0));
    assert_eq!(
        saw_harmonics(number(f32::NEG_INFINITY), number(f32::NEG_INFINITY), 0),
        Some(0)
    );
    // A negative sample rate puts every positive frequency above Nyquist,
    // and the mirror image of one below 22050 too.
    assert_eq!(saw_harmonics(number(10.0), number(-44100.0), 0), Some(0));
    assert_eq!(odd_harmonics(number(10.0), number(-44100.0), 0), Some(-1));
    assert_eq!(odd_harmonics(number(30000.0), number(-44100.0), 0), Some(0));
}

#[test]
fn square_is_high_through_the_first_half_of_the_period() {
    assert_eq!(square_level(number(0.5)).to_bits(), 1.0f32.to_bits());
    assert_eq!(square_level(number(0.0)).to_bits(), 1.0f32.to_bits());
    assert_eq!(square_level(number(-0.0)).to_bits(), 1.0f32.to_bits());
    assert_eq!(square_level(number(0.25)).to_bits(), 1.0f32.to_bits());
    assert_eq!(square_level(number(0.49999997)).to_bits(), 1.0f32.to_bits());
    assert_eq!(square_level(number(0.50000006)).to_bits(), (-1.0f32).to_bits());
    assert_eq!(square_level(number(0.75)).to_bits(), (-1.0f32).to_bits());
    assert_eq!(square_level(number(1.0)).to_bits(), (-1.0f32).to_bits());
    assert_eq!(square_level(number(-3.0)).to_bits(), 1.0f32.to_bits());
    assert_eq!(square_level(number(f32::NAN)).to_bits(), (-1.0f32).to_bits());
    assert_eq!(square_level(number(f32::INFINITY)).to_bits(), (-1.0f32).to_bits());
    assert_eq!(square_level(number(f32::NEG_INFINITY)).to_bits(), 1.0f32.to_bits());
}

#[test]
fn counts_agree_with_exact_arithmetic_on_whole_frequencies() {
    for freq in [20u32, 55, 110, 177, 200, 440, 1000, 5000, 11025, 22049, 22050, 40000] {
        for rate in [8000u32, 22050, 44100, 48000, 96000] {
            // Twice the frequency against the sample rate, in integers.
            let mut doublings: u32 = 0;
            while doublings <= 127 && (2 * u128::from(freq)) << doublings < u128::from(rate) {
                doublings += 1;
            }
            let saw = if doublings <= 127 { Some(doublings as i8) } else { None };
            assert_eq!(
                saw_harmonics(number(freq as f32), number(rate as f32), 0),
                saw,
                "saw at {freq} Hz, {rate} Hz"
            );

            let mut n: i64 = 0;
            while n <= 128 && 2 * (2 * n - 1) * i64::from(freq) < i64::from(rate) {
                n += 1;
            }
            let odd = if n <= 128 { Some((n - 1) as i8) } else { None };
            assert_eq!(
                odd_harmonics(number(freq as f32), number(rate as f32), 0),
                odd,
                "odd at {freq} Hz, {rate} Hz"
            );
        }
    }
}
