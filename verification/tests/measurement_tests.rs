use ozeecubed::measurement::integer_sqrt;
use ozeecubed::waveform::WaveformData;

fn waveform_of(sample_rate: u32, samples: &[i32]) -> WaveformData {
    let mut waveform = WaveformData::new(sample_rate);
    waveform.update_samples(samples.to_vec());
    waveform
}

#[test]
fn test_integer_sqrt_values() {
    assert_eq!(integer_sqrt(0), 0);
    assert_eq!(integer_sqrt(1), 1);
    assert_eq!(integer_sqrt(2), 1);
    assert_eq!(integer_sqrt(3), 1);
    assert_eq!(integer_sqrt(4), 2);
    assert_eq!(integer_sqrt(15), 3);
    assert_eq!(integer_sqrt(16), 4);
    assert_eq!(integer_sqrt(17), 4);
    assert_eq!(integer_sqrt(1_000_000), 1_000);
    assert_eq!(integer_sqrt(999_999), 999);
    assert_eq!(integer_sqrt(1 << 62), 1 << 31);
    assert_eq!(integer_sqrt(u64::MAX), u32::MAX);
    assert_eq!(integer_sqrt((u32::MAX as u64) * (u32::MAX as u64)), u32::MAX);
    assert_eq!(integer_sqrt((u32::MAX as u64) * (u32::MAX as u64) - 1), u32::MAX - 1);
}

#[test]
fn test_integer_sqrt_is_the_floor_of_the_root() {
    for v in 0..5_000u64 {
        let r = integer_sqrt(v) as u64;
        assert!(r * r <= v);
        assert!((r + 1) * (r + 1) > v);
    }
}

#[test]
fn test_frequency_of_a_square_wave() {
    // Ten samples to a period at 48 kHz: 4800 Hz.
    let samples: Vec<i32> = (0..100).map(|i| if i % 10 < 5 { -1 } else { 1 }).collect();
    let waveform = waveform_of(48_000, &samples);
    assert_eq!(waveform.calculate_frequency(), Some(4_800_000));
}

#[test]
fn test_frequency_at_half_the_sample_rate() {
    let waveform = waveform_of(1_000, &[-1, 1, -1, 1, -1, 1]);
    assert_eq!(waveform.calculate_frequency(), Some(500_000));
}

#[test]
fn test_frequency_is_rounded_down() {
    // Crossings at 1 and 4: one period of three samples at 1 kHz.
    let waveform = waveform_of(1_000, &[-1, 1, 1, -1, 1]);
    assert_eq!(waveform.calculate_frequency(), Some(333_333));
}

#[test]
fn test_frequency_takes_the_mean_distance() {
    // Crossings at 1, 3 and 9: two periods over eight samples.
    let waveform = waveform_of(8_000, &[-1, 1, -1, 1, 1, 1, 1, 1, -1, 1]);
    assert_eq!(waveform.calculate_frequency(), Some(2_000_000));
}

#[test]
fn test_frequency_counts_a_sample_on_zero_as_risen() {
    let waveform = waveform_of(1_000, &[-1, 0, -1, 0]);
    assert_eq!(waveform.calculate_frequency(), Some(500_000));
    // From zero upward is no crossing.
    let waveform = waveform_of(1_000, &[0, 1, 0, 1]);
    assert_eq!(waveform.calculate_frequency(), None);
}

#[test]
fn test_frequency_needs_two_crossings() {
    assert_eq!(waveform_of(48_000, &[]).calculate_frequency(), None);
    assert_eq!(waveform_of(48_000, &[-1]).calculate_frequency(), None);
    assert_eq!(waveform_of(48_000, &[-1, 1]).calculate_frequency(), None);
    assert_eq!(waveform_of(48_000, &[-1, 1, 1, 1]).calculate_frequency(), None);
    assert_eq!(waveform_of(48_000, &[-1, 1, -1]).calculate_frequency(), None);
    assert_eq!(waveform_of(48_000, &[-1, 1, -1, 1]).calculate_frequency(), Some(24_000_000));
}

#[test]
fn test_frequency_at_a_sample_rate_of_zero() {
    let waveform = waveform_of(0, &[-1, 1, -1, 1]);
    assert_eq!(waveform.calculate_frequency(), Some(0));
}

#[test]
fn test_frequency_at_the_largest_sample_rate() {
    let waveform = waveform_of(u32::MAX, &[-1, 1, -1, 1]);
    assert_eq!(waveform.calculate_frequency(), Some((u32::MAX as u64) * 1_000 / 2));
}

#[test]
fn test_frequency_stays_below_half_the_sample_rate() {
    let patterns: [&[i32]; 4] = [
        &[-1, 1, -1, 1, -1, 1, -1, 1],
        &[-5, 0, -5, 0, 3, -3, 3],
        &[-1, 1, 1, -1, -1, 1, -1, 1],
        &[-1, 2, 3, -4, 5, 6, -7, 8, -9, 10],
    ];
    for samples in patterns {
        for rate in [1u32, 7, 1_000, 44_100, 48_000] {
            let f = waveform_of(rate, samples).calculate_frequency().unwrap();
            assert!(2 * f <= (rate as u64) * 1_000);
        }
    }
}

#[test]
fn test_peak_to_peak_values() {
    assert_eq!(waveform_of(48_000, &[5]).calculate_peak_to_peak(), Some(0));
    assert_eq!(waveform_of(48_000, &[-3, 7, 2]).calculate_peak_to_peak(), Some(10));
    assert_eq!(waveform_of(48_000, &[7, 2, -3]).calculate_peak_to_peak(), Some(10));
    assert_eq!(waveform_of(48_000, &[-3, -7, -5]).calculate_peak_to_peak(), Some(4));
    assert_eq!(
        waveform_of(48_000, &[i32::MIN, 0, i32::MAX]).calculate_peak_to_peak(),
        Some(u32::MAX)
    );
    assert_eq!(
        waveform_of(48_000, &[-1_000_000, -500_000, 0, 500_000, 1_000_000])
            .calculate_peak_to_peak(),
        Some(2_000_000)
    );
}

#[test]
fn test_rms_values() {
    // sum of squares 25, mean 12, root 3
    assert_eq!(waveform_of(48_000, &[3, 4]).calculate_rms(), Some(3));
    // sum of squares 7, mean 1, root 1
    assert_eq!(waveform_of(48_000, &[1, 1, 1, 2]).calculate_rms(), Some(1));
    assert_eq!(waveform_of(48_000, &[0, 0, 0]).calculate_rms(), Some(0));
    assert_eq!(waveform_of(48_000, &[-6, 6, -6, 6]).calculate_rms(), Some(6));
    assert_eq!(waveform_of(48_000, &[2_000_000; 100]).calculate_rms(), Some(2_000_000));
    assert_eq!(waveform_of(48_000, &[i32::MIN]).calculate_rms(), Some(1 << 31));
    assert_eq!(waveform_of(48_000, &[i32::MIN; 64]).calculate_rms(), Some(1 << 31));
    assert_eq!(waveform_of(48_000, &[i32::MAX, i32::MAX]).calculate_rms(), Some(i32::MAX as u32));
}

#[test]
fn test_duty_cycle_values() {
    assert_eq!(waveform_of(48_000, &[1, -1, 1, -1]).calculate_duty_cycle(), Some(5_000));
    // two of three samples above zero: 66.66 percent
    assert_eq!(waveform_of(48_000, &[1, -1, 1]).calculate_duty_cycle(), Some(6_666));
    // crossings, but no sample above zero
    assert_eq!(waveform_of(48_000, &[-1, 0, -1, 0]).calculate_duty_cycle(), Some(0));
    assert_eq!(
        waveform_of(48_000, &[1, 1, 1, -1, 1, 1, 1, 1]).calculate_duty_cycle(),
        Some(8_750)
    );
}

#[test]
fn test_duty_cycle_needs_two_crossings() {
    assert_eq!(waveform_of(48_000, &[]).calculate_duty_cycle(), None);
    assert_eq!(waveform_of(48_000, &[1]).calculate_duty_cycle(), None);
    assert_eq!(waveform_of(48_000, &[1, -1]).calculate_duty_cycle(), None);
    assert_eq!(waveform_of(48_000, &[1, 1, -1]).calculate_duty_cycle(), None);
    // down to zero is a crossing, up from zero is none
    assert_eq!(waveform_of(48_000, &[1, 0, 1]).calculate_duty_cycle(), None);
    assert_eq!(waveform_of(48_000, &[1, 0, 1, 0]).calculate_duty_cycle(), Some(5_000));
}

#[test]
fn test_duty_cycle_is_at_most_full() {
    let samples: Vec<i32> = (0..1000).map(|i| if i % 100 == 0 { -1 } else { 1 }).collect();
    let duty = waveform_of(48_000, &samples).calculate_duty_cycle().unwrap();
    assert_eq!(duty, 9_900);
    assert!(duty <= 10_000);
}
