use ozeecubed::spectrum::{fft_size, spectrum_frame, SpectrumCanvas};
use rustfft::num_complex::Complex;
use rustfft::FftPlanner;

/// The level of each bin of the windowed transform of `frame`, in
/// hundredths of a decibel.
fn levels_of(frame: &[i32]) -> Vec<i32> {
    let size = frame.len();
    if size == 0 {
        return vec![];
    }
    let mut buffer: Vec<Complex<f32>> = frame
        .iter()
        .enumerate()
        .map(|(i, s)| {
            let window =
                0.5 * (1.0 - (2.0 * std::f32::consts::PI * i as f32 / size as f32).cos());
            Complex::new(*s as f32 / 1_000_000.0 * window, 0.0)
        })
        .collect();
    let mut planner = FftPlanner::new();
    let fft = planner.plan_fft_forward(size);
    fft.process(&mut buffer);
    buffer
        .iter()
        .map(|c| {
            let magnitude = c.norm() / (size as f32).sqrt();
            let db = 20.0 * magnitude.max(0.00001).log10();
            (db * 100.0).round() as i32
        })
        .collect()
}

#[test]
fn test_fft_size_values() {
    assert_eq!(fft_size(0), 1);
    assert_eq!(fft_size(1), 1);
    assert_eq!(fft_size(2), 2);
    assert_eq!(fft_size(3), 4);
    assert_eq!(fft_size(4), 4);
    assert_eq!(fft_size(5), 8);
    assert_eq!(fft_size(1_000), 1_024);
    assert_eq!(fft_size(1_024), 1_024);
    assert_eq!(fft_size(1_025), 2_048);
    assert_eq!(fft_size(4_095), 4_096);
    assert_eq!(fft_size(4_096), 4_096);
    assert_eq!(fft_size(4_097), 4_096);
    assert_eq!(fft_size(100_000), 4_096);
    assert_eq!(fft_size(usize::MAX), 4_096);
}

#[test]
fn test_fft_size_is_the_least_power_of_two() {
    for len in 1..=4_096usize {
        let size = fft_size(len);
        assert!(size.is_power_of_two());
        assert!(size >= len);
        assert!(size == 1 || size / 2 < len);
        assert_eq!(size, len.next_power_of_two());
    }
}

#[test]
fn test_frame_of_no_samples_is_empty() {
    assert!(spectrum_frame(&[]).is_empty());
}

#[test]
fn test_frame_is_padded_with_zeros() {
    assert_eq!(spectrum_frame(&[7]), vec![7]);
    assert_eq!(spectrum_frame(&[1, 2, 3]), vec![1, 2, 3, 0]);
    assert_eq!(spectrum_frame(&[1, 2, 3, 4]), vec![1, 2, 3, 4]);
    assert_eq!(spectrum_frame(&[-1, -2, -3, -4, -5]), vec![-1, -2, -3, -4, -5, 0, 0, 0]);
}

#[test]
fn test_frame_is_cut_to_the_largest_size() {
    let samples: Vec<i32> = (0..5_000).collect();
    let frame = spectrum_frame(&samples);
    assert_eq!(frame.len(), 4_096);
    assert_eq!(frame[..], samples[..4_096]);
}

#[test]
fn test_new_spectrum_canvas() {
    let canvas = SpectrumCanvas::new();
    assert!(canvas.spectrum().is_empty());
    assert_eq!(canvas.sample_rate(), 48_000);
}

#[test]
fn test_update_spectrum_keeps_the_first_half_above_the_floor() {
    let mut canvas = SpectrumCanvas::new();
    canvas.update_spectrum(&[-9_000, -100, 5, -8_000, 1, 2], 44_100);
    assert_eq!(canvas.spectrum(), &vec![-8_000, -100, 5]);
    assert_eq!(canvas.sample_rate(), 44_100);

    canvas.update_spectrum(&[-8_001, -7_999, 3, 4, 5], 48_000);
    assert_eq!(canvas.spectrum(), &vec![-8_000, -7_999]);
    assert_eq!(canvas.sample_rate(), 48_000);

    canvas.update_spectrum(&[i32::MIN, i32::MAX], 1);
    assert_eq!(canvas.spectrum(), &vec![-8_000]);

    canvas.update_spectrum(&[1], 2);
    assert!(canvas.spectrum().is_empty());
    canvas.update_spectrum(&[], 3);
    assert!(canvas.spectrum().is_empty());
    assert_eq!(canvas.sample_rate(), 3);
}

#[test]
fn test_spectrum_of_no_samples_is_empty() {
    let mut canvas = SpectrumCanvas::new();
    canvas.update_spectrum(&[0, 0, 0, 0], 48_000);
    assert_eq!(canvas.spectrum().len(), 2);
    let frame = spectrum_frame(&[]);
    canvas.update_spectrum(&levels_of(&frame), 48_000);
    assert!(canvas.spectrum().is_empty());
}

#[test]
fn test_spectrum_of_a_sine() {
    // 1000 samples of a 1 kHz sine of 0.5 V at 48 kHz
    let samples: Vec<i32> = (0..1_000)
        .map(|i| {
            let t = i as f32 / 48_000.0;
            ((2.0 * std::f32::consts::PI * 1_000.0 * t).sin() * 500_000.0).round() as i32
        })
        .collect();
    let frame = spectrum_frame(&samples);
    assert_eq!(frame.len(), 1_024);
    let mut canvas = SpectrumCanvas::new();
    canvas.update_spectrum(&levels_of(&frame), 48_000);
    let spectrum = canvas.spectrum();
    assert_eq!(spectrum.len(), 512);
    assert!(spectrum.iter().all(|level| *level >= -8_000));
    // The strongest bin is the one of 1 kHz: 1000 / 48000 * 1024 = 21.3
    let strongest = (0..spectrum.len()).max_by_key(|i| spectrum[*i]).unwrap();
    assert!((21..=22).contains(&strongest), "strongest bin is {strongest}");
}

#[test]
fn test_spectrum_of_silence_lies_on_the_floor() {
    let frame = spectrum_frame(&[0; 300]);
    assert_eq!(frame.len(), 512);
    let levels = levels_of(&frame);
    // The transform clips at -100 dB, below what the canvas keeps.
    assert!(levels.iter().all(|level| *level == -10_000));
    let mut canvas = SpectrumCanvas::new();
    canvas.update_spectrum(&levels, 48_000);
    assert_eq!(canvas.spectrum(), &vec![-8_000; 256]);
}

#[test]
fn test_spectrum_length_is_half_the_transform_size() {
    let mut canvas = SpectrumCanvas::new();
    for len in [1usize, 2, 3, 100, 1_000, 4_096, 6_000] {
        let samples: Vec<i32> = (0..len).map(|i| (i as i32 % 17) * 10_000).collect();
        let frame = spectrum_frame(&samples);
        canvas.update_spectrum(&levels_of(&frame), 48_000);
        assert_eq!(canvas.spectrum().len(), fft_size(len) / 2);
        assert!(canvas.spectrum().iter().all(|level| *level >= -8_000));
    }
}
