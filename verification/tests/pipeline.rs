use eas_detect::analysis::Detector;
use eas_detect::audio::condense_channels;
use eas_detect::framing::default_fft_size;
use eas_detect::tones::ToneFlags;
use rustfft::num_complex::Complex;
use rustfft::FftPlanner;
use std::f32::consts::PI;

// The transform stage, as a caller of the detector runs it: taper, inverse
// transform of each frame, first half of the first frame, real part scaled
// by the square root of the transform length, mapped to integers in order.
fn spectrum(window: &[i32], fft_size: usize) -> Vec<i64> {
    let n = window.len();
    let mut buffer: Vec<Complex<f32>> = window
        .iter()
        .enumerate()
        .map(|(i, v)| {
            let x = i as f32 / n as f32 - 0.5;
            let w = 0.5 * (1.0 + (2.0 * PI * x).cos());
            Complex::new(w * (*v as f32 / 32767.0), 0.0)
        })
        .collect();
    let mut planner = FftPlanner::new();
    let fft = planner.plan_fft_inverse(fft_size);
    fft.process(&mut buffer);
    buffer.truncate(fft_size / 2);
    let scale = (fft_size as f32).sqrt();
    buffer.iter().map(|c| order_key(c.re / scale)).collect()
}

fn order_key(x: f32) -> i64 {
    assert!(!x.is_nan());
    let bits = (if x == 0.0 { 0.0f32 } else { x }).to_bits() as i32;
    (bits ^ ((((bits >> 31) as u32) >> 1) as i32)) as i64
}

fn tone(hz: &[f32], rate: u32, seconds: usize) -> Vec<f32> {
    (0..rate as usize * seconds)
        .map(|i| {
            let t = i as f32 / rate as f32;
            hz.iter().map(|f| (t * f * PI * 2.0).sin()).sum::<f32>() / hz.len() as f32
        })
        .collect()
}

fn to_samples(signal: &[f32]) -> Vec<i32> {
    signal.iter().map(|f| (f * 32767.0).round() as i32).collect()
}

fn run(signal: &[f32], rate: u32) -> (Vec<ToneFlags>, usize) {
    let mono = condense_channels(1, to_samples(signal)).unwrap();
    let mut detector = Detector::new(rate, default_fft_size(), mono.len()).unwrap();
    let mut all = Vec::new();
    while let Some(start) = detector.next_window() {
        let window = detector.plan.window(&mono, detector.done).unwrap();
        assert_eq!(window[..], mono[start..start + detector.plan.sample_size]);
        let s = spectrum(&window, detector.plan.fft_size);
        assert_eq!(s.len(), 4096);
        all.push(detector.record(&s).unwrap());
    }
    let info = detector.finish();
    let flagged = all.iter().filter(|f| f.is_flagged()).count();
    assert_eq!(flagged, info.eas.len());
    (all, info.eas.len())
}

#[test]
fn order_key_keeps_the_order() {
    let values = [-1.0e30f32, -2.5, -1.0e-30, 0.0, 1.0e-30, 0.5, 3.0, 1.0e30];
    for w in values.windows(2) {
        assert!(order_key(w[0]) < order_key(w[1]));
    }
    assert_eq!(order_key(-0.0), order_key(0.0));
}

#[test]
fn pure_high_tone_is_no_header() {
    let (flags, events) = run(&tone(&[960.0], 48000, 2), 48000);
    assert_eq!(flags.len(), 24);
    for f in &flags {
        assert!(!f.has_853);
        assert!(!f.has_1050);
        if f.is_flagged() {
            assert!(f.has_960);
        }
    }
    assert_eq!(events, 0);
}

#[test]
fn both_header_tones_are_no_weather_alert() {
    let (flags, _) = run(&tone(&[853.0, 960.0], 48000, 2), 48000);
    assert_eq!(flags.len(), 24);
    for f in &flags {
        if f.is_flagged() {
            assert!(f.has_eas());
            assert!(!f.has_weather());
        }
    }
}

#[test]
fn silence_gives_no_report() {
    let (flags, events) = run(&vec![0.0; 48000 * 2], 48000);
    assert_eq!(flags.len(), 24);
    assert_eq!(events, 0);
}

#[test]
fn short_signal_has_no_window() {
    let (flags, events) = run(&tone(&[1050.0], 48000, 1)[..24575], 48000);
    assert!(flags.is_empty());
    assert_eq!(events, 0);
}

#[test]
fn transform_stage_is_repeatable() {
    let samples = tone(&[1050.0], 48000, 2);
    let (first, n) = run(&samples, 48000);
    let (second, m) = run(&samples, 48000);
    assert_eq!(first, second);
    assert_eq!(n, m);
}

#[test]
fn attention_tone_is_reported_as_weather() {
    let samples = to_samples(&tone(&[1050.0], 48000, 2));
    let mut detector = Detector::new(48000, default_fft_size(), samples.len()).unwrap();
    while let Some(start) = detector.next_window() {
        let s = spectrum(&samples[start..start + 24576], 8192);
        let f = detector.record(&s).unwrap();
        assert!(!f.has_853 && !f.has_960);
    }
    let info = detector.finish();
    assert!(!info.eas.is_empty());
    let mut last = None;
    for e in &info.eas {
        assert!(e.has_weather && !e.has_eas);
        assert_eq!(e.start_sample % 3072, 0);
        assert_eq!(e.end_sample, e.start_sample + 24576);
        assert!(e.end_sample <= samples.len());
        assert!(last < Some(e.start_sample));
        last = Some(e.start_sample);
    }
    assert_eq!(info.eas[0].start_sample, 0);
}

#[test]
fn header_tones_are_reported_as_alert() {
    let (flags, events) = run(&tone(&[853.0, 960.0], 48000, 2), 48000);
    assert!(events > 0);
    assert!(flags[0].has_eas() && !flags[0].has_weather());
}

#[test]
fn pure_high_tone_is_seen_but_not_reported() {
    let (flags, events) = run(&tone(&[960.0], 48000, 2), 48000);
    assert!(flags.iter().any(|f| f.has_960));
    assert_eq!(events, 0);
    let (flags, events) = run(&tone(&[853.0], 48000, 2), 48000);
    assert!(flags.iter().any(|f| f.has_853));
    assert!(flags.iter().all(|f| !f.has_960 && !f.has_1050));
    assert_eq!(events, 0);
}
