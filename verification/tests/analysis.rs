use loop_studio::analysis::bpm::{
    autocorr_at, autocorrelate, detection_range, lag_range, mono_mix, octave_resolve, octaves,
    onset_envelope, onset_frame, rounded_bpm, spectra_per_second, spectral_flux, spectrum_count,
    tempo_of_lag,
};
use loop_studio::fixed::{Fixed, ONE};
use loop_studio::sample::{
    ceiling_within, clamp_to, count_of, is_finite, is_near, larger_of, nearest_count_up_to,
    nearest_signed_within, nearest_within, smaller_of, whole,
};
use loop_studio::track::Track;

fn stereo(frames: usize) -> Track<f32> {
    Track {
        samples: (0..frames * 2).map(|i| i as f32).collect(),
        sample_rate: 44100,
        channels: 2,
    }
}

#[test]
fn passages_are_cut_to_the_track_and_must_be_long_enough() {
    let t = stereo(5000);
    assert_eq!(detection_range(&t, 100, 4000), Some((100, 4000)));
    assert_eq!(detection_range(&t, 100, 99_999), Some((100, 5000)));
    assert_eq!(detection_range(&t, 100, 1124), None);
    assert_eq!(detection_range(&t, 100, 1125), Some((100, 1125)));
    assert_eq!(detection_range(&t, 4000, 100), None);
    let mut none = stereo(5000);
    none.sample_rate = 0;
    assert_eq!(detection_range(&none, 0, 5000), None);
    let mut silent = stereo(5000);
    silent.channels = 0;
    assert_eq!(detection_range(&silent, 0, 5000), None);
}

#[test]
fn mixing_averages_the_channels() {
    assert_eq!(mono_mix(&stereo(10), 2, 4), vec![4.5, 6.5]);
}

#[test]
fn spectra_are_counted_by_hops() {
    assert_eq!(spectrum_count(1023), None);
    assert_eq!(spectrum_count(1024 + 512 * 7 - 1), None);
    assert_eq!(spectrum_count(1024 + 512 * 7), Some(8));
    let mono: Vec<f32> = (0..3000).map(|i| i as f32).collect();
    let window: Vec<f32> = (0..1024).map(|i| if i == 0 { 2.0 } else { 1.0 }).collect();
    let f = onset_frame(&mono, &window, 2);
    assert_eq!((f.len(), f[0], f[1], f[1023]), (1024, 2048.0, 1025.0, 2047.0));
}

#[test]
fn only_rises_count_as_onsets() {
    let prev = vec![1.0f32; 513];
    let mut now = vec![0.5f32; 513];
    now[7] = 3.0;
    now[8] = 1.5;
    assert_eq!(spectral_flux(&now, &prev), 2.5);
    let e = onset_envelope(&vec![1.0f32, 2.0, 6.0]).unwrap();
    assert_eq!(e, vec![0.0, 0.0, 3.0]);
    assert!(onset_envelope(&Vec::<f32>::new()).is_none());
}

#[test]
fn lags_follow_the_tempo_range() {
    let rate = spectra_per_second::<f32>(44100);
    assert_eq!(rate, 44100.0 / 512.0);
    assert_eq!(lag_range(rate, 1000), Some((26, 86)));
    assert_eq!(lag_range(rate, 86), None);
    assert_eq!(lag_range(0.5f32, 1000), None);
    assert_eq!(tempo_of_lag(rate, 43), 60.0 * rate / 43.0);
}

#[test]
fn a_repeating_envelope_gives_its_lag() {
    let v: Vec<f32> = (0..400).map(|i| if i % 43 == 0 { 1.0 } else { 0.0 }).collect();
    assert_eq!(autocorr_at(&v, 43), 9.0 / 357.0);
    assert_eq!(autocorr_at(&v, 400), 0.0);
    let priors = vec![1.0f32; 61];
    // Two repeats fit slightly better than one, over what is left to compare.
    assert_eq!(autocorrelate(&v, 26, 86, &priors), Some(86));
    let mut biased = priors.clone();
    biased[43 - 26] = 2.0;
    assert_eq!(autocorrelate(&v, 26, 86, &biased), Some(43));
    assert_eq!(autocorrelate(&vec![0.0f32; 400], 26, 86, &priors), None);
    assert_eq!(autocorrelate(&v, 9, 8, &Vec::new()), None);
}

#[test]
fn octaves_are_weighed_against_each_other() {
    let rate = spectra_per_second::<f32>(44100);
    let v: Vec<f32> = (0..400).map(|i| if i % 43 == 0 { 1.0 } else { 0.0 }).collect();
    let raw = tempo_of_lag(rate, 43);
    assert_eq!(octaves(raw), [raw * 0.5, raw, raw * 2.0]);
    assert_eq!(octave_resolve(&v, rate, raw, &[1.0, 1.0, 1.0]), raw * 0.5);
    assert_eq!(octave_resolve(&v, rate, raw, &[0.1, 1.0, 1.0]), raw);
    assert_eq!(octave_resolve(&v, rate, 500.0, &[1.0, 1.0, 1.0]), 500.0);
    assert_eq!(octave_resolve(&v, rate, raw, &[f32::NAN, f32::NAN, f32::NAN]), raw);
    assert_eq!(rounded_bpm(119.5f32), 120);
    assert_eq!(rounded_bpm(raw), raw.round() as i16);
}

#[test]
fn numbers_round_as_single_precision_does() {
    for i in -400i32..400 {
        let x = i as f32 / 7.0;
        assert_eq!(nearest_signed_within(x, 40) as i32, (x.round() as i32).clamp(-40, 40));
        assert_eq!(nearest_within(x, 0, 40) as i32, (x.round() as i32).clamp(0, 40));
        assert_eq!(ceiling_within(x, 0, 40) as i32, (x.ceil() as i32).clamp(0, 40));
        assert_eq!(nearest_count_up_to(x, 40) as i32, (x.round() as i32).clamp(0, 40));
    }
}

#[test]
fn counts_become_numbers_as_casts_do() {
    let mut n: u64 = 1;
    while n < 1 << 38 {
        assert_eq!(count_of::<f32>(n), n as f32);
        assert_eq!(count_of::<f32>(n + 1), (n + 1) as f32);
        n = n + n / 3 + 1;
    }
    assert_eq!(count_of::<f32>(0), 0.0);
}

#[test]
fn comparisons_leave_out_what_is_no_number() {
    assert_eq!(larger_of(1.0f32, 2.0), 2.0);
    assert_eq!(larger_of(f32::NAN, 2.0), 2.0);
    assert_eq!(larger_of(2.0, f32::NAN), 2.0);
    assert_eq!(smaller_of(f32::NAN, 2.0), 2.0);
    assert_eq!(smaller_of(3.0f32, 2.0), 2.0);
    assert!(clamp_to(f32::NAN, 0.0, 1.0).is_nan());
    assert_eq!(clamp_to(5.0f32, 0.0, 1.0), 1.0);
    assert!(is_finite(5.0f32));
    assert!(!is_finite(f32::INFINITY));
    assert!(!is_finite(f32::NAN));
    assert!(is_near(1.0f32, 1.05, 0.1));
    assert!(!is_near(1.0f32, 1.2, 0.1));
}

#[test]
fn fixed_places_can_stand_in_for_samples() {
    let two: Fixed = whole(2);
    let seven: Fixed = whole(7);
    assert_eq!((seven + two).0, 9 * ONE);
    assert_eq!((two - seven).0, -5 * ONE);
    assert_eq!((two * seven).0, 14 * ONE);
    assert_eq!((seven / two).0, 7 * ONE / 2);
    assert_eq!((seven % two).0, ONE);
    assert_eq!((seven / whole(0)).0, 0);
    assert_eq!((Fixed(i64::MAX) + whole(1)).0, i64::MAX);
    assert_eq!((Fixed(i64::MIN) * whole(2)).0, i64::MIN);
    assert_eq!((Fixed(-1) * (whole::<Fixed>(1) / two)).0, -1);
    assert!(two < seven);
    let t = Track { samples: vec![two, seven], sample_rate: 1, channels: 2 };
    let p = loop_studio::track::peaks::TrackPeaks::compute(&t);
    assert_eq!((p.min[0].0, p.max[0].0), (2 * ONE, 7 * ONE));
}
