use loop_studio::ui::transport::{combined_pitch, format_time, split_pitch};

/// The same in double precision.
fn by_doubles(frames: u64, sample_rate: u32) -> String {
    let secs = frames as f64 / sample_rate as f64;
    let total = secs as u64;
    let h = total / 3600;
    let m = (total % 3600) / 60;
    let s = total % 60;
    let ms = ((secs - total as f64) * 1000.0).round() as u32;
    if h > 0 {
        format!("{h}:{m:02}:{s:02}.{ms:03}")
    } else {
        format!("{m}:{s:02}.{ms:03}")
    }
}

#[test]
fn times_are_minutes_seconds_and_thousandths() {
    assert_eq!(format_time(0, 44100), "0:00.000");
    assert_eq!(format_time(44100 * 61 + 22050, 44100), "1:01.500");
    assert_eq!(format_time(44100 * 600, 44100), "10:00.000");
}

#[test]
fn hours_show_once_there_are_any() {
    assert_eq!(format_time(48000 * 3599, 48000), "59:59.000");
    assert_eq!(format_time(48000 * 3600, 48000), "1:00:00.000");
    assert_eq!(format_time(48000 * 45296, 48000), "12:34:56.000");
}

#[test]
fn no_sample_rate_is_no_time() {
    assert_eq!(format_time(12345, 0), "0:00.000");
}

#[test]
fn the_last_half_thousandth_rounds_to_a_thousand() {
    assert_eq!(format_time(44099, 44100), "0:00.1000");
}

#[test]
fn times_agree_with_double_precision() {
    let rates: [u32; 8] = [1, 7, 8000, 44100, 48000, 96000, 192000, u32::MAX];
    for &rate in &rates {
        let mut frames: u64 = 1;
        let mut k: u64 = 0;
        while frames < 1 << 60 {
            assert_eq!(format_time(frames, rate), by_doubles(frames, rate), "{frames} {rate}");
            frames = frames + frames / 3 + 1 + k % 7;
            k += 1;
        }
        for seconds in 0..200u64 {
            let f = seconds * rate as u64 + (rate as u64) / 2000;
            assert_eq!(format_time(f, rate), by_doubles(f, rate), "{f} {rate}");
        }
        assert_eq!(format_time(u64::MAX, rate), by_doubles(u64::MAX, rate));
    }
}

#[test]
fn halves_of_a_thousandth_follow_the_quotient() {
    for f in [24u64, 48024, 96024, 144024, 48000 * 1000 + 24, 48000 * 1000 + 72] {
        assert_eq!(format_time(f, 48000), by_doubles(f, 48000));
    }
}

#[test]
fn pitch_splits_into_semitones_and_cents() {
    assert_eq!(split_pitch(0.0f32), (0, 0));
    assert_eq!(split_pitch(1.13f32), (1, 13));
    assert_eq!(split_pitch(-2.0f32), (-2, 0));
    assert_eq!(split_pitch(-0.3f32), (0, -30));
    assert_eq!(split_pitch(12.75f32), (12, 50));
    assert_eq!(split_pitch(-40.0f32), (-12, -50));
}

#[test]
fn pitch_that_is_no_number_is_none() {
    assert_eq!(split_pitch(f32::NAN), (0, 0));
    assert_eq!(split_pitch(f32::INFINITY), (0, 0));
    assert_eq!(split_pitch(f32::NEG_INFINITY), (0, 0));
}

#[test]
fn pitch_splits_as_rounding_does() {
    for i in -1500i32..=1500 {
        let total = i as f32 / 97.0;
        let coarse = (total.round() as i32).clamp(-12, 12);
        let cents = (((total - coarse as f32) * 100.0).round() as i32).clamp(-50, 50);
        let (a, b) = split_pitch(total);
        assert_eq!((a as i32, b as i32), (coarse, cents));
    }
}

#[test]
fn halves_of_a_pitch_add_up() {
    assert_eq!(combined_pitch::<f32>(3, -25), 3.0 + -25.0 / 100.0);
}

#[test]
fn halves_of_a_pitch_come_back() {
    for coarse in -12i16..=12 {
        for cents in -49i16..=49 {
            assert_eq!(split_pitch(combined_pitch::<f32>(coarse, cents)), (coarse, cents));
        }
    }
    // Half a semitone belongs to the next one.
    assert_eq!(split_pitch(combined_pitch::<f32>(0, 50)), (1, -50));
}
