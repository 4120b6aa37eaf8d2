use loop_studio::dsp::eq::EqSettings;
use loop_studio::engine::metronome::MetronomeSettings;
use loop_studio::engine::speed_ramp::SpeedRampSettings;
use loop_studio::track::peaks::TrackPeaks;
use loop_studio::track::LoopRegion;
use loop_studio::ui::eq::{clamp_gains, flatten, toggle_solo};
use loop_studio::ui::metronome::TapTempo;
use loop_studio::ui::waveform::{
    column_extremes, drag_region, follow_playhead, frame_within, pan_by, resolve_action, zoom_to,
    zoomed_len, WaveformAction, WaveformView,
};

const SECOND: u64 = 1_000_000_000;

#[test]
fn the_full_view_is_the_whole_track() {
    assert_eq!(WaveformView::full(1000), WaveformView { start: 0, len: 1000 });
    assert_eq!(WaveformView::full(10), WaveformView { start: 0, len: 64 });
    assert_eq!(WaveformView { start: 5, len: 7 }.end(), 12);
    assert_eq!(WaveformView { start: u64::MAX, len: 7 }.end(), u64::MAX);
}

#[test]
fn panning_stops_at_the_ends() {
    let mut v = WaveformView { start: 100, len: 200 };
    pan_by(&mut v, 1000, 50);
    assert_eq!(v.start, 150);
    pan_by(&mut v, 1000, -1000);
    assert_eq!(v.start, 0);
    pan_by(&mut v, 1000, i64::MAX);
    assert_eq!(v.start, 800);
    let mut wide = WaveformView { start: 0, len: 64 };
    pan_by(&mut wide, 10, 5);
    assert_eq!(wide.start, 0);
}

#[test]
fn zooming_stays_in_bounds() {
    let mut v = WaveformView::full(1000);
    zoom_to(&mut v, 1000, 100, 950);
    assert_eq!(v, WaveformView { start: 900, len: 100 });
    zoom_to(&mut v, 1000, 1, 3);
    assert_eq!(v, WaveformView { start: 3, len: 64 });
    zoom_to(&mut v, 1000, 5000, 3);
    assert_eq!(v, WaveformView { start: 0, len: 1000 });
    assert_eq!(zoomed_len(10, 20), 64);
}

#[test]
fn following_turns_the_page() {
    let mut v = WaveformView { start: 100, len: 100 };
    follow_playhead(&mut v, 1000, 150);
    assert_eq!(v.start, 100);
    follow_playhead(&mut v, 1000, 200);
    assert_eq!(v.start, 100);
    follow_playhead(&mut v, 1000, 201);
    assert_eq!(v.start, 201);
    follow_playhead(&mut v, 1000, 950);
    assert_eq!(v.start, 900);
    follow_playhead(&mut v, 1000, 10);
    assert_eq!(v.start, 10);
    let mut none = WaveformView { start: 3, len: 0 };
    follow_playhead(&mut none, 1000, 10);
    assert_eq!(none.start, 3);
    follow_playhead(&mut v, 0, 500);
    assert_eq!(v.start, 10);
}

#[test]
fn drags_win_over_clicks_if_they_made_a_loop() {
    let l = LoopRegion { start: 3, end: 9 };
    assert_eq!(drag_region(9, 3), Some(l));
    assert_eq!(drag_region(4, 4), None);
    assert_eq!(resolve_action(Some((9, 3)), Some(3)), WaveformAction::SetLoop(l));
    assert_eq!(resolve_action(Some((3, 3)), Some(3)), WaveformAction::Seek(3));
    assert_eq!(resolve_action(None, Some(3)), WaveformAction::Seek(3));
    assert_eq!(resolve_action(None, None), WaveformAction::Nothing);
    assert_eq!(frame_within(50, 40), 40);
    assert_eq!(frame_within(30, 40), 30);
}

#[test]
fn columns_show_the_extremes_of_their_buckets() {
    let p = TrackPeaks { min: vec![-0.5f32, -0.9, 0.0], max: vec![0.1, 0.2, 0.7] };
    assert_eq!(column_extremes(&p, 0, 2), Some((-0.9, 0.2)));
    assert_eq!(column_extremes(&p, 1, 1), Some((-0.9, 0.2)));
    assert_eq!(column_extremes(&p, 2, 9), Some((0.0, 0.7)));
    assert_eq!(column_extremes(&p, 3, 4), None);
}

#[test]
fn steady_taps_give_their_tempo() {
    let mut t = TapTempo::new();
    assert_eq!(t.tap::<f32>(0), None);
    assert_eq!(t.tap::<f32>(SECOND / 2), Some(120.0));
    assert_eq!(t.tap::<f32>(SECOND), Some(120.0));
}

#[test]
fn taps_average_over_the_last_four() {
    let mut t = TapTempo::new();
    for ms in [0u64, 500, 1000, 1400, 1800] {
        t.tap::<f32>(ms * 1_000_000);
    }
    assert_eq!(t.taps.len(), 4);
    let mean = ((1.0f32 - 0.5) + 0.4f32 + 0.4f32) / 3.0;
    let next = t.tap::<f32>(1_800_000_000);
    assert_eq!(t.taps.len(), 4);
    assert!(next.unwrap() > 60.0 / mean);
}

#[test]
fn old_taps_start_afresh() {
    let mut t = TapTempo::new();
    t.tap::<f32>(0);
    assert_eq!(t.tap::<f32>(2 * SECOND), Some(30.0));
    assert_eq!(t.tap::<f32>(5 * SECOND), None);
    assert_eq!(t.taps, vec![5 * SECOND]);
}

#[test]
fn tapped_tempos_stay_in_range() {
    let mut t = TapTempo::new();
    t.tap::<f32>(0);
    assert_eq!(t.tap::<f32>(1_000_000), Some(400.0));
    let mut s = TapTempo::new();
    s.tap::<f32>(7);
    assert_eq!(s.tap::<f32>(7), None);
}

#[test]
fn soloing_one_band_ends_the_others() {
    let mut s = EqSettings::<f32>::defaults();
    toggle_solo(&mut s, 1);
    toggle_solo(&mut s, 3);
    assert_eq!(s.bands.map(|b| b.solo), [false, false, false, true, false]);
    toggle_solo(&mut s, 3);
    assert_eq!(s.bands.map(|b| b.solo), [false; 5]);
}

#[test]
fn gains_are_brought_into_range_and_flattened() {
    let mut s = EqSettings::<f32>::defaults();
    s.bands[0].gain_db = 99.0;
    s.bands[1].gain_db = -99.0;
    s.bands[2].gain_db = 5.5;
    s.bands[4].solo = true;
    clamp_gains(&mut s);
    assert_eq!(s.bands.map(|b| b.gain_db), [24.0, -24.0, 5.5, 0.0, 0.0]);
    assert!(s.bands[4].solo);
    s.enabled = true;
    flatten(&mut s);
    assert!(s.enabled);
    assert_eq!(s.bands, EqSettings::<f32>::defaults().bands);
}

#[test]
fn typed_settings_are_brought_into_range() {
    let mut m = MetronomeSettings::<f32>::defaults();
    m.bpm = 1000.0;
    loop_studio::ui::metronome::clamp_settings(&mut m);
    assert_eq!(m.bpm, 400.0);
    let mut r = SpeedRampSettings::<f32>::defaults();
    r.step_amount = 0.0;
    r.passes_per_step = 0;
    r.target_speed = 9.0;
    loop_studio::ui::speed_ramp::clamp_settings(&mut r);
    assert_eq!((r.step_amount, r.passes_per_step, r.target_speed), (0.1, 1, 2.0));
    r.passes_per_step = 99;
    loop_studio::ui::speed_ramp::clamp_settings(&mut r);
    assert_eq!(r.passes_per_step, 32);
    assert!(!loop_studio::ui::speed_ramp::override_by_hand(&mut r));
    r.enabled = true;
    assert!(loop_studio::ui::speed_ramp::override_by_hand(&mut r));
    assert!(!r.enabled);
}

#[test]
fn a_history_of_taps_counts_its_last_four_within_two_seconds() {
    let mut seed: u64 = 7;
    let mut history: Vec<u64> = Vec::new();
    let mut now: u64 = 0;
    let mut t = TapTempo::new();
    for _ in 0..300 {
        seed = seed.wrapping_mul(6364136223846793005).wrapping_add(1442695040888963407);
        now += match seed >> 62 {
            0 => 0,
            1 => 400_000_000 + (seed >> 40) % 1000,
            2 => 700_000_000,
            _ => 1_500_000_000,
        };
        history.push(now);
        let got = t.tap::<f32>(now);
        let n = history.len();
        let latest: Vec<u64> = history
            .iter()
            .enumerate()
            .filter(|(i, at)| i + 4 >= n && now - **at <= 2 * SECOND)
            .map(|(_, at)| *at)
            .collect();
        assert_eq!(t.taps, latest);
        if latest.len() == 1 || latest[0] == now {
            assert_eq!(got, None);
        } else {
            let span = (now - latest[0]) as f64 / 1e9 / (latest.len() - 1) as f64;
            let want = (60.0 / span).clamp(20.0, 400.0) as f32;
            assert!((got.unwrap() - want).abs() < 1e-3 * want);
        }
    }
}
