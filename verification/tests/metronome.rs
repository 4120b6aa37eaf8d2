use loop_studio::engine::metronome::{
    frames_per_beat, proportional, render_click, Metronome, MetronomeSettings, Voice,
};

fn clicking(anchor: u64) -> Metronome<f32> {
    let mut m = Metronome::new();
    m.set_sample_rate(100, vec![1.0, 0.5], vec![2.0, 1.0]);
    let mut s = MetronomeSettings::defaults();
    s.enabled = true;
    s.beats_per_measure = 2;
    m.set_settings(s);
    m.set_anchor(anchor);
    m
}

#[test]
fn a_fresh_metronome_is_off() {
    let m = Metronome::<f32>::new();
    assert!(!m.settings.enabled);
    assert_eq!(m.bpm(), 120.0);
    assert!(m.settings.accent);
    assert_eq!(m.settings.beats_per_measure, 4);
    assert_eq!(m.settings.volume_db, -6.0);
    let mut m = m;
    let mut out = [1.0f32; 4];
    m.mix_segment(&mut out, 1, 0, 4, 2, 1.0);
    assert_eq!(out, [1.0; 4]);
}

#[test]
fn beats_fall_on_multiples_and_measures_are_accented() {
    let mut m = clicking(0);
    let mut out = [0.0f32; 12];
    m.mix_segment(&mut out, 1, 0, 12, 4, 1.0);
    assert_eq!(out, [2.0, 1.0, 0.0, 0.0, 1.0, 0.5, 0.0, 0.0, 2.0, 1.0, 0.0, 0.0]);
    assert_eq!(m.voice, None);
}

#[test]
fn beats_count_from_the_anchor() {
    let mut m = clicking(3);
    let mut out = [0.0f32; 8];
    m.mix_segment(&mut out, 1, 0, 8, 4, 1.0);
    assert_eq!(out, [0.0, 0.0, 0.0, 2.0, 1.0, 0.0, 0.0, 1.0]);
    assert_eq!(m.voice, Some(Voice { accent: false, pos: 1 }));
    let mut more = [0.0f32; 4];
    m.mix_segment(&mut more, 1, 8, 4, 4, 1.0);
    assert_eq!(more, [0.5, 0.0, 0.0, 2.0]);
}

#[test]
fn clicks_go_to_every_channel_at_their_gain() {
    let mut m = clicking(0);
    let mut out = [10.0f32; 5];
    m.mix_segment(&mut out, 2, 0, 2, 100, 0.5);
    assert_eq!(out, [11.0, 11.0, 10.5, 10.5, 10.0]);
}

#[test]
fn beats_are_heard_in_proportion() {
    let mut m = clicking(0);
    // Twice as many output frames as source frames.
    let mut out = [0.0f32; 8];
    m.mix_segment(&mut out, 1, 4, 4, 3, 1.0);
    // The only beat is on source frame 6, two frames in.
    assert_eq!(out, [0.0, 0.0, 0.0, 0.0, 2.0, 1.0, 0.0, 0.0]);
}

#[test]
fn a_new_beat_cuts_off_the_click_before_it() {
    let mut m = clicking(0);
    let mut out = [0.0f32; 3];
    m.mix_segment(&mut out, 1, 0, 3, 1, 1.0);
    assert_eq!(out, [2.0, 1.0, 2.0]);
}

#[test]
fn slow_or_undefined_tempos_are_silent() {
    for bpm in [19.9f32, f32::NAN, f32::INFINITY, 0.0] {
        let mut m = clicking(0);
        m.settings.bpm = bpm;
        let mut out = [0.0f32; 4];
        m.mix_segment(&mut out, 1, 0, 4, 4, 1.0);
        assert_eq!(out, [0.0; 4]);
    }
}

#[test]
fn the_voice_is_cut_by_reset_and_by_switching_off() {
    let mut m = clicking(0);
    let mut out = [0.0f32; 1];
    m.mix_segment(&mut out, 1, 0, 1, 4, 1.0);
    assert!(m.voice.is_some());
    let mut s = m.settings;
    s.bpm = 90.0;
    m.set_settings(s);
    assert!(m.voice.is_some());
    s.enabled = false;
    m.set_settings(s);
    assert_eq!(m.voice, None);
    m.voice = Some(Voice { accent: true, pos: 0 });
    m.reset_voice();
    assert_eq!(m.voice, None);
}

#[test]
fn clicks_are_kept_for_the_same_rate() {
    let mut m = clicking(0);
    m.voice = Some(Voice { accent: false, pos: 1 });
    m.set_sample_rate(100, vec![9.0], vec![9.0]);
    assert_eq!(m.click_normal, vec![1.0, 0.5]);
    assert!(m.voice.is_some());
    m.set_sample_rate(200, vec![9.0], vec![8.0]);
    assert_eq!((m.click_normal, m.click_accent), (vec![9.0], vec![8.0]));
    assert_eq!(m.voice, None);
}

#[test]
fn beat_lengths_agree_with_double_precision() {
    assert_eq!(frames_per_beat(44100, 120.0f32.to_bits()), 22050);
    assert_eq!(frames_per_beat(48000, 100.0f32.to_bits()), 28800);
    assert_eq!(frames_per_beat(44100, 19.0f32.to_bits()), 0);
    assert_eq!(frames_per_beat(44100, f32::NAN.to_bits()), 0);
    assert_eq!(frames_per_beat(44100, f32::INFINITY.to_bits()), 0);
    assert_eq!(frames_per_beat(44100, (-120.0f32).to_bits()), 0);
    assert_eq!(frames_per_beat(44100, f32::MAX.to_bits()), 0);
    for rate in [8000u32, 44100, 48000, 96000, 192000] {
        let mut bpm = 20.0f32;
        while bpm < 1.0e30 {
            let want = (rate as f64 * 60.0 / bpm as f64) as u64;
            assert_eq!(frames_per_beat(rate, bpm.to_bits()), want, "{rate} {bpm}");
            bpm = bpm * 1.013;
        }
    }
}

#[test]
fn shares_are_rounded_down() {
    assert_eq!(proportional(1, 3, 10), 3);
    assert_eq!(proportional(3, 3, 10), 10);
    assert_eq!(proportional(0, 3, 10), 0);
    assert_eq!(proportional(u64::MAX - 1, u64::MAX, 5), 4);
}

#[test]
fn clicks_do_not_depend_on_what_they_are_added_to() {
    let mut a = clicking(1);
    let mut b = clicking(1);
    let mut x = [0.0f32; 21];
    let mut y: Vec<f32> = (0..21).map(|i| i as f32).collect();
    a.mix_segment(&mut x, 2, 0, 10, 3, 0.5);
    b.mix_segment(&mut y, 2, 0, 10, 3, 0.5);
    for i in 0..21 {
        assert_eq!(y[i] - i as f32, x[i]);
        assert!(x[i].abs() <= 2.0 * 0.5);
    }
    for f in 0..10 {
        assert_eq!(x[2 * f], x[2 * f + 1]);
    }
    assert_eq!(x[20], 0.0);
    assert_eq!(a.voice, b.voice);
}

#[test]
fn frames_stop_at_the_last_one() {
    let mut m = clicking(u64::MAX - 5);
    let mut out = [0.0f32; 10];
    m.mix_segment(&mut out, 1, u64::MAX - 5, 10, 3, 1.0);
    assert_eq!(out, [2.0, 1.0, 0.0, 1.0, 0.5, 0.0, 0.0, 0.0, 0.0, 0.0]);
}

#[test]
fn a_click_is_a_tone_that_dies_away() {
    let tone = vec![0.0f32, 1.0, -1.0, 0.5];
    let decay = vec![1.0f32, 0.5, 0.25, 0.0];
    let click = render_click(&tone, &decay);
    assert_eq!(click, vec![0.0, 0.5, -0.25, 0.0]);
    assert!(click.iter().all(|s| s.abs() <= 1.0));
}
