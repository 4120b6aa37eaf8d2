use loop_studio::dsp::passthrough::Passthrough;
use loop_studio::dsp::phase_vocoder::{advance_phase, phase_lock, PhaseVocoder, NUM_BINS};
use loop_studio::dsp::pitch_shift::{
    shifted_output, stretch_target, PhaseVocoderPitchShift, PhaseVocoderSpeed, PitchShift,
    WsolaPitchShift,
};
use loop_studio::dsp::planes::Planes;
use loop_studio::dsp::resample::ResampleSpeed;
use loop_studio::dsp::stretch::{expected_output, window_gain, window_power, StretchRamp};
use loop_studio::dsp::wsola::{frames_allowed, Wsola, WsolaSpeed};
use loop_studio::dsp::{make_dsp, DspChoice, DspKind, TimePitchProcessor};

fn ones() -> Vec<f32> {
    vec![1.0; 2048]
}

#[test]
fn passing_through_copies_a_chunk() {
    let mut p = Passthrough::new();
    let input: Vec<f32> = (0..2048).map(|i| i as f32).collect();
    let mut out = vec![9.0f32; 2050];
    assert_eq!(p.process(&input, &mut out, 2), (1024, 1024));
    assert_eq!(out[..2048], input[..]);
    assert_eq!(out[2048..], [9.0, 9.0]);
    assert_eq!(p.process(&input[..2047], &mut out, 2), (0, 0));
    assert_eq!(p.process(&input, &mut out[..2047], 2), (0, 0));
    let before = out.clone();
    assert_eq!(p.process(&input, &mut out, 0), (1024, 1024));
    assert_eq!(out, before);
    let f: &dyn Fn(&Passthrough) -> (usize, usize, usize) = &|p| {
        (
            TimePitchProcessor::<f32>::input_frames_per_chunk(p),
            TimePitchProcessor::<f32>::max_output_frames_per_chunk(p),
            TimePitchProcessor::<f32>::expected_output_frames_per_chunk(p),
        )
    };
    assert_eq!(f(&p), (1024, 1024, 1024));
}

#[test]
fn the_full_processor_is_used_where_it_can_be_had() {
    assert_eq!(make_dsp(0, DspKind::Wsola, true), DspChoice::Passthrough);
    assert_eq!(make_dsp(2, DspKind::Wsola, true), DspChoice::Full(DspKind::Wsola));
    assert_eq!(
        make_dsp(2, DspKind::PhaseVocoder, false),
        DspChoice::SpeedOnly(DspKind::PhaseVocoder)
    );
    assert_eq!(DspKind::default(), DspKind::PhaseVocoder);
}

#[test]
fn planes_take_apart_and_put_together() {
    let mut p = Planes::<f32>::zeros(2, 0);
    p.feed(&[1.0, 10.0, 2.0, 20.0, 3.0, 30.0], 3);
    assert_eq!(p.chans, vec![vec![1.0, 2.0, 3.0], vec![10.0, 20.0, 30.0]]);
    p.drop_front(1);
    let mut out = [0.0f32; 5];
    p.write_interleaved(&mut out, 2);
    assert_eq!(out, [2.0, 20.0, 3.0, 30.0, 0.0]);
    let mut q = Planes::<f32>::zeros(2, 1);
    q.join(&p, 1);
    assert_eq!(q.chans, vec![vec![0.0, 2.0], vec![0.0, 20.0]]);
    q.clear();
    assert_eq!(q.frames(), 0);
}

#[test]
fn the_stretch_moves_a_tenth_at_a_time() {
    let mut r = StretchRamp::<f32>::new();
    assert_eq!((r.stretch, r.analysis_hop), (1.0, 512));
    r.set_stretch(2.0);
    assert_eq!(r.stretch, 1.0);
    assert_eq!(r.effective_stretch(), 2.0);
    r.advance();
    assert_eq!(r.stretch, 1.1);
    assert_eq!(r.analysis_hop, (512.0f32 / 1.1).round() as usize);
    for _ in 0..20 {
        r.advance();
    }
    assert_eq!((r.stretch, r.analysis_hop), (2.0, 256));
    r.set_stretch(0.0);
    assert_eq!(r.target, 0.25);
    assert_eq!(r.effective_stretch(), 2.0);
    r.advance();
    assert!((r.stretch - 1.9).abs() < 1e-6);
    r.set_stretch(99.0);
    assert_eq!(r.target, 8.0);
}

#[test]
fn hops_are_rounded_as_numbers_are() {
    let mut r = StretchRamp::<f32>::new();
    let mut stretch = 1.0f32;
    for target in [8.0f32, 0.25, 3.3, 1.0] {
        r.set_stretch(target);
        for _ in 0..90 {
            r.advance();
            let diff = target - stretch;
            if diff.abs() <= 0.1 * 0.5 {
                stretch = target;
            } else {
                stretch += diff.signum() * 0.1;
            }
            assert_eq!(r.stretch, stretch);
            assert_eq!(r.analysis_hop, ((512.0 / stretch).round() as usize).max(1));
        }
    }
}

#[test]
fn expected_frames_are_rounded_up_within_bounds() {
    for ratio in [0.0f32, 0.2501, 1.0, 1.37, 3.999, 4.0, 5.0, 7.0, f32::NAN] {
        let want = ((1024.0 * ratio).ceil() as usize).clamp(1, 5120);
        assert_eq!(expected_output(ratio), want);
    }
    for stretch in [0.25f32, 1.0, 2.7, 8.0, f32::NAN] {
        assert_eq!(stretch_target(stretch), (1024.0 * stretch).ceil() as usize);
    }
    for (stretch, factor) in [(1.0f32, 1.0f32), (2.0, 2.0), (2.3, 1.5), (8.0, 2.0)] {
        let want = ((1024.0 * stretch * (1.0 / factor)).ceil() as usize).clamp(1, 5120);
        assert_eq!(shifted_output(stretch, factor), want);
    }
}

#[test]
fn overlapping_windows_add_up() {
    assert_eq!(window_gain(&ones()), 4.0);
    let mut w = ones();
    w[512] = 3.0;
    assert_eq!(window_gain(&w), 6.0);
    assert_eq!(window_power(&w), 12.0);
}

#[test]
fn a_chunk_must_fit() {
    assert_eq!(frames_allowed(2, 2048, 20000, 2), 5120);
    assert_eq!(frames_allowed(2, 2048, 100, 2), 50);
    assert_eq!(frames_allowed(2, 2047, 20000, 2), 0);
    assert_eq!(frames_allowed(2, 2048, 1, 2), 0);
    assert_eq!(frames_allowed(1, 2048, 20000, 2), 0);
    assert_eq!(frames_allowed(usize::MAX, 10, 10, usize::MAX), 0);
}

#[test]
fn an_unstretched_constant_stays_constant() {
    let mut p = WsolaSpeed::<f32>::new(2, &ones());
    let input = vec![1.0f32; 2048];
    let mut out = vec![0.0f32; 5120 * 2];
    let mut heard = Vec::new();
    for _ in 0..8 {
        let (used, made) = p.process(&input, &mut out, 2);
        assert_eq!(used, 1024);
        heard.extend_from_slice(&out[..made * 2]);
    }
    assert!(heard.len() >= 4096 * 2);
    assert_eq!(heard[0], 0.25);
    assert_eq!(heard[512 * 2], 0.5);
    assert_eq!(heard[1024 * 2], 0.75);
    for s in &heard[1536 * 2..] {
        assert_eq!(*s, 1.0);
    }
}

#[test]
fn slower_gives_more_and_wrong_channels_give_nothing() {
    let mut p = WsolaSpeed::<f32>::new(1, &ones());
    assert_eq!(p.expected_output_frames_per_chunk(), 1024);
    p.set_speed(0.5);
    assert_eq!(p.expected_output_frames_per_chunk(), 2048);
    p.set_speed(0.01);
    assert_eq!(p.inner.target_stretch(), 4.0);
    p.set_speed(0.5);
    p.set_pitch_semitones(5.0);
    let input = vec![0.5f32; 1024];
    let mut out = vec![0.0f32; 5120];
    assert_eq!(p.process(&input, &mut out, 2), (0, 0));
    assert_eq!(p.process(&input[..10], &mut out, 1), (0, 0));
    let mut total = 0;
    for _ in 0..60 {
        total += p.process(&input, &mut out, 1).1;
    }
    let ratio = total as f32 / (60.0 * 1024.0);
    assert!(ratio > 1.7 && ratio < 2.0, "{ratio}");
}

#[test]
fn stretched_frames_follow_the_best_match() {
    // A saw of period 100: stretching must not break it, so every frame has to
    // be cut a whole number of periods from where the last one went on.
    let mut w = Wsola::<f32>::new(1, &ones());
    w.set_stretch(1.6);
    let saw: Vec<f32> = (0..8192).map(|i| (i % 100) as f32).collect();
    w.ingest(&saw, 8192);
    w.synthesize_up_to(6000);
    let n = w.output_available();
    assert!(n >= 4096);
    let mut out = vec![0.0f32; n];
    assert_eq!(w.drain_output(&mut out, n), n);
    for i in 1700..n - 100 {
        assert!((out[i] - out[i + 100]).abs() < 1e-3, "{i}");
    }
    w.reset();
    assert_eq!(w.output_available(), 0);
    assert!(!w.step());
}

#[test]
fn input_is_trimmed_as_it_goes_by() {
    let mut w = Wsola::<f32>::new(1, &ones());
    let chunk = vec![1.0f32; 1024];
    for _ in 0..60 {
        w.ingest(&chunk, 1024);
        w.synthesize_up_to(1024);
        let mut dst = Planes::zeros(1, 0);
        w.drain_output_planar(&mut dst, 9999);
    }
    assert!(w.in_buf.frames() < 24000);
    assert!(w.analysis_pos <= 16384);
}

#[test]
fn an_unstretched_ramp_comes_out_as_it_went_in() {
    let mut w = Wsola::<f32>::new(1, &ones());
    let mut heard: Vec<f32> = Vec::new();
    for k in 0..40 {
        let chunk: Vec<f32> = (k * 1024..(k + 1) * 1024).map(|i| i as f32).collect();
        w.ingest(&chunk, 1024);
        w.synthesize_up_to(1024);
        let n = w.output_available();
        let mut out = vec![0.0f32; n];
        w.drain_output(&mut out, n);
        heard.extend_from_slice(&out);
    }
    // Long enough for input to have been trimmed.
    assert!(heard.len() > 30_000);
    for (i, s) in heard.iter().enumerate().skip(1536) {
        assert_eq!(*s, i as f32);
    }
}

#[test]
fn output_that_was_made_stays() {
    let mut w = Wsola::<f32>::new(2, &ones());
    w.set_stretch(2.0);
    let input: Vec<f32> = (0..16000).map(|i| ((i * 7) % 31) as f32).collect();
    w.ingest(&input, 8000);
    w.synthesize_up_to(700);
    let before = w.out_queue.chans.clone();
    assert_eq!(before[0].len(), 1024);
    w.synthesize_up_to(3000);
    assert_eq!(w.output_available(), 3072);
    for c in 0..2 {
        assert_eq!(w.out_queue.chans[c][..1024], before[c][..]);
    }
}

#[test]
fn phases_move_on_at_their_own_pace() {
    // A bin that turns exactly at its own frequency keeps it.
    let pi = std::f32::consts::PI;
    let k = 16usize;
    let hop = 256usize;
    let omega = 2.0 * pi * k as f32 / 2048.0;
    let phase = (omega * hop as f32) % (2.0 * pi);
    let next = advance_phase(0.5, 0.0, phase, k, hop, pi);
    assert!((next - (0.5 + omega * 512.0)).abs() < 1e-3);
    let x = 2.0f32 - 0.3 - 2.0 * pi * 3.0 / 2048.0 * 100.0;
    let w = 2.0 * pi * 3.0 / 2048.0;
    let d = (x + pi).rem_euclid(2.0 * pi) - pi;
    let want = 1.0 + (w + d / 100.0) * 512.0;
    assert!((advance_phase(1.0, 0.3, 2.0, 3, 100, pi) - want).abs() < 1e-3);
}

#[test]
fn half_a_turn_goes_forward() {
    // Bin 0 has no pace of its own, so the whole difference counts.
    let pi = std::f32::consts::PI;
    for difference in [pi, -pi] {
        assert_eq!(advance_phase(0.0, 0.0, difference, 0, 1, pi), pi * 512.0);
    }
    assert_eq!(advance_phase(0.0, 0.0, 0.5, 0, 1, pi), ((0.5f32 + pi) - pi) * 512.0);
}

#[test]
fn phases_are_tied_to_their_peaks() {
    let mut m = vec![0.0f32; NUM_BINS];
    m[100] = 1.0;
    m[200] = 2.0;
    m[300] = 1e-6;
    let out: Vec<f32> = (0..NUM_BINS).map(|k| k as f32).collect();
    let cur: Vec<f32> = (0..NUM_BINS).map(|k| (k as f32) * 0.5).collect();
    let r = phase_lock(&out, &m, &cur);
    assert_eq!(r[100], 100.0);
    assert_eq!(r[200], 200.0);
    assert_eq!(r[0], 100.0 + (0.0 - 50.0));
    assert_eq!(r[150], 100.0 + (75.0 - 50.0));
    assert_eq!(r[151], 200.0 + (75.5 - 100.0));
    assert_eq!(r[300], 200.0 + (150.0 - 100.0));
    assert_eq!(phase_lock(&out, &vec![0.0; NUM_BINS], &cur), out);
}

fn spectrum(level: f32) -> (Planes<f32>, Planes<f32>) {
    let mut m = Planes::zeros(1, NUM_BINS);
    m.chans[0][50] = level;
    let mut p = Planes::zeros(1, NUM_BINS);
    p.chans[0][50] = 0.1;
    (m, p)
}

#[test]
fn first_frames_and_attacks_keep_their_phases() {
    let pi = std::f32::consts::PI;
    let mut v = PhaseVocoder::<f32>::new(1, ones());
    v.ingest(&vec![1.0f32; 8192], 8192);
    let frame = Planes { chans: vec![vec![2048.0f32; 2048]] };
    let mut transients = Vec::new();
    for level in [1.0f32, 1.0, 50.0, 100.0, 100.0] {
        assert!(v.analyse().is_some());
        let (m, p) = spectrum(level);
        v.advance_phases(&m, p, pi);
        transients.push(v.phases.onsets.was_transient);
        v.synthesize(&frame);
    }
    // The second attack in a row does not count as one.
    assert_eq!(transients, vec![false, false, true, false, false]);
    assert_eq!(v.output_available(), 5 * 512);
    let mut out = vec![0.0f32; 5 * 512];
    v.drain_output(&mut out, 5 * 512);
    assert_eq!(out[0], 1.0);
    assert_eq!(out[3 * 512], 4.0);
    let mut w = PhaseVocoder::<f32>::new(1, ones());
    let (m, p) = spectrum(1.0);
    w.advance_phases(&m, p, pi);
    assert_eq!(w.phases.out_phase.chans[0][50], 0.1);
}

#[test]
fn frames_are_cut_under_the_window() {
    let mut window = ones();
    window[1] = 0.5;
    let mut v = PhaseVocoder::<f32>::new(1, window);
    v.ingest(&vec![2.0f32; 2047], 2047);
    assert!(v.analyse().is_none());
    v.ingest(&[3.0], 1);
    let f = v.analyse().unwrap();
    assert_eq!(f.chans[0][..2], [2.0, 1.0]);
    assert_eq!(f.chans[0][2047], 3.0);
    v.reset();
    assert!(v.analyse().is_none());
    v.set_stretch(2.0);
    assert_eq!(v.target_stretch(), 2.0);
    assert_eq!(v.effective_stretch(), 2.0);
}

#[test]
fn shifting_needs_a_stretch_and_a_resampler() {
    let mut s = WsolaPitchShift::<f32>::new(1, &ones());
    s.shift.set_speed(0.1);
    assert_eq!(s.shift.speed, 0.25);
    s.shift.set_speed(3.0);
    assert_eq!(s.shift.speed, 2.0);
    s.shift.set_pitch_semitones(-20.0);
    assert_eq!(s.shift.pitch_semitones, -12.0);
    s.shift.set_speed(0.5);
    s.recompute(2.0);
    assert_eq!(s.wsola.target_stretch(), 4.0);
    assert_eq!(s.expected_output_frames_per_chunk(2.0), 2048);
    s.recompute(0.5);
    let input = vec![1.0f32; 1024];
    assert_eq!(s.begin(&input, 5120, 2), None);
    for _ in 0..3 {
        assert_eq!(s.begin(&input, 5120, 1), Some(5120));
    }
    assert!(s.shift.drain.frames() > 0);
}

#[test]
fn the_resampler_runs_while_there_is_enough() {
    let mut q = PitchShift::<f32>::new(1);
    assert!(!q.wants_resampling(10));
    q.drain.feed(&vec![1.0f32; 1500], 1500);
    assert!(q.wants_resampling(10));
    let resampled = Planes { chans: vec![vec![7.0f32; 600]] };
    q.accept(1024, &resampled, 512);
    assert_eq!((q.drain.frames(), q.out_queue.frames()), (476, 512));
    assert!(!q.wants_resampling(10));
    let mut out = vec![0.0f32; 300];
    assert_eq!(q.finish(&mut out, 300), 300);
    assert_eq!(out, vec![7.0; 300]);
    assert_eq!(q.out_queue.frames(), 212);
}

#[test]
fn spectral_processors_set_their_goals() {
    let input = vec![1.0f32; 1024];
    let mut s = PhaseVocoderSpeed::<f32>::new(1, ones());
    s.set_speed(0.5);
    assert_eq!(s.expected_output_frames_per_chunk(), 2048);
    let goal = s.begin(&input, 5120, 1).unwrap();
    assert_eq!((goal.max_out, goal.target), (5120, 2048));
    let goal = s.begin(&input, 100, 1).unwrap();
    assert_eq!((goal.max_out, goal.target), (100, 100));
    assert_eq!(s.begin(&input, 5120, 2), None);
    let mut p = PhaseVocoderPitchShift::<f32>::new(1, ones());
    assert_eq!((p.shift.speed, p.shift.pitch_semitones), (1.0, 0.0));
    p.recompute(2.0);
    assert_eq!(p.expected_output_frames_per_chunk(2.0), 1024);
    let goal = p.begin(&input, 5120, 1).unwrap();
    assert_eq!((goal.max_out, goal.target), (5120, 2048));
    p.queue_stretched();
    assert_eq!(p.shift.drain.frames(), 0);
}

#[test]
fn resampling_takes_whole_chunks() {
    let r = ResampleSpeed { channels: 2, max_output_frames: 2000 };
    let input: Vec<f32> = (0..2048).map(|i| i as f32).collect();
    let p = r.begin(&input, 4000, 2).unwrap();
    assert_eq!(p.chans[1][..2], [1.0, 3.0]);
    assert!(r.begin(&input, 3999, 2).is_none());
    assert!(r.begin(&input[..2047], 4000, 2).is_none());
    assert!(r.begin(&input, 4000, 1).is_none());
    let mut out = vec![0.0f32; 6];
    r.finish(&p, 2, &mut out);
    assert_eq!(out, vec![0.0, 1.0, 2.0, 3.0, 0.0, 0.0]);
}
