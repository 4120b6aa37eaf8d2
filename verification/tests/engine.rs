use std::sync::Arc;

use loop_studio::dsp::eq::{EqTones, Tone};
use loop_studio::dsp::passthrough::Passthrough;
use loop_studio::dsp::wsola::WsolaSpeed;
use loop_studio::dsp::DspKind;
use loop_studio::engine::command::Command;
use loop_studio::engine::metronome::Voice;
use loop_studio::engine::speed_ramp::{
    advance_speed_ramp, step_in_speed_units, SpeedRampSettings, StepUnit,
};
use loop_studio::engine::worker::{
    apply_master_gain, choose_chunk, snap_into_loop, Action, Chunk, OutputFormat, Sound, Worker,
};
use loop_studio::track::{LoopRegion, Track};

const STEREO: OutputFormat = OutputFormat { sample_rate: 100, channels: 2 };

fn region(start: u64, end: u64) -> Option<LoopRegion> {
    Some(LoopRegion { start, end })
}

fn sound() -> Sound<f32> {
    let t = Tone { cos_w: 1.0, sin_w: 0.0, amp: 1.0, sqrt_amp: 1.0 };
    Sound {
        tones: EqTones { bands: [t; 5], shelf_q: 0.7 },
        frames_per_beat: 0,
        click_amp: 1.0,
    }
}

/// A stereo track whose samples count up.
fn track(frames: usize) -> Arc<Track<f32>> {
    Arc::new(Track {
        samples: (0..frames * 2).map(|i| i as f32).collect(),
        sample_rate: 100,
        channels: 2,
    })
}

fn loaded(frames: usize) -> Worker<f32> {
    let mut w = Worker::new();
    w.load_track(track(frames), Some(STEREO), vec![1.0], vec![2.0]);
    w
}

fn playing(frames: usize) -> Worker<f32> {
    let mut w = loaded(frames);
    w.apply(Command::Play);
    assert!(w.playing);
    w
}

#[test]
fn snapping_pulls_into_the_loop() {
    assert_eq!(snap_into_loop(5, None), 5);
    assert_eq!(snap_into_loop(5, region(10, 20)), 10);
    assert_eq!(snap_into_loop(10, region(10, 20)), 10);
    assert_eq!(snap_into_loop(19, region(10, 20)), 19);
    assert_eq!(snap_into_loop(20, region(10, 20)), 10);
    assert_eq!(snap_into_loop(5, region(10, 10)), 5);
    assert_eq!(snap_into_loop(5, region(20, 10)), 5);
}

#[test]
fn a_fresh_engine_plays_nothing() {
    let mut w = Worker::<f32>::new();
    w.apply(Command::Play);
    assert!(!w.playing);
    w.apply(Command::Seek(7));
    assert_eq!(w.cursor, 0);
    assert_eq!(w.state.speed, 1.0);
    assert_eq!(w.state.pitch, 0.0);
    assert_eq!(w.current_kind, DspKind::PhaseVocoder);
}

#[test]
fn loading_resets_and_plans_a_processor_for_new_channels() {
    let mut w = Worker::<f32>::new();
    w.apply(Command::SetSpeed(0.5));
    w.apply(Command::SetPitch(3.0));
    let t = track(10);
    assert!(w.needs_output(&t));
    assert!(w.needs_clicks(&t));
    let plan = w.load_track(t.clone(), Some(STEREO), vec![1.0], vec![2.0]).unwrap();
    assert_eq!((plan.channels, plan.kind), (2, DspKind::PhaseVocoder));
    assert_eq!((plan.speed, plan.pitch), (0.5, 3.0));
    assert_eq!(w.state.duration, 10);
    assert_eq!(w.state.loaded_id, 1);
    w.apply(Command::SetLoop(region(2, 8)));
    w.apply(Command::Seek(5));
    w.apply(Command::Play);
    assert!(!w.needs_output(&t));
    assert!(!w.needs_clicks(&t));
    assert!(w.load_track(t, None, vec![], vec![]).is_none());
    assert_eq!(w.output, Some(STEREO));
    assert_eq!((w.cursor, w.playing, w.loop_region), (0, false, None));
    assert_eq!(w.metronome.anchor_frame, 0);
    assert_eq!(w.metronome.click_normal, vec![1.0]);
    assert_eq!(w.state.loaded_id, 2);
}

#[test]
fn without_an_output_nothing_plays() {
    let mut w = Worker::<f32>::new();
    w.load_track(track(10), None, vec![], vec![]);
    w.apply(Command::Play);
    assert!(!w.playing);
    assert!(!w.state.playing);
}

#[test]
fn transport_commands_move_and_stop() {
    let mut w = playing(100);
    w.metronome.voice = Some(Voice { accent: true, pos: 0 });
    w.apply(Command::Seek(40));
    assert_eq!((w.cursor, w.state.position), (40, 40));
    assert_eq!(w.metronome.voice, None);
    w.apply(Command::Seek(1000));
    assert_eq!(w.cursor, 100);
    w.apply(Command::Seek(40));
    w.metronome.voice = Some(Voice { accent: true, pos: 0 });
    w.apply(Command::Pause);
    assert_eq!((w.cursor, w.playing, w.state.playing), (40, false, false));
    assert_eq!(w.metronome.voice, None);
    w.apply(Command::Play);
    w.passes_since_step = 3;
    w.apply(Command::Stop);
    assert_eq!((w.cursor, w.playing, w.state.position), (0, false, 0));
    assert_eq!(w.passes_since_step, 0);
}

#[test]
fn the_cursor_is_pulled_into_a_loop() {
    let mut w = loaded(100);
    w.apply(Command::Seek(50));
    w.apply(Command::SetLoop(region(60, 80)));
    assert_eq!((w.cursor, w.state.position, w.metronome.anchor_frame), (60, 60, 60));
    w.apply(Command::Seek(10));
    assert_eq!(w.cursor, 60);
    w.apply(Command::Seek(79));
    assert_eq!(w.cursor, 79);
    w.apply(Command::SetLoop(None));
    assert_eq!((w.cursor, w.metronome.anchor_frame), (79, 0));
}

#[test]
fn the_processor_is_told_of_speed_pitch_and_family() {
    let mut w = Worker::<f32>::new();
    assert!(matches!(w.apply(Command::SetSpeed(0.5)), Action::SetDspSpeed(s) if s == 0.5));
    assert!(matches!(w.apply(Command::SetPitch(-2.0)), Action::SetDspPitch(p) if p == -2.0));
    assert!(matches!(w.apply(Command::SetDsp(DspKind::Wsola)), Action::Nothing));
    assert_eq!(w.current_kind, DspKind::Wsola);
    w.load_track(track(10), Some(STEREO), vec![], vec![]);
    assert!(matches!(w.apply(Command::SetDsp(DspKind::Wsola)), Action::Nothing));
    match w.apply(Command::SetDsp(DspKind::PhaseVocoder)) {
        Action::BuildDsp(p) => {
            assert_eq!((p.channels, p.kind), (2, DspKind::PhaseVocoder));
            assert_eq!((p.speed, p.pitch), (0.5, -2.0));
        }
        _ => panic!("no processor planned"),
    }
    let t = track(4);
    assert!(matches!(w.apply(Command::LoadTrack(t)), Action::Load(_)));
}

#[test]
fn volume_has_a_floor_and_a_default() {
    let mut w = Worker::<f32>::new();
    assert!(matches!(w.apply(Command::SetMasterVolume(-3.0)), Action::ConvertVolume(v) if v == -3.0));
    assert!(matches!(w.apply(Command::SetMasterVolume(-99.0)), Action::ConvertVolume(v) if v == -60.0));
    w.set_master_gain(0.25);
    assert_eq!(w.master_target_gain, 0.25);
    assert!(matches!(w.apply(Command::SetMasterVolume(f32::NAN)), Action::Nothing));
    assert_eq!(w.master_target_gain, 1.0);
}

#[test]
fn switching_the_ramp_starts_its_count_afresh() {
    let mut w = loaded(10);
    w.passes_since_step = 5;
    let mut s = SpeedRampSettings::defaults();
    s.step_amount = 7.0;
    w.apply(Command::SetSpeedRamp(s));
    assert_eq!(w.passes_since_step, 5);
    s.enabled = true;
    w.apply(Command::SetSpeedRamp(s));
    assert_eq!(w.passes_since_step, 0);
    assert_eq!(w.speed_ramp.step_amount, 7.0);
}

#[test]
fn chunks_are_plain_stitched_or_none() {
    assert_eq!(choose_chunk(0, None, 100, 10), Chunk::Plain);
    assert_eq!(choose_chunk(90, None, 100, 10), Chunk::Plain);
    assert_eq!(choose_chunk(91, None, 100, 10), Chunk::EndOfTrack);
    assert_eq!(choose_chunk(100, None, 100, 10), Chunk::Nothing);
    assert_eq!(choose_chunk(20, region(20, 45), 100, 10), Chunk::Plain);
    assert_eq!(choose_chunk(40, region(20, 45), 100, 10), Chunk::Stitched(5));
    assert_eq!(choose_chunk(20, region(20, 25), 100, 10), Chunk::Nothing);
    assert_eq!(choose_chunk(95, region(95, 20), 100, 10), Chunk::Nothing);
}

#[test]
fn plain_chunks_pass_through_and_the_end_stops() {
    let mut w = playing(1500);
    let mut dsp = Passthrough::new();
    let mut scratch = Vec::new();
    assert_eq!(w.produce(&mut dsp, 2047, &sound(), &mut scratch), None);
    assert_eq!(w.cursor, 0);
    assert_eq!(w.produce(&mut dsp, 2048, &sound(), &mut scratch), Some(2048));
    assert_eq!(scratch[..4], [0.0, 1.0, 2.0, 3.0]);
    assert_eq!(scratch[2047], 2047.0);
    assert_eq!((w.cursor, w.state.position), (1024, 1024));
    w.stop_at_end();
    assert!(w.playing);
    assert_eq!(w.produce(&mut dsp, 99999, &sound(), &mut scratch), None);
    assert_eq!((w.cursor, w.state.position), (1500, 1500));
    w.stop_at_end();
    assert!(!w.playing);
    assert!(!w.state.playing);
}

#[test]
fn loops_are_read_round_and_round() {
    let mut w = playing(3000);
    w.apply(Command::SetLoop(region(100, 1400)));
    let mut dsp = Passthrough::new();
    let mut scratch = Vec::new();
    let mut heard: Vec<f32> = Vec::new();
    for _ in 0..10 {
        let n = w.produce(&mut dsp, 99999, &sound(), &mut scratch).unwrap();
        heard.extend_from_slice(&scratch[..n]);
        w.stop_at_end();
        assert!(w.cursor >= 100 && w.cursor <= 1400);
    }
    for (j, s) in heard.iter().enumerate() {
        let frame = 100 + (j / 2) % 1300;
        assert_eq!(*s, (frame * 2 + j % 2) as f32);
    }
    assert!(w.playing);
}

#[test]
fn a_loop_shorter_than_a_chunk_is_silent() {
    let mut w = playing(3000);
    w.apply(Command::SetLoop(region(100, 1100)));
    let mut dsp = Passthrough::new();
    let mut scratch = Vec::new();
    assert_eq!(w.produce(&mut dsp, 99999, &sound(), &mut scratch), None);
    assert_eq!(w.cursor, 100);
}

#[test]
fn every_pass_of_a_loop_counts_for_the_ramp() {
    // One loop is a whole number of chunks long, the other is not.
    for (end, chunks) in [(2048u64, 2usize), (1500, 2)] {
        let mut w = playing(3000);
        w.apply(Command::SetLoop(region(0, end)));
        let mut s = SpeedRampSettings::defaults();
        s.enabled = true;
        s.passes_per_step = 1;
        s.target_speed = 1.5;
        s.step_amount = 10.0;
        w.apply(Command::SetSpeedRamp(s));
        let mut dsp = Passthrough::new();
        let mut scratch = Vec::new();
        for _ in 0..chunks {
            assert_eq!(w.state.speed, 1.0);
            w.produce(&mut dsp, 99999, &sound(), &mut scratch);
        }
        assert_eq!(w.state.speed, 1.0 + 10.0 / 100.0);
    }
}

#[test]
fn clicks_of_a_stitched_chunk_restart_at_the_loop() {
    let mut w = playing(3000);
    w.apply(Command::SetLoop(region(0, 1200)));
    let mut m = w.metronome.settings;
    m.enabled = true;
    w.apply(Command::SetMetronome(m));
    let mut snd = sound();
    snd.frames_per_beat = 5000;
    let mut dsp = Passthrough::new();
    let mut scratch = Vec::new();
    w.produce(&mut dsp, 99999, &snd, &mut scratch);
    assert_eq!(scratch[0], 0.0 + 2.0);
    w.produce(&mut dsp, 99999, &snd, &mut scratch);
    // 176 frames to the end of the loop, and then its downbeat.
    assert_eq!(scratch[175 * 2], (1199 * 2) as f32);
    assert_eq!(scratch[176 * 2], 0.0 + 2.0);
    assert_eq!(scratch[177 * 2], 2.0);
}

#[test]
fn master_gain_is_constant_or_ramped() {
    let mut out = [1.0f32; 4];
    let mut g = 1.0f32;
    apply_master_gain(&mut out, 2, &mut g, 1.0);
    assert_eq!(out, [1.0; 4]);
    g = 0.5;
    apply_master_gain(&mut out, 2, &mut g, 0.5);
    assert_eq!(out, [0.5; 4]);
    let mut out = [1.0f32; 9];
    g = 0.0;
    apply_master_gain(&mut out, 2, &mut g, 1.0);
    assert_eq!(out, [0.0, 0.0, 0.25, 0.25, 0.5, 0.5, 0.75, 0.75, 1.0]);
    assert_eq!(g, 1.0);
    let mut short = [1.0f32; 1];
    apply_master_gain(&mut short, 2, &mut g, 3.0);
    assert_eq!((short, g), ([1.0], 1.0));
}

#[test]
fn a_ramp_steps_in_percent_or_beats() {
    let mut s = SpeedRampSettings::<f32>::defaults();
    assert_eq!(step_in_speed_units(&s, 0.0), 0.05);
    s.step_unit = StepUnit::Bpm;
    assert_eq!(step_in_speed_units(&s, 120.0), 5.0 / 120.0);
    assert_eq!(step_in_speed_units(&s, 0.0), 0.0);
    assert_eq!(step_in_speed_units(&s, f32::NAN), 0.0);
    s.step_amount = -1.0;
    assert_eq!(step_in_speed_units(&s, 120.0), 0.0);
    s.step_amount = f32::INFINITY;
    assert_eq!(step_in_speed_units(&s, 120.0), 0.0);
}

#[test]
fn a_ramp_steps_every_few_passes_and_stops_at_its_target() {
    let mut s = SpeedRampSettings::<f32>::defaults();
    let mut passes = 0u32;
    assert_eq!(advance_speed_ramp(&s, &mut passes, 0.5, 120.0), None);
    assert_eq!(passes, 0);
    s.enabled = true;
    s.step_amount = 30.0;
    let mut speed = 0.5f32;
    let mut seen = Vec::new();
    for _ in 0..8 {
        let next = advance_speed_ramp(&s, &mut passes, speed, 120.0);
        if let Some(n) = next {
            speed = n;
        }
        seen.push(next);
    }
    assert_eq!(seen[0], None);
    assert_eq!(seen[1], Some(0.8));
    assert_eq!(seen[2], None);
    assert_eq!(seen[3], Some(1.0));
    assert_eq!(seen[5], None);
    s.target_speed = 0.9;
    s.passes_per_step = 0;
    assert_eq!(advance_speed_ramp(&s, &mut passes, 1.0, 120.0), Some(0.9));
    assert_eq!(advance_speed_ramp(&s, &mut passes, f32::NAN, 120.0), None);
}

#[test]
fn a_stretching_processor_is_fed_and_told_of_the_ramp() {
    let mut w = playing(5000);
    w.apply(Command::SetLoop(region(0, 1024)));
    let mut s = SpeedRampSettings::defaults();
    s.enabled = true;
    s.passes_per_step = 1;
    s.target_speed = 0.5;
    s.step_amount = 50.0;
    w.apply(Command::SetSpeedRamp(s));
    let mut dsp = WsolaSpeed::<f32>::new(2, &vec![1.0; 2048]);
    let mut scratch = Vec::new();
    // Too little has come in for a first frame.
    assert_eq!(w.produce(&mut dsp, 99999, &sound(), &mut scratch), Some(0));
    assert_eq!(w.state.speed, 0.5);
    assert_eq!(dsp.inner.target_stretch(), 2.0);
    assert_eq!(w.cursor, 1024);
    w.produce(&mut dsp, 99999, &sound(), &mut scratch);
    let n = w.produce(&mut dsp, 99999, &sound(), &mut scratch).unwrap();
    assert!(n >= 1024);
    // The ring has no room for what the slower speed is expected to give.
    assert_eq!(w.produce(&mut dsp, 2048 * 2 - 1, &sound(), &mut scratch), None);
}

#[test]
fn a_chunk_can_be_made_step_by_step() {
    let mut w = playing(3000);
    w.apply(Command::SetLoop(region(100, 1400)));
    assert_eq!(w.plan_chunk(1024, 10, 9), Chunk::Nothing);
    assert_eq!(w.plan_chunk(1024, 10, 10), Chunk::Plain);
    let input = w.read_chunk(1024, Chunk::Plain);
    assert_eq!((input.len(), input[0]), (2048, 200.0));
    let mut out = input.clone();
    assert_eq!(w.complete_chunk(&mut out, 1024, Chunk::Plain, &sound()), None);
    assert_eq!(out, input);
    assert_eq!(w.cursor, 1124);
    let c = w.plan_chunk(1024, 10, 10);
    assert_eq!(c, Chunk::Stitched(276));
    let input = w.read_chunk(1024, c);
    assert_eq!(input[276 * 2], 200.0);
    let mut few = [1.0f32, 2.0];
    w.complete_chunk(&mut few, 1024, c, &sound());
    assert_eq!(w.cursor, 100 + 748);
}

#[test]
fn a_ramp_stays_between_the_speed_and_its_target() {
    let mut s = SpeedRampSettings::<f32>::defaults();
    s.enabled = true;
    s.passes_per_step = 1;
    for step in [0.1f32, 3.0, 17.0, 50.0] {
        for target in [0.25f32, 0.7, 1.0, 1.9] {
            s.step_amount = step;
            s.target_speed = target;
            let mut speed = 1.3f32;
            for _ in 0..2000 {
                let mut passes = 0;
                let Some(new) = advance_speed_ramp(&s, &mut passes, speed, 120.0) else {
                    break;
                };
                let delta = step_in_speed_units(&s, 120.0);
                if speed < target {
                    assert!(speed <= new && new <= target && new <= speed + delta);
                } else {
                    assert!(target <= new && new <= speed && speed - delta <= new);
                }
                speed = new;
            }
            assert!((speed - target).abs() < 1e-6);
        }
    }
}
