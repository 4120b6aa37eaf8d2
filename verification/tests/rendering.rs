use std::sync::Arc;

use loop_studio::dsp::eq::{EqSettings, EqTones, Tone};
use loop_studio::dsp::passthrough::Passthrough;
use loop_studio::dsp::DspKind;
use loop_studio::engine::metronome::MetronomeSettings;
use loop_studio::engine::worker::Sound;
use loop_studio::render::{
    check_loop, file_step, last_news, part_path_for, to_pcm16, ExportFormat, FileStep, Pass,
    RenderError, RenderOutcome, RenderProgress, RenderRequest, Renderer,
};
use loop_studio::track::{LoopRegion, Track};

fn sound(frames_per_beat: u64) -> Sound<f32> {
    let t = Tone { cos_w: 1.0, sin_w: 0.0, amp: 1.0, sqrt_amp: 1.0 };
    Sound { tones: EqTones { bands: [t; 5], shelf_q: 0.7 }, frames_per_beat, click_amp: 1.0 }
}

fn request(start: u64, end: u64) -> RenderRequest<f32> {
    let mut metronome = MetronomeSettings::defaults();
    metronome.enabled = true;
    RenderRequest {
        track: Arc::new(Track {
            samples: (0..5000).map(|i| i as f32).collect(),
            sample_rate: 100,
            channels: 1,
        }),
        loop_region: LoopRegion { start, end },
        dsp_kind: DspKind::Wsola,
        speed: 1.0,
        pitch_semitones: 0.0,
        eq: EqSettings::defaults(),
        include_metronome: false,
        metronome,
        out_path: "x.wav".to_string(),
        format: ExportFormat::Pcm16,
        job_id: 1,
    }
}

#[test]
fn headers_follow_the_format() {
    let p = ExportFormat::Pcm16.spec(2, 44100);
    assert_eq!((p.channels, p.sample_rate, p.bits_per_sample, p.fractional), (2, 44100, 16, false));
    let f = ExportFormat::F32.spec(1, 48000);
    assert_eq!((f.channels, f.sample_rate, f.bits_per_sample, f.fractional), (1, 48000, 32, true));
}

#[test]
fn unfinished_files_have_their_own_ending() {
    assert_eq!(part_path_for("/tmp/foo.wav"), "/tmp/foo.wav.part");
    assert_eq!(part_path_for(""), ".part");
}

#[test]
fn sixteen_bit_samples_are_cut_off() {
    for i in -3000i32..=3000 {
        let x = i as f32 / 1999.0;
        let want = (x.clamp(-1.0, 1.0) * 32767.0) as i16;
        assert_eq!(to_pcm16(x), want, "{x}");
    }
    assert_eq!(to_pcm16(f32::NAN), 0);
    assert_eq!(to_pcm16(f32::INFINITY), 32767);
    assert_eq!(to_pcm16(f32::NEG_INFINITY), -32767);
    assert_eq!(to_pcm16(-0.0f32), 0);
}

#[test]
fn loops_that_cannot_be_rendered_are_refused() {
    let l = |start, end| LoopRegion { start, end };
    assert_eq!(check_loop(0, l(0, 5000), 1024), Err(RenderError::NoChannels));
    assert_eq!(check_loop(2, l(9, 3), 1024), Err(RenderError::EndBeforeStart));
    assert_eq!(check_loop(2, l(9, 9), 1024), Err(RenderError::EmptyLoop));
    assert_eq!(
        check_loop(2, l(0, 1023), 1024),
        Err(RenderError::TooShort { length: 1023, chunk: 1024 })
    );
    assert_eq!(check_loop(2, l(0, 1024), 1024), Ok(1024));
    assert_eq!(
        Renderer::new(&request(0, 10), 1024, vec![], vec![]).err(),
        Some(RenderError::TooShort { length: 10, chunk: 1024 })
    );
}

#[test]
fn two_passes_go_through_the_loop() {
    let mut r = Renderer::new(&request(100, 2600), 1024, vec![], vec![]).ok().unwrap();
    let mut dsp = Passthrough::new();
    let mut scratch = Vec::new();
    let mut captured: Vec<f32> = Vec::new();
    let mut told: Vec<f32> = Vec::new();
    let mut consumed = Vec::new();
    while r.pass != Pass::Finished {
        while r.wants_chunk() {
            let c = r.next(&mut dsp, &sound(0), &mut scratch);
            consumed.push(r.consumed);
            told.extend(c.progress);
            if c.capture {
                captured.extend_from_slice(&scratch[..c.ready]);
            }
        }
        told.push(r.end_pass());
    }
    assert_eq!(consumed, vec![1024, 2048, 2500, 1024, 2048, 2500]);
    assert_eq!(captured.len(), 2500);
    for (i, s) in captured.iter().enumerate() {
        assert_eq!(*s, (100 + i) as f32);
    }
    let part = |n: f32| n / 2500.0;
    assert_eq!(
        told,
        vec![
            0.5 * part(1024.0),
            0.5 * part(2048.0),
            0.5,
            0.5,
            0.5 + 0.5 * part(1024.0),
            0.5 + 0.5 * part(2048.0),
            1.0,
            1.0
        ]
    );
    assert!(!r.wants_chunk());
}

#[test]
fn the_metronome_is_baked_in_only_if_asked() {
    for asked in [false, true] {
        let mut req = request(0, 1024);
        req.include_metronome = asked;
        let mut r = Renderer::new(&req, 1024, vec![1.0], vec![2.0]).ok().unwrap();
        let mut scratch = Vec::new();
        r.next(&mut Passthrough::new(), &sound(500), &mut scratch);
        assert_eq!(scratch[0], if asked { 2.0 } else { 0.0 });
        assert_eq!(scratch[500], if asked { 501.0 } else { 500.0 });
    }
}

#[test]
fn a_render_can_be_made_step_by_step() {
    let mut r = Renderer::new(&request(100, 2600), 1024, vec![], vec![]).ok().unwrap();
    let input = r.read_chunk();
    assert_eq!((input.len(), input[0], input[1023]), (1024, 100.0, 1123.0));
    let none = r.complete_chunk(&mut [], &sound(0));
    assert_eq!((none.ready, none.capture, none.progress), (0, false, None));
    assert_eq!(r.consumed, 1024);
    let mut out = r.read_chunk();
    let some = r.complete_chunk(&mut out, &sound(0));
    assert_eq!(some.ready, 1024);
    assert_eq!(some.progress, Some(0.5 * (2048.0 / 2500.0)));
    let last = r.read_chunk();
    assert_eq!((last[451], last[452]), (2599.0, 100.0));
}

#[test]
fn a_captured_pass_lasts_one_loop() {
    for (start, end) in [(0u64, 1500u64), (0, 1024), (10, 2058), (7, 4999)] {
        let mut r = Renderer::new(&request(start, end), 1024, vec![], vec![]).ok().unwrap();
        let mut dsp = Passthrough::new();
        let mut scratch = Vec::new();
        let mut frames = 0;
        let mut told = 0.0f32;
        while r.pass != Pass::Finished {
            while r.wants_chunk() {
                let priming = r.pass == Pass::Priming;
                let c = r.next(&mut dsp, &sound(0), &mut scratch);
                if let Some(p) = c.progress {
                    assert!(told <= p);
                    assert!(if priming { p <= 0.5 } else { 0.5 <= p && p <= 1.0 });
                    told = p;
                }
                if c.capture {
                    frames += c.ready as u64;
                }
            }
            told = r.end_pass();
        }
        assert_eq!(frames, end - start);
        assert_eq!(told, 1.0);
    }
}

#[test]
fn the_last_chunk_counts_in_proportion() {
    let mut r = Renderer::new(&request(0, 1536), 1024, vec![], vec![]).ok().unwrap();
    r.complete_chunk(&mut [0.0; 2048], &sound(0));
    // Half of the last chunk is the loop's own, so half of what it gave is.
    let c = r.complete_chunk(&mut [0.0; 2001], &sound(0));
    assert_eq!(c.ready, 1000);
}

#[test]
fn an_export_ends_with_one_file_or_none() {
    let failed = || RenderOutcome::Failed { error: "disk".to_string() };
    assert_eq!(file_step(&RenderOutcome::Done), FileStep::Rename);
    assert_eq!(file_step(&RenderOutcome::Cancelled), FileStep::Remove);
    assert_eq!(file_step(&failed()), FileStep::Remove);
    let path = || "a.wav".to_string();
    assert!(matches!(
        last_news::<f32>(4, path(), RenderOutcome::Done, None),
        RenderProgress::Done { job_id: 4, out_path } if out_path == "a.wav"
    ));
    assert!(matches!(
        last_news::<f32>(4, path(), RenderOutcome::Done, Some("no such place".to_string())),
        RenderProgress::Failed { job_id: 4, error } if error == "rename failed: no such place"
    ));
    assert!(matches!(
        last_news::<f32>(4, path(), RenderOutcome::Cancelled, None),
        RenderProgress::Cancelled { job_id: 4 }
    ));
    assert!(matches!(
        last_news::<f32>(4, path(), failed(), None),
        RenderProgress::Failed { job_id: 4, error } if error == "disk"
    ));
}
