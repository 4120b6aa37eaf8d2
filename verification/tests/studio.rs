use std::sync::Arc;

use loop_studio::analysis::bpm::BpmStatus;
use loop_studio::dsp::DspKind;
use loop_studio::engine::command::Command;
use loop_studio::engine::state::SharedState;
use loop_studio::render::{render_progress_job_id, RenderProgress};
use loop_studio::session::Session;
use loop_studio::studio::{LoadStatus, RenderStatus, Studio};
use loop_studio::track::peaks::TrackPeaks;
use loop_studio::track::{LoopRegion, Marker, NamedLoop, Track};
use loop_studio::ui::loops::LoopsAction;

fn track(frames: usize) -> (Arc<Track<f32>>, Arc<TrackPeaks<f32>>) {
    let t = Track { samples: vec![0.25; frames], sample_rate: 1000, channels: 1 };
    let p = TrackPeaks::compute(&t);
    (Arc::new(t), Arc::new(p))
}

fn load(s: &mut Studio<f32>, path: &str, frames: usize) -> Vec<Command<f32>> {
    let (t, p) = track(frames);
    s.track_loaded(path.to_string(), t, p, 77)
}

fn names(commands: &[Command<f32>]) -> Vec<&'static str> {
    commands
        .iter()
        .map(|c| match c {
            Command::LoadTrack(_) => "load",
            Command::Play => "play",
            Command::Pause => "pause",
            Command::Stop => "stop",
            Command::Seek(_) => "seek",
            Command::SetLoop(_) => "loop",
            Command::SetSpeed(_) => "speed",
            Command::SetPitch(_) => "pitch",
            Command::SetDsp(_) => "dsp",
            Command::SetMetronome(_) => "metronome",
            Command::SetMasterVolume(_) => "volume",
            Command::SetEq(_) => "eq",
            Command::SetSpeedRamp(_) => "ramp",
        })
        .collect()
}

/// A studio with a loaded track and something of everything.
fn busy() -> Studio<f32> {
    let mut s = Studio::new();
    load(&mut s, "a.wav", 500);
    s.deck.draw(LoopRegion { start: 10, end: 90 });
    s.deck.act(LoopsAction::SaveCurrent);
    s.markers.push(Marker { frame: 40, label: "verse".to_string() });
    s.dsp_kind = DspKind::Wsola;
    s.metronome.bpm = 99.0;
    s.eq.enabled = true;
    s.speed_ramp.passes_per_step = 7;
    s
}

fn state() -> SharedState<f32> {
    let mut st = SharedState::new();
    st.speed = 0.75;
    st.pitch = 1.25;
    st.position = 60;
    st
}

#[test]
fn a_fresh_studio_is_idle() {
    let s = Studio::<f32>::new();
    assert!(matches!(s.status, LoadStatus::Idle));
    assert!(s.follow_playhead);
    assert_eq!(s.view.len, 64);
    assert!(s.build_session(&state()).is_none());
    assert!(!s.can_export());
}

#[test]
fn a_bare_track_clears_what_was_there() {
    let mut s = busy();
    let commands = load(&mut s, "b.wav", 300);
    assert_eq!(names(&commands), vec!["load", "eq"]);
    assert!(matches!(&commands[1], Command::SetEq(e) if e.enabled));
    assert_eq!(s.deck.loop_region, None);
    assert!(s.deck.loops.is_empty() && s.markers.is_empty());
    assert_eq!(s.view.len, 300);
    assert_eq!(s.dsp_kind, DspKind::Wsola);
    assert_eq!(s.last_autosave_at, Some(77));
}

#[test]
fn a_saved_session_comes_back_whole() {
    let before = busy();
    let session = before.build_session(&state()).unwrap();
    assert_eq!(session.version, 6);
    assert_eq!(session.track_path, "a.wav");
    assert_eq!((session.speed, session.pitch_semitones, session.last_position), (0.75, 1.25, 60));
    let mut s = Studio::<f32>::new();
    s.open_session(session);
    s.decode_started("a.wav".to_string());
    let commands = load(&mut s, "a.wav", 500);
    assert_eq!(
        names(&commands),
        vec!["load", "dsp", "speed", "pitch", "metronome", "ramp", "loop", "seek", "eq"]
    );
    assert!(matches!(commands[6], Command::SetLoop(Some(LoopRegion { start: 10, end: 90 }))));
    assert!(matches!(commands[7], Command::Seek(60)));
    assert_eq!(s.deck.loops, before.deck.loops);
    assert_eq!(s.deck.active_loop, Some(0));
    assert_eq!(s.deck.loop_region, before.deck.loop_region);
    assert_eq!(s.markers, before.markers);
    assert_eq!((s.pitch_coarse, s.pitch_cents), (1, 25));
    assert_eq!(s.metronome, before.metronome);
    assert_eq!(s.eq, before.eq);
    assert_eq!(s.speed_ramp, before.speed_ramp);
    assert_eq!(s.dsp_kind, DspKind::Wsola);
}

fn restored(mut session: Session<f32>, frames: usize) -> Studio<f32> {
    session.track_path = "c.wav".to_string();
    let mut s = Studio::new();
    s.open_session(session);
    load(&mut s, "c.wav", frames);
    s
}

#[test]
fn a_session_is_cut_to_a_shorter_track() {
    let mut session = busy().build_session(&state()).unwrap();
    session.loops.push(NamedLoop { start: 200, end: 300, label: String::new() });
    session.last_position = 400;
    let s = restored(session, 50);
    assert_eq!(s.deck.loops.len(), 1);
    assert_eq!(s.deck.loop_region, Some(LoopRegion { start: 10, end: 50 }));
    assert_eq!(s.markers.len(), 1);
}

#[test]
fn an_unsaved_loop_comes_back_too() {
    let mut b = busy();
    b.deck.draw(LoopRegion { start: 100, end: 200 });
    let session = b.build_session(&state()).unwrap();
    assert_eq!(session.active_loop, None);
    let s = restored(session, 500);
    assert_eq!(s.deck.loop_region, Some(LoopRegion { start: 100, end: 200 }));
    assert_eq!(s.deck.active_loop, None);
}

#[test]
fn a_session_for_another_track_is_dropped() {
    let mut s = Studio::<f32>::new();
    s.open_session(busy().build_session(&state()).unwrap());
    assert_eq!(names(&load(&mut s, "other.wav", 100)), vec!["load", "eq"]);
    assert!(s.pending_restore.is_none());
}

#[test]
fn a_session_opened_by_hand_goes_first() {
    let mut first = busy().build_session(&state()).unwrap();
    first.speed = 0.5;
    let second = busy().build_session(&state()).unwrap();
    let mut s = Studio::<f32>::new();
    s.open_session(first);
    s.offer_restore(second);
    assert_eq!(s.pending_restore.as_ref().unwrap().speed, 0.5);
}

#[test]
fn a_failed_load_drops_its_own_session_only() {
    let mut s = Studio::<f32>::new();
    s.open_session(busy().build_session(&state()).unwrap());
    s.load_failed("b.wav".to_string(), "gone".to_string(), 5);
    assert!(s.pending_restore.is_some());
    assert!(matches!(&s.status, LoadStatus::Failed { error, .. } if error == "gone"));
    s.load_failed("a.wav".to_string(), "gone".to_string(), 5);
    assert!(s.pending_restore.is_none());
}

#[test]
fn only_the_loaded_track_takes_a_tempo() {
    let mut s = busy();
    let (_, start, end) = s.start_bpm_detect().unwrap();
    assert_eq!((start, end), (10, 90));
    assert!(s.start_bpm_detect().is_none());
    s.bpm_result(&"other.wav".to_string(), Some(100.0));
    assert!(matches!(s.bpm_status, BpmStatus::Running));
    s.bpm_result(&"a.wav".to_string(), Some(100.0));
    assert!(matches!(s.bpm_status, BpmStatus::Done(b) if b == 100.0));
    s.deck.clear();
    let (_, start, end) = s.start_bpm_detect().unwrap();
    assert_eq!((start, end), (0, 500));
    s.bpm_result(&"a.wav".to_string(), None);
    assert!(matches!(s.bpm_status, BpmStatus::Failed));
    assert!(Studio::<f32>::new().start_bpm_detect().is_none());
}

#[test]
fn exports_run_one_at_a_time_and_ignore_old_news() {
    let mut s = busy();
    assert!(s.can_export());
    let req = s.start_render(&state(), "out.wav".to_string()).unwrap();
    assert_eq!((req.job_id, req.speed, req.pitch_semitones), (1, 0.75, 1.25));
    assert_eq!(req.out_path, "out.wav");
    assert!(s.start_render(&state(), "again.wav".to_string()).is_none());
    assert!(!s.render_event(RenderProgress::Started { job_id: 1 }));
    assert!(!s.render_event(RenderProgress::Progress { job_id: 9, fraction: 0.9 }));
    assert!(!s.render_event(RenderProgress::Progress { job_id: 1, fraction: 0.25 }));
    assert!(
        matches!(&s.render_status, RenderStatus::Running { fraction, .. } if *fraction == 0.25)
    );
    let done = RenderProgress::Done { job_id: 1, out_path: "out.wav".to_string() };
    assert_eq!(render_progress_job_id(&done), 1);
    assert!(s.render_event(done));
    assert!(matches!(&s.render_status, RenderStatus::Done { out_path } if out_path == "out.wav"));
    assert!(!s.render_event(RenderProgress::Cancelled { job_id: 1 }));
    s.dismiss_render();
    assert!(matches!(s.render_status, RenderStatus::Idle));
    s.start_render(&state(), "b.wav".to_string());
    assert!(s.render_event(RenderProgress::Failed { job_id: 2, error: "disk".to_string() }));
    assert!(matches!(&s.render_status, RenderStatus::Failed { error } if error == "disk"));
    s.start_render(&state(), "c.wav".to_string());
    assert!(s.render_event(RenderProgress::Cancelled { job_id: 3 }));
    assert!(matches!(s.render_status, RenderStatus::Cancelled));
}

#[test]
fn saving_is_debounced_and_skips_what_is_the_same() {
    let mut s = Studio::<f32>::new();
    assert!(s.autosave_tick(10));
    assert!(!s.autosave_tick(2_000_000_009));
    assert!(s.autosave_tick(2_000_000_010));
    let json = "{}".to_string();
    assert!(s.needs_saving(&json));
    s.saved(json.clone());
    assert!(!s.needs_saving(&json));
    assert!(s.needs_saving(&"{ }".to_string()));
}
