//! The state of the whole program: what is loaded, what the user has set, and
//! what is going on in the background.

use std::sync::Arc;

use vstd::prelude::*;

use crate::analysis::bpm::BpmStatus;
use crate::dsp::eq::EqSettings;
use crate::dsp::DspKind;
use crate::engine::command::Command;
use crate::engine::metronome::MetronomeSettings;
use crate::engine::speed_ramp::SpeedRampSettings;
use crate::engine::state::SharedState;
use crate::render::{ExportFormat, RenderProgress, RenderRequest};
use crate::sample::{num, total_arithmetic, whole, Sample};
use crate::session::{autosave_due, clamp_loop, loop_within, Session};
use crate::track::peaks::TrackPeaks;
use crate::track::{LoopRegion, Marker, NamedLoop, Track};
use crate::ui::loops::{clamp_active_loop, clamp_loops, fitted, LoopDeck};
use crate::ui::markers::{clamp_markers, ordered, tidied};
use crate::ui::metronome::TapTempo;
use crate::ui::transport::{pitch_halves, split_pitch};
use crate::ui::waveform::{whole_len, WaveformView};

verus! {

/// What is loaded.
pub enum LoadStatus<S> {
    Idle,
    Loading(String),
    Loaded { path: String, track: Arc<Track<S>>, peaks: Arc<TrackPeaks<S>> },
    Failed { path: String, error: String },
}

/// What goes on with an export.
pub enum RenderStatus<S> {
    Idle,
    Running { fraction: S, out_path: String },
    Done { out_path: String },
    Failed { error: String },
    Cancelled,
}

/// The state of the whole program.
pub struct Studio<S> {
    pub status: LoadStatus<S>,
    pub deck: LoopDeck,
    /// In order.
    pub markers: Vec<Marker>,
    pub dsp_kind: DspKind,
    pub pitch_coarse: i16,
    pub pitch_cents: i16,
    pub master_volume_db: S,
    pub metronome: MetronomeSettings<S>,
    pub eq: EqSettings<S>,
    pub speed_ramp: SpeedRampSettings<S>,
    pub tap_tempo: TapTempo,
    pub view: WaveformView,
    pub follow_playhead: bool,
    /// A session to apply once its track is there.
    pub pending_restore: Option<Session<S>>,
    pub bpm_status: BpmStatus<S>,
    pub render_status: RenderStatus<S>,
    /// Whether there is a render whose end has not been heard of.
    pub render_in_flight: bool,
    /// The number of the latest render.
    pub render_job_seq: u64,
    pub export_format: ExportFormat,
    pub export_include_metronome: bool,
    /// When it was last time to save, in nanoseconds.
    pub last_autosave_at: Option<u64>,
    /// What was last saved.
    pub last_autosave_json: Option<String>,
}

/// The same loops by their frames and names.
pub open spec fn same_loops(a: Seq<NamedLoop>, b: Seq<NamedLoop>) -> bool {
    &&& a.len() == b.len()
    &&& forall|i: int|
        0 <= i < a.len() ==> (#[trigger] a[i]).start == b[i].start && a[i].end == b[i].end
            && a[i].label@ == b[i].label@
}

/// The same markers by their frames and names.
pub open spec fn same_markers(a: Seq<Marker>, b: Seq<Marker>) -> bool {
    &&& a.len() == b.len()
    &&& forall|i: int|
        0 <= i < a.len() ==> (#[trigger] a[i]).frame == b[i].frame && a[i].label@ == b[i].label@
}

fn copy_loops(loops: &Vec<NamedLoop>) -> (r: Vec<NamedLoop>)
    ensures
        same_loops(r@, loops@),
{
    let mut r: Vec<NamedLoop> = Vec::new();
    while r.len() < loops.len()
        invariant
            r@.len() <= loops@.len(),
            same_loops(r@, loops@.take(r@.len() as int)),
        decreases loops@.len() - r@.len(),
    {
        let l: &NamedLoop = &loops[r.len()];
        let label: String = l.label.clone();
        r.push(NamedLoop { start: l.start, end: l.end, label });
    }
    assert(loops@.take(r@.len() as int) =~= loops@);
    r
}

fn copy_markers(markers: &Vec<Marker>) -> (r: Vec<Marker>)
    ensures
        same_markers(r@, markers@),
{
    let mut r: Vec<Marker> = Vec::new();
    while r.len() < markers.len()
        invariant
            r@.len() <= markers@.len(),
            same_markers(r@, markers@.take(r@.len() as int)),
        decreases markers@.len() - r@.len(),
    {
        let m: &Marker = &markers[r.len()];
        let label: String = m.label.clone();
        r.push(Marker { frame: m.frame, label });
    }
    assert(markers@.take(r@.len() as int) =~= markers@);
    r
}

/// The loop to play after a session was restored: the saved one that played,
/// or else the one that was not saved.
pub open spec fn restored_loop<S>(session: Session<S>, total: u64) -> Option<LoopRegion> {
    match restored_slot(session, total) {
        Some(i) => Some(fitted(session.loops@, total)[i as int].region_spec()),
        None => loop_within(session.loop_region, total),
    }
}

/// The saved loop to play after a session was restored.
pub open spec fn restored_slot<S>(session: Session<S>, total: u64) -> Option<usize> {
    match session.active_loop {
        Some(i) => if i < fitted(session.loops@, total).len() {
            Some(i)
        } else {
            None
        },
        None => None,
    }
}

/// The place to go to after a session was restored.
pub open spec fn restored_position<S>(session: Session<S>, total: u64) -> u64 {
    if session.last_position < total {
        session.last_position
    } else {
        total
    }
}

/// What the engine is told when a track is loaded. The family of processors
/// comes before speed and pitch, so that the new processor gets them; the
/// metronome and the ramp before the loop, which moves the downbeat; and the
/// place last. Loading switches the equaliser off, so it is always told
/// again.
pub open spec fn load_commands<S: Sample>(
    track: Arc<Track<S>>,
    restore: Option<Session<S>>,
    total: u64,
    eq: EqSettings<S>,
) -> Seq<Command<S>> {
    match restore {
        Some(s) => seq![
            Command::LoadTrack(track),
            Command::SetDsp(s.dsp_kind),
            Command::SetSpeed(s.speed),
            Command::SetPitch(s.pitch_semitones),
            Command::SetMetronome(s.metronome),
            Command::SetSpeedRamp(s.speed_ramp),
            Command::SetLoop(restored_loop(s, total)),
            Command::Seek(restored_position(s, total)),
            Command::SetEq(s.eq),
        ],
        None => seq![Command::LoadTrack(track), Command::SetEq(eq)],
    }
}

impl<S: Sample> Studio<S> {
    /// Loops and markers are in order.
    pub open spec fn wf(self) -> bool {
        self.deck.wf() && ordered(self.markers@)
    }

    /// Nothing is loaded, and nothing is set.
    pub fn new() -> (r: Studio<S>)
        requires
            total_arithmetic::<S>(),
        ensures
            r.wf(),
            r.status is Idle,
            r.deck.loop_region is None,
            r.deck.loops@.len() == 0,
            r.deck.active_loop is None,
            r.deck.pending_loop is None,
            r.markers@.len() == 0,
            r.dsp_kind == DspKind::PhaseVocoder,
            r.pitch_coarse == 0,
            r.pitch_cents == 0,
            r.master_volume_db == num::<S>(0),
            r.metronome == MetronomeSettings::<S>::initial(),
            r.eq.is_initial(),
            r.speed_ramp == SpeedRampSettings::<S>::initial(),
            r.tap_tempo.taps@.len() == 0,
            r.view == (WaveformView { start: 0, len: whole_len(0) }),
            r.follow_playhead,
            r.pending_restore is None,
            r.bpm_status is Idle,
            r.render_status is Idle,
            !r.render_in_flight,
            r.render_job_seq == 0,
            r.export_format == ExportFormat::Pcm16,
            !r.export_include_metronome,
            r.last_autosave_at is None,
            r.last_autosave_json is None,
    {
        Studio {
            status: LoadStatus::Idle,
            deck: LoopDeck::new(),
            markers: Vec::new(),
            dsp_kind: DspKind::default(),
            pitch_coarse: 0,
            pitch_cents: 0,
            master_volume_db: whole(0),
            metronome: MetronomeSettings::defaults(),
            eq: EqSettings::defaults(),
            speed_ramp: SpeedRampSettings::defaults(),
            tap_tempo: TapTempo::new(),
            view: WaveformView::full(0),
            follow_playhead: true,
            pending_restore: None,
            bpm_status: BpmStatus::Idle,
            render_status: RenderStatus::Idle,
            render_in_flight: false,
            render_job_seq: 0,
            export_format: ExportFormat::Pcm16,
            export_include_metronome: false,
            last_autosave_at: None,
            last_autosave_json: None,
        }
    }

    /// A file is being decoded.
    pub fn decode_started(&mut self, path: String)
        requires
            old(self).wf(),
        ensures
            final(self).wf(),
            *final(self) == (Studio { status: LoadStatus::Loading(path), ..*old(self) }),
    {
        self.status = LoadStatus::Loading(path);
    }

    /// A file was opened that has a session of its own. A session that was
    /// opened by hand goes first.
    pub fn offer_restore(&mut self, session: Session<S>)
        requires
            old(self).wf(),
        ensures
            final(self).wf(),
            *final(self) == if old(self).pending_restore is None {
                Studio { pending_restore: Some(session), ..*old(self) }
            } else {
                *old(self)
            },
    {
        if self.pending_restore.is_none() {
            self.pending_restore = Some(session);
        }
    }

    /// A session was opened by hand.
    pub fn open_session(&mut self, session: Session<S>)
        requires
            old(self).wf(),
        ensures
            final(self).wf(),
            *final(self) == (Studio { pending_restore: Some(session), ..*old(self) }),
    {
        self.pending_restore = Some(session);
    }

    /// The session that goes with a track that was just loaded.
    pub open spec fn matching_restore(self, path: Seq<char>) -> Option<Session<S>> {
        match self.pending_restore {
            Some(s) => if s.track_path@ == path {
                Some(s)
            } else {
                None
            },
            None => None,
        }
    }

    /// A track has arrived. All that belonged to the one before is gone, and
    /// if a session was waiting for this one, it is applied; one that was
    /// waiting for another is dropped. The result is what to tell the engine.
    pub fn track_loaded(
        &mut self,
        path: String,
        track: Arc<Track<S>>,
        peaks: Arc<TrackPeaks<S>>,
        now: u64,
    ) -> (r: Vec<Command<S>>)
        requires
            total_arithmetic::<S>(),
            old(self).wf(),
            track.channels > 0,
        ensures
            final(self).wf(),
            final(self).status == (LoadStatus::Loaded { path, track, peaks }),
            final(self).pending_restore is None,
            final(self).bpm_status is Idle,
            final(self).deck.pending_loop is None,
            final(self).view == (WaveformView { start: 0, len: whole_len(track.frames() as u64) }),
            final(self).last_autosave_at == Some(now),
            final(self).last_autosave_json is None,
            final(self).master_volume_db == old(self).master_volume_db,
            final(self).tap_tempo == old(self).tap_tempo,
            final(self).follow_playhead == old(self).follow_playhead,
            final(self).render_status == old(self).render_status,
            final(self).render_in_flight == old(self).render_in_flight,
            final(self).render_job_seq == old(self).render_job_seq,
            final(self).export_format == old(self).export_format,
            final(self).export_include_metronome == old(self).export_include_metronome,
            r@ == load_commands(
                track,
                old(self).matching_restore(path@),
                track.frames() as u64,
                old(self).eq,
            ),
            match old(self).matching_restore(path@) {
                Some(s) => {
                    let total = track.frames() as u64;
                    &&& final(self).deck.loops@ == fitted(s.loops@, total)
                    &&& final(self).deck.active_loop == restored_slot(s, total)
                    &&& final(self).deck.loop_region == restored_loop(s, total)
                    &&& tidied(s.markers@, total, final(self).markers@)
                    &&& final(self).dsp_kind == s.dsp_kind
                    &&& final(self).metronome == s.metronome
                    &&& final(self).eq == s.eq
                    &&& final(self).speed_ramp == s.speed_ramp
                    &&& (final(self).pitch_coarse as int, final(self).pitch_cents as int)
                        == pitch_halves(s.pitch_semitones)
                },
                None => {
                    &&& final(self).deck.loops@.len() == 0
                    &&& final(self).deck.active_loop is None
                    &&& final(self).deck.loop_region is None
                    &&& final(self).markers@.len() == 0
                    &&& final(self).dsp_kind == old(self).dsp_kind
                    &&& final(self).metronome == old(self).metronome
                    &&& final(self).eq == old(self).eq
                    &&& final(self).speed_ramp == old(self).speed_ramp
                    &&& final(self).pitch_coarse == old(self).pitch_coarse
                    &&& final(self).pitch_cents == old(self).pitch_cents
                },
            },
    {
        let total: u64 = track.frame_count();
        self.last_autosave_json = None;
        self.last_autosave_at = Some(now);
        self.bpm_status = BpmStatus::Idle;
        self.markers = Vec::new();
        self.deck = LoopDeck::new();
        self.view = WaveformView::full(total);
        let mut commands: Vec<Command<S>> = Vec::new();
        commands.push(Command::LoadTrack(track.clone()));
        let pending: Option<Session<S>> = self.pending_restore.take();
        let ghost restore = old(self).matching_restore(path@);
        if let Some(session) = pending {
            if session.track_path == path {
                let ghost s = session;
                self.restore(session, total, &mut commands);
                assert(restore == Some(s));
            }
        }
        commands.push(Command::SetEq(self.eq));
        proof {
            assert(commands@ =~= load_commands(track, restore, total, old(self).eq));
        }
        self.status = LoadStatus::Loaded { path, track, peaks };
        commands
    }

    /// Applies a session to a track of `total` frames, and appends what the
    /// engine is to be told but for the equaliser.
    fn restore(&mut self, session: Session<S>, total: u64, commands: &mut Vec<Command<S>>)
        requires
            total_arithmetic::<S>(),
            old(self).wf(),
            old(self).deck.pending_loop is None,
        ensures
            final(self).wf(),
            final(self).deck.loops@ == fitted(session.loops@, total),
            final(self).deck.active_loop == restored_slot(session, total),
            final(self).deck.loop_region == restored_loop(session, total),
            tidied(session.markers@, total, final(self).markers@),
            (final(self).pitch_coarse as int, final(self).pitch_cents as int) == pitch_halves(
                session.pitch_semitones,
            ),
            *final(self) == (Studio {
                deck: final(self).deck,
                markers: final(self).markers,
                pitch_coarse: final(self).pitch_coarse,
                pitch_cents: final(self).pitch_cents,
                dsp_kind: session.dsp_kind,
                metronome: session.metronome,
                eq: session.eq,
                speed_ramp: session.speed_ramp,
                ..*old(self)
            }),
            final(self).deck.pending_loop is None,
            final(commands)@ == old(commands)@ + seq![
                Command::SetDsp(session.dsp_kind),
                Command::SetSpeed(session.speed),
                Command::SetPitch(session.pitch_semitones),
                Command::SetMetronome(session.metronome),
                Command::SetSpeedRamp(session.speed_ramp),
                Command::SetLoop(restored_loop(session, total)),
                Command::Seek(restored_position(session, total)),
            ],
    {
        let ghost s = session;
        let (coarse, cents) = split_pitch(session.pitch_semitones);
        let region: Option<LoopRegion> = clamp_loop(session.loop_region, total);
        let position: u64 = if session.last_position < total {
            session.last_position
        } else {
            total
        };
        let loops: Vec<NamedLoop> = clamp_loops(session.loops, total);
        let active: Option<usize> = clamp_active_loop(session.active_loop, &loops);
        let new_loop: Option<LoopRegion> = match active {
            Some(i) => Some(loops[i].region()),
            None => region,
        };
        assert(new_loop == restored_loop(s, total));
        self.deck = LoopDeck {
            loop_region: new_loop,
            loops,
            active_loop: active,
            pending_loop: None,
        };
        self.markers = clamp_markers(session.markers, total);
        self.dsp_kind = session.dsp_kind;
        self.metronome = session.metronome;
        self.eq = session.eq;
        self.speed_ramp = session.speed_ramp;
        self.pitch_coarse = coarse;
        self.pitch_cents = cents;
        commands.push(Command::SetDsp(session.dsp_kind));
        commands.push(Command::SetSpeed(session.speed));
        commands.push(Command::SetPitch(session.pitch_semitones));
        commands.push(Command::SetMetronome(session.metronome));
        commands.push(Command::SetSpeedRamp(session.speed_ramp));
        commands.push(Command::SetLoop(new_loop));
        commands.push(Command::Seek(position));
    }

    /// A file could not be decoded. A session that was waiting for it is
    /// dropped; one that waits for another stays.
    pub fn load_failed(&mut self, path: String, error: String, now: u64)
        requires
            old(self).wf(),
        ensures
            final(self).wf(),
            *final(self) == (Studio {
                status: LoadStatus::Failed { path, error },
                deck: LoopDeck { pending_loop: None, ..old(self).deck },
                markers: final(self).markers,
                pending_restore: if old(self).matching_restore(path@) is Some {
                    None
                } else {
                    old(self).pending_restore
                },
                bpm_status: BpmStatus::Idle,
                last_autosave_at: Some(now),
                last_autosave_json: None,
                ..*old(self)
            }),
            final(self).markers@.len() == 0,
    {
        self.last_autosave_json = None;
        self.last_autosave_at = Some(now);
        self.deck.pending_loop = None;
        self.bpm_status = BpmStatus::Idle;
        self.markers = Vec::new();
        let stale: bool = match &self.pending_restore {
            Some(s) => s.track_path == path,
            None => false,
        };
        if stale {
            self.pending_restore = None;
        }
        self.status = LoadStatus::Failed { path, error };
    }

    /// The path of the loaded track.
    pub open spec fn loaded_path(self) -> Option<Seq<char>> {
        match self.status {
            LoadStatus::Loaded { path, .. } => Some(path@),
            _ => None,
        }
    }

    /// A tempo was estimated, or could not be. It counts only if it is of the
    /// track that is loaded now.
    pub fn bpm_result(&mut self, of: &String, bpm: Option<S>)
        requires
            old(self).wf(),
        ensures
            final(self).wf(),
            *final(self) == if old(self).loaded_path() == Some(of@) {
                Studio {
                    bpm_status: match bpm {
                        Some(b) => BpmStatus::Done(b),
                        None => BpmStatus::Failed,
                    },
                    ..*old(self)
                }
            } else {
                *old(self)
            },
    {
        let current: bool = match &self.status {
            LoadStatus::Loaded { path, .. } => *path == *of,
            _ => false,
        };
        if current {
            self.bpm_status = match bpm {
                Some(b) => BpmStatus::Done(b),
                None => BpmStatus::Failed,
            };
        }
    }

    /// Starts to estimate the tempo, of the loop that plays or else of the
    /// whole track. The result is the track and the passage; there is none
    /// where no track is loaded or an estimate is under way.
    pub fn start_bpm_detect(&mut self) -> (r: Option<(Arc<Track<S>>, u64, u64)>)
        requires
            old(self).wf(),
            old(self).status matches LoadStatus::Loaded { track, .. } ==> track.channels > 0,
        ensures
            final(self).wf(),
            match old(self).status {
                LoadStatus::Loaded { track, .. } if !(old(self).bpm_status is Running) => {
                    &&& *final(self) == (Studio { bpm_status: BpmStatus::Running, ..*old(self) })
                    &&& r == match old(self).deck.loop_region {
                        Some(l) => Some((track, l.start, l.end)),
                        None => Some((track, 0u64, track.frames() as u64)),
                    }
                },
                _ => r is None && *final(self) == *old(self),
            },
    {
        if let BpmStatus::Running = self.bpm_status {
            return None;
        }
        let track: Arc<Track<S>> = match &self.status {
            LoadStatus::Loaded { track, .. } => track.clone(),
            _ => {
                return None;
            },
        };
        let (start, end): (u64, u64) = match self.deck.loop_region {
            Some(l) => (l.start, l.end),
            None => (0, track.frame_count()),
        };
        self.bpm_status = BpmStatus::Running;
        Some((track, start, end))
    }

    /// Whether an export can be started.
    pub open spec fn can_export_spec(self) -> bool {
        &&& self.status is Loaded
        &&& self.deck.loop_region is Some
        &&& !(self.render_status is Running)
    }

    /// Whether an export can be started: there is a loop to export, and no
    /// other export is running.
    pub fn can_export(&self) -> (r: bool)
        ensures
            r == self.can_export_spec(),
    {
        let loaded: bool = match &self.status {
            LoadStatus::Loaded { .. } => true,
            _ => false,
        };
        let running: bool = match &self.render_status {
            RenderStatus::Running { .. } => true,
            _ => false,
        };
        loaded && self.deck.loop_region.is_some() && !running
    }

    /// Starts to export the loop that plays, at the engine's speed and pitch.
    pub fn start_render(&mut self, state: &SharedState<S>, out_path: String) -> (r: Option<
        RenderRequest<S>,
    >)
        requires
            total_arithmetic::<S>(),
            old(self).wf(),
        ensures
            final(self).wf(),
            r is Some <==> old(self).can_export_spec(),
            match r {
                Some(req) => {
                    &&& old(self).status matches LoadStatus::Loaded { track, .. } && req.track
                        == track
                    &&& Some(req.loop_region) == old(self).deck.loop_region
                    &&& req.dsp_kind == old(self).dsp_kind
                    &&& req.speed == state.speed
                    &&& req.pitch_semitones == state.pitch
                    &&& req.eq == old(self).eq
                    &&& req.include_metronome == old(self).export_include_metronome
                    &&& req.metronome == old(self).metronome
                    &&& req.out_path@ == out_path@
                    &&& req.format == old(self).export_format
                    &&& req.job_id == old(self).render_job_seq.wrapping_add(1)
                    &&& *final(self) == (Studio {
                        render_job_seq: req.job_id,
                        render_in_flight: true,
                        render_status: RenderStatus::Running { fraction: num(0), out_path },
                        ..*old(self)
                    })
                },
                None => *final(self) == *old(self),
            },
    {
        if !self.can_export() {
            return None;
        }
        let track: Arc<Track<S>> = match &self.status {
            LoadStatus::Loaded { track, .. } => track.clone(),
            _ => {
                return None;
            },
        };
        let loop_region: LoopRegion = match self.deck.loop_region {
            Some(l) => l,
            None => {
                return None;
            },
        };
        self.render_job_seq = self.render_job_seq.wrapping_add(1);
        let req: RenderRequest<S> = RenderRequest {
            track,
            loop_region,
            dsp_kind: self.dsp_kind,
            speed: state.speed,
            pitch_semitones: state.pitch,
            eq: self.eq,
            include_metronome: self.export_include_metronome,
            metronome: self.metronome,
            out_path: out_path.clone(),
            format: self.export_format,
            job_id: self.render_job_seq,
        };
        self.render_in_flight = true;
        self.render_status = RenderStatus::Running { fraction: whole(0), out_path };
        Some(req)
    }

    /// There are news of an export. Those of another job than the one in
    /// flight are passed over. The result says whether the job is over.
    pub fn render_event(&mut self, ev: RenderProgress<S>) -> (over: bool)
        requires
            old(self).wf(),
        ensures
            final(self).wf(),
            ({
                let current = old(self).render_in_flight && ev.job() == old(self).render_job_seq;
                &&& over == (current && (ev is Done || ev is Failed || ev is Cancelled))
                &&& *final(self) == if !current {
                    *old(self)
                } else {
                    Studio {
                        render_in_flight: !over,
                        render_status: match ev {
                            RenderProgress::Started { .. } => old(self).render_status,
                            RenderProgress::Progress { fraction, .. } => match old(
                                self).render_status {
                                RenderStatus::Running { out_path, .. } => RenderStatus::Running {
                                    fraction,
                                    out_path,
                                },
                                other => other,
                            },
                            RenderProgress::Done { out_path, .. } => RenderStatus::Done {
                                out_path,
                            },
                            RenderProgress::Failed { error, .. } => RenderStatus::Failed { error },
                            RenderProgress::Cancelled { .. } => RenderStatus::Cancelled,
                        },
                        ..*old(self)
                    }
                }
            }),
    {
        if !self.render_in_flight || crate::render::render_progress_job_id(&ev)
            != self.render_job_seq {
            return false;
        }
        match ev {
            RenderProgress::Started { .. } => false,
            RenderProgress::Progress { fraction, .. } => {
                if let RenderStatus::Running { fraction: f, .. } = &mut self.render_status {
                    *f = fraction;
                }
                false
            },
            RenderProgress::Done { out_path, .. } => {
                self.render_status = RenderStatus::Done { out_path };
                self.render_in_flight = false;
                true
            },
            RenderProgress::Failed { error, .. } => {
                self.render_status = RenderStatus::Failed { error };
                self.render_in_flight = false;
                true
            },
            RenderProgress::Cancelled { .. } => {
                self.render_status = RenderStatus::Cancelled;
                self.render_in_flight = false;
                true
            },
        }
    }

    /// The user has seen how an export ended.
    pub fn dismiss_render(&mut self)
        requires
            old(self).wf(),
        ensures
            final(self).wf(),
            *final(self) == (Studio { render_status: RenderStatus::Idle, ..*old(self) }),
    {
        self.render_status = RenderStatus::Idle;
    }

    /// Everything that a session keeps, given the engine's state. There is
    /// nothing to keep where no track is loaded.
    pub fn build_session(&self, state: &SharedState<S>) -> (r: Option<Session<S>>)
        ensures
            match self.status {
                LoadStatus::Loaded { path, track, .. } => {
                    &&& r is Some
                    &&& r->0.version == 6
                    &&& r->0.track_path@ == path@
                    &&& r->0.track_sample_rate == track.sample_rate
                    &&& r->0.loop_region == self.deck.loop_region
                    &&& same_loops(r->0.loops@, self.deck.loops@)
                    &&& r->0.active_loop == self.deck.active_loop
                    &&& r->0.speed == state.speed
                    &&& r->0.pitch_semitones == state.pitch
                    &&& r->0.last_position == state.position
                    &&& r->0.dsp_kind == self.dsp_kind
                    &&& same_markers(r->0.markers@, self.markers@)
                    &&& r->0.metronome == self.metronome
                    &&& r->0.eq == self.eq
                    &&& r->0.speed_ramp == self.speed_ramp
                },
                _ => r is None,
            },
    {
        match &self.status {
            LoadStatus::Loaded { path, track, .. } => Some(
                Session {
                    version: Session::<S>::CURRENT_VERSION,
                    track_path: path.clone(),
                    track_sample_rate: track.sample_rate,
                    loop_region: self.deck.loop_region,
                    loops: copy_loops(&self.deck.loops),
                    active_loop: self.deck.active_loop,
                    speed: state.speed,
                    pitch_semitones: state.pitch,
                    last_position: state.position,
                    dsp_kind: self.dsp_kind,
                    markers: copy_markers(&self.markers),
                    metronome: self.metronome,
                    eq: self.eq,
                    speed_ramp: self.speed_ramp,
                },
            ),
            _ => None,
        }
    }

    /// Whether it is time to save, which is then noted.
    pub fn autosave_tick(&mut self, now: u64) -> (r: bool)
        requires
            old(self).wf(),
        ensures
            final(self).wf(),
            r == match old(self).last_autosave_at {
                Some(t) => now - t >= crate::session::AUTOSAVE_INTERVAL,
                None => true,
            },
            *final(self) == if r {
                Studio { last_autosave_at: Some(now), ..*old(self) }
            } else {
                *old(self)
            },
    {
        if !autosave_due(self.last_autosave_at, now) {
            return false;
        }
        self.last_autosave_at = Some(now);
        true
    }

    /// Whether a session differs from what was last saved.
    pub fn needs_saving(&self, json: &String) -> (r: bool)
        ensures
            r == match self.last_autosave_json {
                Some(last) => last@ != json@,
                None => true,
            },
    {
        match &self.last_autosave_json {
            Some(last) => !(*last == *json),
            None => true,
        }
    }

    /// A session was saved.
    pub fn saved(&mut self, json: String)
        requires
            old(self).wf(),
        ensures
            final(self).wf(),
            *final(self) == (Studio { last_autosave_json: Some(json), ..*old(self) }),
    {
        self.last_autosave_json = Some(json);
    }
}

/// A session that is saved and opened again for the same track brings back
/// the loops, the loop that plays, the markers and the place, all of them as
/// they were, so long as they lie within the track.
pub proof fn restoring_brings_back<S>(session: Session<S>, total: u64, markers: Seq<Marker>)
    requires
        forall|i: int|
            0 <= i < session.loops@.len() ==> (#[trigger] session.loops@[i]).start
                < session.loops@[i].end <= total,
        session.active_loop matches Some(i) ==> i < session.loops@.len() && session.loop_region
            == Some(session.loops@[i as int].region_spec()),
        session.loop_region matches Some(l) ==> l.start < l.end <= total,
        session.last_position <= total,
        ordered(session.markers@),
        forall|i: int|
            0 <= i < session.markers@.len() ==> (#[trigger] session.markers@[i]).frame < total,
        tidied(session.markers@, total, markers),
    ensures
        fitted(session.loops@, total) == session.loops@,
        restored_slot(session, total) == session.active_loop,
        restored_loop(session, total) == session.loop_region,
        restored_position(session, total) == session.last_position,
        markers == session.markers@,
{
    already_fitted(session.loops@, total);
    crate::ui::markers::tidy_markers_stay(session.markers@, total, markers);
}

proof fn already_fitted(loops: Seq<NamedLoop>, total: u64)
    requires
        forall|i: int|
            0 <= i < loops.len() ==> (#[trigger] loops[i]).start < loops[i].end <= total,
    ensures
        fitted(loops, total) == loops,
    decreases loops.len(),
{
    if loops.len() > 0 {
        already_fitted(loops.drop_last(), total);
        assert(crate::ui::loops::cut(loops.last(), total) == loops.last());
        assert(fitted(loops, total) =~= loops);
    }
}

} // verus!
