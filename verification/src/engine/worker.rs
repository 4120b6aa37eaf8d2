//! The engine's state: what each command does to it, and how it makes the
//! next chunk of output.

use std::sync::Arc;

use vstd::prelude::*;
use vstd::std_specs::ops::{AddSpec, DivSpec, MulSpec, SubSpec};

use crate::dsp::eq::{BiquadCoeffs, BiquadState, EqTones, NUM_BANDS};
use crate::dsp::{DspKind, TimePitchProcessor};
use crate::engine::command::Command;
use crate::engine::metronome::{proportional, Metronome, MetronomeSettings};
use crate::engine::speed_ramp::{advance_speed_ramp, count_pass, SpeedRampSettings};
use crate::engine::state::SharedState;
use crate::frames::{row_fits, row_of, row_range};
use crate::sample::{
    count, count_of, finite, is_finite, is_near, larger, larger_of, near, num, total_arithmetic,
    whole, Sample,
};
use crate::track::{frames_bounded, frames_fit, LoopRegion, Track};

pub mod laws;

verus! {

/// Rate and channels of an open output.
#[derive(Clone, Copy, Debug, PartialEq, Eq, Structural)]
pub struct OutputFormat {
    pub sample_rate: u32,
    pub channels: u16,
}

/// A processor to build: for how many channels, of which family, and set to
/// what.
#[derive(Clone, Copy, Debug)]
pub struct DspPlan<S> {
    pub channels: u16,
    pub kind: DspKind,
    pub speed: S,
    pub pitch: S,
}

/// What is left to do after a command.
pub enum Action<S> {
    Nothing,
    /// Open an output if need be, then load the track.
    Load(Arc<Track<S>>),
    /// Tell the processor its speed.
    SetDspSpeed(S),
    /// Tell the processor its pitch.
    SetDspPitch(S),
    /// Replace the processor.
    BuildDsp(DspPlan<S>),
    /// Turn these decibels into a gain, and take that for the output.
    ConvertVolume(S),
}

/// The engine's state between two ticks.
pub struct Worker<S> {
    pub track: Option<Arc<Track<S>>>,
    /// The source frame to play next.
    pub cursor: u64,
    pub playing: bool,
    pub loop_region: Option<LoopRegion>,
    pub output: Option<OutputFormat>,
    /// The channels that the processor was built for.
    pub current_channels: Option<u16>,
    pub current_kind: DspKind,
    pub metronome: Metronome<S>,
    pub eq: crate::dsp::eq::Eq<S>,
    /// The output gain that the last chunk ended with.
    pub master_current_gain: S,
    /// The output gain that the user asked for.
    pub master_target_gain: S,
    pub speed_ramp: SpeedRampSettings<S>,
    /// The passes of the loop since the last step of the ramp.
    pub passes_since_step: u32,
    pub state: SharedState<S>,
}

/// `cursor`, or the start of the loop where it is outside of one.
pub open spec fn snapped(cursor: u64, loop_region: Option<LoopRegion>) -> u64 {
    match loop_region {
        Some(l) => if l.proper() && !l.holds(cursor) {
            l.start
        } else {
            cursor
        },
        None => cursor,
    }
}

/// Pulls a cursor that is outside of the loop to the loop's start.
pub fn snap_into_loop(cursor: u64, loop_region: Option<LoopRegion>) -> (r: u64)
    ensures
        r == snapped(cursor, loop_region),
{
    match loop_region {
        Some(l) => if l.end > l.start && (cursor < l.start || cursor >= l.end) {
            l.start
        } else {
            cursor
        },
        None => cursor,
    }
}

/// The quietest volume that can be asked for, in decibels.
pub const MIN_VOLUME_DB: i16 = -60;

impl<S: Sample> Worker<S> {
    /// Only a track with an output plays, and all parts agree on the track.
    pub open spec fn wf(self) -> bool {
        &&& self.eq.wf()
        &&& self.playing ==> self.track is Some && self.output is Some
        &&& self.state.playing == self.playing
        &&& match self.track {
            Some(t) => {
                &&& t.channels > 0
                &&& self.eq.channels == t.channels
                &&& self.eq.sample_rate == t.sample_rate
                &&& self.metronome.sample_rate == t.sample_rate
                &&& self.current_channels == Some(t.channels)
                &&& self.state.duration == t.frames()
            },
            None => true,
        }
    }

    /// The engine before any command.
    pub fn new() -> (r: Worker<S>)
        requires
            total_arithmetic::<S>(),
        ensures
            r.wf(),
            r.track is None,
            r.cursor == 0,
            !r.playing,
            r.loop_region is None,
            r.output is None,
            r.current_channels is None,
            r.current_kind == DspKind::PhaseVocoder,
            r.metronome.settings == MetronomeSettings::<S>::initial(),
            r.metronome.sample_rate == 0,
            r.metronome.anchor_frame == 0,
            r.metronome.voice is None,
            fresh_eq(r.eq, 0, 0),
            r.metronome.click_normal@ == Seq::<S>::empty(),
            r.metronome.click_accent@ == Seq::<S>::empty(),
            r.master_current_gain == num::<S>(1),
            r.master_target_gain == num::<S>(1),
            r.speed_ramp == SpeedRampSettings::<S>::initial(),
            r.passes_since_step == 0,
            r.state == SharedState::<S>::initial(),
    {
        Worker {
            track: None,
            cursor: 0,
            playing: false,
            loop_region: None,
            output: None,
            current_channels: None,
            current_kind: DspKind::default(),
            metronome: Metronome::new(),
            eq: crate::dsp::eq::Eq::new(0, 0),
            master_current_gain: whole(1),
            master_target_gain: whole(1),
            speed_ramp: SpeedRampSettings::defaults(),
            passes_since_step: 0,
            state: SharedState::new(),
        }
    }

    /// The processor to build for `channels` channels of family `kind`, with
    /// speed and pitch carried over.
    pub open spec fn dsp_plan(self, channels: u16, kind: DspKind) -> DspPlan<S> {
        DspPlan { channels, kind, speed: self.state.speed, pitch: self.state.pitch }
    }

    /// What a command makes of the state, and what is then left to do.
    pub open spec fn applied(self, cmd: Command<S>) -> (Worker<S>, Action<S>) {
        match cmd {
            Command::LoadTrack(t) => (self, Action::Load(t)),
            Command::Play => (
                if self.track is Some && self.output is Some {
                    self.with_playing(true)
                } else {
                    self
                },
                Action::Nothing,
            ),
            Command::Pause => (self.with_playing(false).without_voice(), Action::Nothing),
            Command::Stop => (
                Worker {
                    passes_since_step: 0,
                    ..self.with_playing(false).without_voice().at(0)
                },
                Action::Nothing,
            ),
            Command::Seek(pos) => (
                match self.track {
                    Some(t) => {
                        let target = if pos <= t.frames() {
                            pos
                        } else {
                            t.frames() as u64
                        };
                        self.without_voice().at(snapped(target, self.loop_region))
                    },
                    None => self,
                },
                Action::Nothing,
            ),
            Command::SetLoop(region) => {
                let looped = Worker {
                    loop_region: region,
                    metronome: Metronome {
                        anchor_frame: match region {
                            Some(r) => r.start,
                            None => 0,
                        },
                        ..self.metronome
                    },
                    ..self
                };
                (
                    if snapped(self.cursor, region) != self.cursor {
                        looped.at(snapped(self.cursor, region))
                    } else {
                        looped
                    },
                    Action::Nothing,
                )
            },
            Command::SetSpeed(speed) => (
                Worker { state: SharedState { speed, ..self.state }, ..self },
                Action::SetDspSpeed(speed),
            ),
            Command::SetPitch(pitch) => (
                Worker { state: SharedState { pitch, ..self.state }, ..self },
                Action::SetDspPitch(pitch),
            ),
            Command::SetDsp(kind) => (
                Worker { current_kind: kind, ..self },
                match self.current_channels {
                    Some(channels) if kind != self.current_kind => Action::BuildDsp(
                        self.dsp_plan(channels, kind),
                    ),
                    _ => Action::Nothing,
                },
            ),
            Command::SetMetronome(settings) => (
                Worker {
                    metronome: Metronome {
                        settings,
                        voice: if self.metronome.settings.enabled && !settings.enabled {
                            None
                        } else {
                            self.metronome.voice
                        },
                        ..self.metronome
                    },
                    ..self
                },
                Action::Nothing,
            ),
            Command::SetEq(settings) => (
                Worker { eq: crate::dsp::eq::Eq { settings, ..self.eq }, ..self },
                Action::Nothing,
            ),
            Command::SetSpeedRamp(settings) => (
                Worker {
                    speed_ramp: settings,
                    passes_since_step: if settings.enabled != self.speed_ramp.enabled {
                        0
                    } else {
                        self.passes_since_step
                    },
                    ..self
                },
                Action::Nothing,
            ),
            Command::SetMasterVolume(db) => if finite(db) {
                (self, Action::ConvertVolume(larger(db, num(MIN_VOLUME_DB))))
            } else {
                (Worker { master_target_gain: num(1), ..self }, Action::Nothing)
            },
        }
    }

    /// The same state, playing or not.
    pub open spec fn with_playing(self, playing: bool) -> Worker<S> {
        Worker { playing, state: SharedState { playing, ..self.state }, ..self }
    }

    /// The same state with no click sounding.
    pub open spec fn without_voice(self) -> Worker<S> {
        Worker { metronome: Metronome { voice: None, ..self.metronome }, ..self }
    }

    /// The same state with the cursor inside the loop, if there is one.
    pub open spec fn pulled(self) -> Worker<S> {
        Worker { cursor: held(self.cursor, self.loop_region), ..self }
    }

    /// The same state at another frame, which it also shows.
    pub open spec fn at(self, cursor: u64) -> Worker<S> {
        Worker { cursor, state: SharedState { position: cursor, ..self.state }, ..self }
    }

    /// Carries out a command, as far as it concerns the state alone.
    pub fn apply(&mut self, cmd: Command<S>) -> (r: Action<S>)
        requires
            total_arithmetic::<S>(),
            old(self).wf(),
        ensures
            (*final(self), r) == old(self).applied(cmd),
            final(self).wf(),
    {
        match cmd {
            Command::LoadTrack(new_track) => {
                return Action::Load(new_track);
            },
            Command::Play => {
                if self.track.is_some() && self.output.is_some() {
                    self.playing = true;
                    self.state.playing = true;
                }
            },
            Command::Pause => {
                self.playing = false;
                self.metronome.reset_voice();
                self.state.playing = false;
            },
            Command::Stop => {
                self.playing = false;
                self.cursor = 0;
                self.metronome.reset_voice();
                self.state.playing = false;
                self.state.position = 0;
                self.passes_since_step = 0;
            },
            Command::Seek(pos) => {
                let frames: Option<u64> = match &self.track {
                    Some(t) => Some(t.frame_count()),
                    None => None,
                };
                if let Some(total) = frames {
                    let target: u64 = if pos <= total {
                        pos
                    } else {
                        total
                    };
                    self.cursor = snap_into_loop(target, self.loop_region);
                    self.metronome.reset_voice();
                    self.state.position = self.cursor;
                }
            },
            Command::SetLoop(region) => {
                self.loop_region = region;
                self.metronome.set_anchor(
                    match region {
                        Some(r) => r.start,
                        None => 0,
                    },
                );
                let snapped: u64 = snap_into_loop(self.cursor, self.loop_region);
                if snapped != self.cursor {
                    self.cursor = snapped;
                    self.state.position = self.cursor;
                }
            },
            Command::SetSpeed(speed) => {
                self.state.speed = speed;
                return Action::SetDspSpeed(speed);
            },
            Command::SetPitch(semitones) => {
                self.state.pitch = semitones;
                return Action::SetDspPitch(semitones);
            },
            Command::SetDsp(kind) => {
                if self.current_kind != kind {
                    self.current_kind = kind;
                    if let Some(channels) = self.current_channels {
                        return Action::BuildDsp(
                            DspPlan {
                                channels,
                                kind,
                                speed: self.state.speed,
                                pitch: self.state.pitch,
                            },
                        );
                    }
                }
            },
            Command::SetMetronome(settings) => {
                self.metronome.set_settings(settings);
            },
            Command::SetEq(settings) => {
                self.eq.set_settings(settings);
            },
            Command::SetSpeedRamp(new) => {
                if new.enabled != self.speed_ramp.enabled {
                    self.passes_since_step = 0;
                }
                self.speed_ramp = new;
            },
            Command::SetMasterVolume(db) => {
                if is_finite(db) {
                    return Action::ConvertVolume(larger_of(db, whole(MIN_VOLUME_DB)));
                }
                self.master_target_gain = whole(1);
            },
        }
        Action::Nothing
    }
}

/// An equaliser as it is right after it was made for a track.
pub open spec fn fresh_eq<S: Sample>(
    eq: crate::dsp::eq::Eq<S>,
    channels: u16,
    sample_rate: u32,
) -> bool {
    &&& eq.wf()
    &&& eq.channels == channels
    &&& eq.sample_rate == sample_rate
    &&& eq.settings.is_initial()
    &&& eq.active == 0
    &&& forall|k: int|
        0 <= k < NUM_BANDS ==> #[trigger] eq.coeffs@[k] == BiquadCoeffs::<S>::identity_spec()
    &&& forall|c: int, k: int|
        0 <= c < eq.states.len() && 0 <= k < NUM_BANDS ==> #[trigger] eq.states@[c]@[k]
            == BiquadState::<S>::silent()
}

impl<S: Sample> Worker<S> {
    /// Whether a track needs another output than the one that is open.
    pub open spec fn needs_output_spec(self, track: Track<S>) -> bool {
        self.output != Some(
            OutputFormat { sample_rate: track.sample_rate, channels: track.channels },
        )
    }

    /// Whether a track needs another output than the one that is open.
    pub fn needs_output(&self, track: &Track<S>) -> (r: bool)
        ensures
            r == self.needs_output_spec(*track),
    {
        match self.output {
            None => true,
            Some(out) => out.sample_rate != track.sample_rate || out.channels != track.channels,
        }
    }

    /// Whether a track needs clicks for another sample rate.
    pub fn needs_clicks(&self, track: &Track<S>) -> (r: bool)
        ensures
            r == (self.metronome.sample_rate != track.sample_rate),
    {
        self.metronome.sample_rate != track.sample_rate
    }

    /// Takes over a track. `opened` is the output that was opened for it, none
    /// if that failed; it counts only where one was needed. The clicks are
    /// for the track's sample rate, and count only where it is a new one. The
    /// result is the processor to build, where the old one does not fit.
    pub fn load_track(
        &mut self,
        new_track: Arc<Track<S>>,
        opened: Option<OutputFormat>,
        click_normal: Vec<S>,
        click_accent: Vec<S>,
    ) -> (r: Option<DspPlan<S>>)
        requires
            total_arithmetic::<S>(),
            old(self).wf(),
            new_track.channels > 0,
        ensures
            final(self).wf(),
            final(self).track == Some(new_track),
            final(self).cursor == 0,
            !final(self).playing,
            final(self).loop_region is None,
            final(self).output == if old(self).needs_output_spec(*new_track) {
                opened
            } else {
                old(self).output
            },
            final(self).current_channels == Some(new_track.channels),
            final(self).current_kind == old(self).current_kind,
            r == if old(self).current_channels == Some(new_track.channels) {
                None
            } else {
                Some(old(self).dsp_plan(new_track.channels, old(self).current_kind))
            },
            final(self).metronome == if old(self).metronome.sample_rate == new_track.sample_rate {
                Metronome { anchor_frame: 0, voice: None, ..old(self).metronome }
            } else {
                Metronome {
                    sample_rate: new_track.sample_rate,
                    click_normal,
                    click_accent,
                    anchor_frame: 0,
                    voice: None,
                    ..old(self).metronome
                }
            },
            fresh_eq(final(self).eq, new_track.channels, new_track.sample_rate),
            final(self).master_current_gain == old(self).master_current_gain,
            final(self).master_target_gain == old(self).master_target_gain,
            final(self).speed_ramp == old(self).speed_ramp,
            final(self).passes_since_step == old(self).passes_since_step,
            final(self).state == (SharedState {
                position: 0,
                duration: new_track.frames() as u64,
                playing: false,
                loaded_id: old(self).state.loaded_id.wrapping_add(1),
                ..old(self).state
            }),
    {
        if self.needs_output(&new_track) {
            self.output = opened;
        }
        let rebuild: bool = match self.current_channels {
            Some(c) => c != new_track.channels,
            None => true,
        };
        let plan: Option<DspPlan<S>> = if rebuild {
            self.current_channels = Some(new_track.channels);
            Some(
                DspPlan {
                    channels: new_track.channels,
                    kind: self.current_kind,
                    speed: self.state.speed,
                    pitch: self.state.pitch,
                },
            )
        } else {
            None
        };
        self.metronome.set_sample_rate(new_track.sample_rate, click_normal, click_accent);
        self.metronome.set_anchor(0);
        self.metronome.reset_voice();
        self.eq = crate::dsp::eq::Eq::new(new_track.channels as usize, new_track.sample_rate);
        self.cursor = 0;
        self.playing = false;
        self.loop_region = None;
        self.state.duration = new_track.frame_count();
        self.state.position = 0;
        self.state.playing = false;
        self.state.loaded_id = self.state.loaded_id.wrapping_add(1);
        self.track = Some(new_track);
        plan
    }

    /// Takes a new output gain. The next chunk moves to it.
    pub fn set_master_gain(&mut self, gain: S)
        ensures
            *final(self) == (Worker { master_target_gain: gain, ..*old(self) }),
    {
        self.master_target_gain = gain;
    }

    /// Stops at the end of the track, unless a loop leads on.
    pub fn stop_at_end(&mut self)
        requires
            old(self).wf(),
            old(self).track is Some,
        ensures
            *final(self) == if old(self).loop_region is None && old(self).cursor
                >= old(self).track->0.frames() {
                old(self).with_playing(false)
            } else {
                *old(self)
            },
            final(self).wf(),
    {
        let total: u64 = match &self.track {
            Some(t) => t.frame_count(),
            None => 0,
        };
        if self.loop_region.is_none() && self.cursor >= total {
            self.playing = false;
            self.state.playing = false;
        }
    }
}

/// Where the samples of the next chunk come from.
#[derive(Clone, Copy, Debug, PartialEq, Eq, Structural)]
pub enum Chunk {
    /// There is no chunk to be made now.
    Nothing,
    /// What is left of the track is too short for a chunk.
    EndOfTrack,
    /// All frames follow each other.
    Plain,
    /// So many frames up to the end of the loop, and the rest from its start.
    Stitched(usize),
}

/// The cursor at the top of a tick: inside the loop, if there is one.
pub open spec fn held(cursor: u64, loop_region: Option<LoopRegion>) -> u64 {
    match loop_region {
        Some(l) => if l.holds(cursor) {
            cursor
        } else {
            l.start
        },
        None => cursor,
    }
}

/// The frame that a chunk from `cursor` on may not run over.
pub open spec fn boundary(cursor: u64, loop_region: Option<LoopRegion>, total: int) -> int {
    match loop_region {
        Some(l) => if cursor < l.end {
            l.end as int
        } else {
            total
        },
        None => total,
    }
}

/// Where a chunk of `in_chunk` frames from `cursor` on comes from.
pub open spec fn next_chunk(
    cursor: u64,
    loop_region: Option<LoopRegion>,
    total: int,
    in_chunk: int,
) -> Chunk {
    let ahead = boundary(cursor, loop_region, total) - cursor;
    if cursor >= total {
        Chunk::Nothing
    } else if ahead >= in_chunk {
        Chunk::Plain
    } else {
        match loop_region {
            Some(l) => if l.end - l.start < in_chunk {
                Chunk::Nothing
            } else {
                Chunk::Stitched(ahead as usize)
            },
            None => Chunk::EndOfTrack,
        }
    }
}

/// The track has every frame that a chunk from `cursor` on reads.
pub open spec fn chunk_within(
    cursor: u64,
    loop_region: Option<LoopRegion>,
    total: int,
    in_chunk: int,
) -> bool {
    match next_chunk(cursor, loop_region, total, in_chunk) {
        Chunk::Plain => cursor + in_chunk <= total,
        Chunk::Stitched(_) => loop_region->0.end <= total,
        _ => true,
    }
}

/// Decides where the next chunk comes from.
pub fn choose_chunk(
    cursor: u64,
    loop_region: Option<LoopRegion>,
    total: u64,
    in_chunk: usize,
) -> (r: Chunk)
    ensures
        r == next_chunk(cursor, loop_region, total as int, in_chunk as int),
{
    if cursor >= total {
        return Chunk::Nothing;
    }
    let boundary: u64 = match loop_region {
        Some(l) => if cursor < l.end {
            l.end
        } else {
            total
        },
        None => total,
    };
    let ahead: u64 = boundary - cursor;
    if ahead >= in_chunk as u64 {
        return Chunk::Plain;
    }
    match loop_region {
        Some(l) => if l.end < l.start || l.end - l.start < in_chunk as u64 {
            Chunk::Nothing
        } else {
            Chunk::Stitched(ahead as usize)
        },
        None => Chunk::EndOfTrack,
    }
}

/// The samples of a chunk from `cursor` on.
pub open spec fn chunk_input<S>(
    track: Track<S>,
    cursor: u64,
    loop_region: Option<LoopRegion>,
    in_chunk: int,
    chunk: Chunk,
) -> Seq<S> {
    match chunk {
        Chunk::Plain => track.slice(cursor as int, cursor + in_chunk),
        Chunk::Stitched(tail) => {
            let l = loop_region->0;
            track.slice(cursor as int, cursor + tail) + track.slice(
                l.start as int,
                l.start + in_chunk - tail,
            )
        },
        _ => Seq::empty(),
    }
}

/// The cursor after a chunk.
pub open spec fn cursor_after(
    cursor: u64,
    loop_region: Option<LoopRegion>,
    in_chunk: int,
    chunk: Chunk,
) -> int {
    match chunk {
        Chunk::Plain => cursor + in_chunk,
        Chunk::Stitched(tail) => loop_region->0.start + in_chunk - tail,
        _ => cursor as int,
    }
}

/// Whether a chunk completes a pass of the loop.
pub open spec fn completes_pass(
    cursor: u64,
    loop_region: Option<LoopRegion>,
    in_chunk: int,
    chunk: Chunk,
) -> bool {
    match (chunk, loop_region) {
        (Chunk::Stitched(_), _) => true,
        (Chunk::Plain, Some(l)) => cursor + in_chunk == l.end,
        _ => false,
    }
}

/// Gains closer than a ten-millionth are the same.
pub open spec fn gain_tolerance<S: Sample>() -> S {
    num::<S>(1).div_spec(num::<S>(1000).mul_spec(num(10000)))
}

/// The gain `f` frames into a ramp that takes `step` per frame.
pub open spec fn ramp_gain<S: Sample>(from: S, step: S, f: nat) -> S
    decreases f,
{
    if f == 0 {
        from
    } else {
        ramp_gain(from, step, (f - 1) as nat).add_spec(step)
    }
}

/// Interleaved output under a gain that goes from `current` to `target` over
/// its frames. A gain that stays is applied as it is, and not at all at one.
pub open spec fn gained<S: Sample>(out: Seq<S>, channels: int, current: S, target: S) -> Seq<S> {
    let frames = out.len() as int / channels;
    let step = target.sub_spec(current).div_spec(count::<S>(frames as nat));
    if frames == 0 {
        out
    } else if near(current, target, gain_tolerance()) {
        if near(target, num(1), gain_tolerance()) {
            out
        } else {
            Seq::new(out.len(), |i: int| out[i].mul_spec(target))
        }
    } else {
        Seq::new(
            out.len(),
            |i: int|
                if i / channels >= frames {
                    out[i]
                } else {
                    out[i].mul_spec(ramp_gain(current, step, (i / channels) as nat))
                },
        )
    }
}

/// Applies the output gain in place, moving from `current` to `target` over
/// the segment. Afterwards `current` is where the segment ended.
pub fn apply_master_gain<S: Sample>(out: &mut [S], channels: usize, current: &mut S, target: S)
    requires
        total_arithmetic::<S>(),
        channels > 0,
    ensures
        final(out)@ == gained(old(out)@, channels as int, *old(current), target),
        *final(current) == if old(out)@.len() as int / channels as int == 0 {
            *old(current)
        } else {
            target
        },
{
    let samples: usize = out.len();
    let frames: usize = samples / channels;
    if frames == 0 {
        return ;
    }
    let tolerance: S = whole::<S>(1) / (whole::<S>(1000) * whole(10000));
    let one: S = whole(1);
    if is_near(*current, target, tolerance) {
        *current = target;
        if is_near(target, one, tolerance) {
            return ;
        }
        let mut i: usize = 0;
        while i < samples
            invariant
                total_arithmetic::<S>(),
                i <= samples,
                samples == old(out)@.len(),
                out@.len() == samples,
                forall|j: int| 0 <= j < i ==> #[trigger] out@[j] == old(out)@[j].mul_spec(target),
                forall|j: int| i <= j < samples ==> #[trigger] out@[j] == old(out)@[j],
            decreases samples - i,
        {
            out[i] = out[i] * target;
            i = i + 1;
        }
        assert(out@ =~= gained(old(out)@, channels as int, *old(current), target));
        return ;
    }
    let step: S = (target - *current) / count_of(frames as u64);
    let from: S = *current;
    let mut g: S = from;
    let mut f: usize = 0;
    while f < frames
        invariant
            total_arithmetic::<S>(),
            channels > 0,
            f <= frames,
            samples == old(out)@.len(),
            frames == samples as int / channels as int,
            out@.len() == samples,
            g == ramp_gain(from, step, f as nat),
            forall|j: int|
                0 <= j < samples ==> #[trigger] out@[j] == if j / channels as int >= f {
                    old(out)@[j]
                } else {
                    old(out)@[j].mul_spec(ramp_gain(from, step, (j / channels as int) as nat))
                },
        decreases frames - f,
    {
        proof {
            row_fits(f as int, samples as int, channels as int);
        }
        let base: usize = f * channels;
        let mut c: usize = 0;
        while c < channels
            invariant
                total_arithmetic::<S>(),
                channels > 0,
                c <= channels,
                base == f * channels,
                base + channels <= samples,
                samples == old(out)@.len(),
                out@.len() == samples,
                g == ramp_gain(from, step, f as nat),
                forall|j: int|
                    0 <= j < samples ==> #[trigger] out@[j] == if j / channels as int >= f && !(
                    base <= j < base + c) {
                        old(out)@[j]
                    } else {
                        old(out)@[j].mul_spec(ramp_gain(from, step, (j / channels as int) as nat))
                    },
            decreases channels - c,
        {
            proof {
                row_of(f as int, channels as int, c as int);
            }
            out[base + c] = out[base + c] * g;
            c = c + 1;
        }
        assert forall|j: int| 0 <= j < samples implies #[trigger] out@[j] == if j / channels as int
            >= f + 1 {
            old(out)@[j]
        } else {
            old(out)@[j].mul_spec(ramp_gain(from, step, (j / channels as int) as nat))
        } by {
            row_range(j, f as int, channels as int);
        }
        g = g + step;
        f = f + 1;
    }
    *current = target;
    assert(out@ =~= gained(old(out)@, channels as int, *old(current), target));
}

/// What shapes a chunk besides the engine's state.
#[derive(Clone, Copy, Debug)]
pub struct Sound<S> {
    /// What the equaliser's filters are computed from.
    pub tones: EqTones<S>,
    /// The distance of two beats in source frames.
    pub frames_per_beat: u64,
    /// The linear gain of a click.
    pub click_amp: S,
}

impl<S: Sample> Worker<S> {
    /// The clicks of a chunk mixed into its output. A stitched chunk is two
    /// stretches of source: the output is divided between them in proportion.
    pub open spec fn clicks_mixed(
        self,
        out: Seq<S>,
        channels: usize,
        in_chunk: usize,
        chunk: Chunk,
        sound: Sound<S>,
    ) -> (Metronome<S>, Seq<S>) {
        let m = self.metronome;
        match (chunk, self.loop_region) {
            (Chunk::Stitched(tail), Some(l)) => {
                let written = out.len() as int / channels as int;
                let tail_out = (tail * written) / in_chunk as int;
                let split = tail_out * channels;
                let (m1, first) = m.after_segment(
                    out.subrange(0, split),
                    channels,
                    self.cursor,
                    tail as u64,
                    sound.frames_per_beat,
                    sound.click_amp,
                );
                let rest = out.subrange(split, out.len() as int);
                let (m2, second) = if written > tail_out {
                    m1.after_segment(
                        rest,
                        channels,
                        l.start,
                        (in_chunk - tail) as u64,
                        sound.frames_per_beat,
                        sound.click_amp,
                    )
                } else {
                    (m1, rest)
                };
                (m2, first + second)
            },
            _ => m.after_segment(
                out,
                channels,
                self.cursor,
                in_chunk as u64,
                sound.frames_per_beat,
                sound.click_amp,
            ),
        }
    }

    /// `end` and `out` are the state and the output after a processor's
    /// output `raw` went through the equaliser, the metronome and the output
    /// gain, in this order.
    pub open spec fn finishes(
        self,
        end: Worker<S>,
        raw: Seq<S>,
        out: Seq<S>,
        channels: usize,
        in_chunk: usize,
        chunk: Chunk,
        sound: Sound<S>,
    ) -> bool {
        let coloured = self.eq.equalised(raw, sound.tones);
        let (metronome, clicked) = self.clicks_mixed(coloured, channels, in_chunk, chunk, sound);
        let target = self.master_target_gain;
        &&& self.eq.moves_to(end.eq, raw, sound.tones)
        &&& out == gained(clicked, channels as int, self.master_current_gain, target)
        &&& end == Worker {
            eq: end.eq,
            metronome,
            master_current_gain: if raw.len() as int / channels as int == 0 {
                self.master_current_gain
            } else {
                target
            },
            ..self
        }
    }

    /// Runs what follows the processor on one chunk of its output, in place:
    /// the equaliser, the metronome and the output gain. The chunk starts at
    /// the cursor.
    pub fn finish_chunk(
        &mut self,
        out: &mut [S],
        channels: usize,
        in_chunk: usize,
        chunk: Chunk,
        sound: &Sound<S>,
    )
        requires
            total_arithmetic::<S>(),
            old(self).eq.wf(),
            channels > 0,
            chunk matches Chunk::Stitched(tail) ==> tail < in_chunk,
        ensures
            old(self).finishes(
                *final(self),
                old(out)@,
                final(out)@,
                channels,
                in_chunk,
                chunk,
                *sound,
            ),
            final(self).eq.wf(),
            final(out)@.len() == old(out)@.len(),
    {
        self.eq.process_in_place(out, &sound.tones);
        let ghost coloured = out@;
        match (chunk, self.loop_region) {
            (Chunk::Stitched(tail), Some(l)) => {
                let written: usize = out.len() / channels;
                let tail_out: usize = proportional(tail as u64, in_chunk as u64, written);
                proof {
                    vstd::arithmetic::div_mod::lemma_fundamental_div_mod(
                        out@.len() as int,
                        channels as int,
                    );
                    vstd::arithmetic::mul::lemma_mul_is_commutative(
                        written as int,
                        channels as int,
                    );
                    vstd::arithmetic::mul::lemma_mul_inequality(
                        tail_out as int,
                        written as int,
                        channels as int,
                    );
                    vstd::arithmetic::mul::lemma_mul_nonnegative(tail_out as int, channels as int);
                }
                let split: usize = tail_out * channels;
                let (first, second) = out.split_at_mut(split);
                self.metronome.mix_segment(
                    first,
                    channels,
                    self.cursor,
                    tail as u64,
                    sound.frames_per_beat,
                    sound.click_amp,
                );
                if written > tail_out {
                    self.metronome.mix_segment(
                        second,
                        channels,
                        l.start,
                        (in_chunk - tail) as u64,
                        sound.frames_per_beat,
                        sound.click_amp,
                    );
                }
            },
            _ => {
                self.metronome.mix_segment(
                    out,
                    channels,
                    self.cursor,
                    in_chunk as u64,
                    sound.frames_per_beat,
                    sound.click_amp,
                );
            },
        }
        assert((self.metronome, out@) == old(self).clicks_mixed(
            coloured,
            channels,
            in_chunk,
            chunk,
            *sound,
        ));
        apply_master_gain(out, channels, &mut self.master_current_gain, self.master_target_gain);
    }
}

/// The next chunk of the engine, with room for `vacant` samples in the output.
pub open spec fn planned<S: Sample, D: TimePitchProcessor<S>>(
    worker: Worker<S>,
    dsp: D,
    vacant: usize,
) -> Chunk {
    let track = worker.track->0;
    if vacant < dsp.expected_output_frames() * track.channels {
        Chunk::Nothing
    } else {
        next_chunk(
            held(worker.cursor, worker.loop_region),
            worker.loop_region,
            track.frames() as int,
            dsp.input_frames() as int,
        )
    }
}

/// The state with a chunk behind it: the cursor has moved on, and where a
/// pass of the loop is complete, the speed ramp has counted it.
pub open spec fn moved_on<S: Sample>(
    worker: Worker<S>,
    cursor: u64,
    pass: bool,
) -> Worker<S> {
    let there = worker.at(cursor);
    if !pass {
        there
    } else {
        Worker {
            passes_since_step: count_pass(worker.speed_ramp, worker.passes_since_step).0,
            state: SharedState {
                speed: match new_speed(worker, pass) {
                    Some(speed) => speed,
                    None => worker.state.speed,
                },
                ..there.state
            },
            ..there
        }
    }
}

/// The speed to go on with after a chunk, where it changes.
pub open spec fn new_speed<S: Sample>(worker: Worker<S>, pass: bool) -> Option<S> {
    if pass && count_pass(worker.speed_ramp, worker.passes_since_step).1 {
        worker.speed_ramp.next_speed(worker.state.speed, worker.metronome.settings.bpm)
    } else {
        None
    }
}

/// The processor made something of the chunk's source, the rest of the way
/// made `out` of that, the engine has moved on behind it, and the processor
/// knows of the new speed, if there is one.
pub open spec fn produced<S: Sample, D: TimePitchProcessor<S>>(
    here: Worker<S>,
    dsp: D,
    chunk: Chunk,
    sound: Sound<S>,
    end: Worker<S>,
    dsp_end: D,
    out: Seq<S>,
) -> bool {
    let track = here.track->0;
    let channels = track.channels as usize;
    let in_chunk = dsp.input_frames() as usize;
    let pass = completes_pass(here.cursor, here.loop_region, in_chunk as int, chunk);
    exists|raw: Seq<S>, mid: D|
        {
            &&& #[trigger] dsp.processed(
                chunk_input(*track, here.cursor, here.loop_region, in_chunk as int, chunk),
                dsp.max_output_frames() * channels as nat,
                channels,
                &mid,
                raw,
            )
            &&& here.completes(end, raw, out, in_chunk, chunk, sound)
            &&& match new_speed(Worker { metronome: end.metronome, ..here }, pass) {
                Some(speed) => mid.sped(speed, &dsp_end),
                None => dsp_end == mid,
            }
        }
}

impl<S: Sample> Worker<S> {
    /// The interleaved samples that a chunk feeds to the processor.
    pub fn read_chunk(&self, in_chunk: usize, chunk: Chunk) -> (r: Vec<S>)
        requires
            self.wf(),
            self.track is Some,
            self.loop_region matches Some(l) ==> l.start <= self.cursor,
            chunk_within(
                self.cursor,
                self.loop_region,
                self.track->0.frames() as int,
                in_chunk as int,
            ),
            chunk == next_chunk(
                self.cursor,
                self.loop_region,
                self.track->0.frames() as int,
                in_chunk as int,
            ),
        ensures
            r@ == chunk_input(
                *self.track->0,
                self.cursor,
                self.loop_region,
                in_chunk as int,
                chunk,
            ),
            chunk is Plain || chunk is Stitched ==> r@.len() == in_chunk * self.track->0.channels,
    {
        let mut input: Vec<S> = Vec::new();
        if let Some(track) = &self.track {
            let channels: usize = track.channels as usize;
            let len: usize = track.samples.len();
            proof {
                frames_bounded(&**track);
                assert(track.frames() <= len);
            }
            match (chunk, self.loop_region) {
                (Chunk::Plain, _) => {
                    proof {
                        frames_fit(&**track, self.cursor as int, self.cursor + in_chunk);
                    }
                    append_frames(&mut input, track, self.cursor as usize, in_chunk);
                    assert(input@ =~= track.slice(self.cursor as int, self.cursor + in_chunk));
                },
                (Chunk::Stitched(tail), Some(l)) => {
                    proof {
                        frames_fit(&**track, self.cursor as int, self.cursor + tail);
                        frames_fit(&**track, l.start as int, l.start + in_chunk - tail);
                        vstd::arithmetic::mul::lemma_mul_is_distributive_add_other_way(
                            channels as int,
                            tail as int,
                            in_chunk - tail,
                        );
                    }
                    append_frames(&mut input, track, self.cursor as usize, tail);
                    append_frames(&mut input, track, l.start as usize, in_chunk - tail);
                    assert(input@ =~= chunk_input(
                        **track,
                        self.cursor,
                        self.loop_region,
                        in_chunk as int,
                        chunk,
                    ));
                },
                _ => {},
            }
        }
        input
    }

    /// Moves on to `cursor`, and counts a pass of the loop where one is
    /// complete. The result is the speed to go on with, where it changes.
    fn move_on(&mut self, cursor: u64, pass: bool) -> (r: Option<S>)
        requires
            total_arithmetic::<S>(),
            old(self).wf(),
        ensures
            *final(self) == moved_on(*old(self), cursor, pass),
            r == new_speed(*old(self), pass),
            final(self).wf(),
    {
        self.cursor = cursor;
        self.state.position = cursor;
        if !pass {
            return None;
        }
        let bpm: S = self.metronome.bpm();
        let next: Option<S> = advance_speed_ramp(
            &self.speed_ramp,
            &mut self.passes_since_step,
            self.state.speed,
            bpm,
        );
        if let Some(speed) = next {
            self.state.speed = speed;
        }
        next
    }

    /// Decides on the next chunk, for a processor that takes `in_chunk` frames
    /// and is expected to give out `needed` samples, with room for `vacant`
    /// ones. The cursor is pulled into the loop, if there is one; where the
    /// track is over, it goes to its end.
    pub fn plan_chunk(&mut self, in_chunk: usize, needed: usize, vacant: usize) -> (r: Chunk)
        requires
            old(self).wf(),
            old(self).track is Some,
        ensures
            final(self).wf(),
            r == if vacant < needed {
                Chunk::Nothing
            } else {
                next_chunk(
                    old(self).pulled().cursor,
                    old(self).loop_region,
                    old(self).track->0.frames() as int,
                    in_chunk as int,
                )
            },
            *final(self) == if r == Chunk::EndOfTrack {
                old(self).pulled().at(old(self).track->0.frames() as u64)
            } else {
                old(self).pulled()
            },
    {
        let total: u64 = match &self.track {
            Some(t) => t.frame_count(),
            None => 0,
        };
        if let Some(l) = self.loop_region {
            if self.cursor >= l.end || self.cursor < l.start {
                self.cursor = l.start;
            }
        }
        if vacant < needed {
            return Chunk::Nothing;
        }
        let chunk: Chunk = choose_chunk(self.cursor, self.loop_region, total, in_chunk);
        if chunk == Chunk::EndOfTrack {
            self.cursor = total;
            self.state.position = total;
        }
        chunk
    }

    /// `end` and `out` are the state and the output once the processor's output
    /// `raw` for a chunk went through all that follows it, and the engine has
    /// moved on behind the chunk.
    pub open spec fn completes(
        self,
        end: Worker<S>,
        raw: Seq<S>,
        out: Seq<S>,
        in_chunk: usize,
        chunk: Chunk,
        sound: Sound<S>,
    ) -> bool {
        let done = Worker {
            cursor: self.cursor,
            state: self.state,
            passes_since_step: self.passes_since_step,
            ..end
        };
        &&& self.finishes(
            done,
            raw,
            out,
            self.track->0.channels as usize,
            in_chunk,
            chunk,
            sound,
        )
        &&& end == moved_on(
            done,
            cursor_after(self.cursor, self.loop_region, in_chunk as int, chunk) as u64,
            completes_pass(self.cursor, self.loop_region, in_chunk as int, chunk),
        )
    }

    /// Runs what follows the processor on its output for a chunk, in place,
    /// and moves on behind the chunk. The result is the speed to tell the
    /// processor, where it changes.
    pub fn complete_chunk(
        &mut self,
        out: &mut [S],
        in_chunk: usize,
        chunk: Chunk,
        sound: &Sound<S>,
    ) -> (r: Option<S>)
        requires
            total_arithmetic::<S>(),
            old(self).wf(),
            old(self).track is Some,
            chunk is Plain || chunk is Stitched,
            old(self).loop_region matches Some(l) ==> l.start <= old(self).cursor,
            chunk_within(
                old(self).cursor,
                old(self).loop_region,
                old(self).track->0.frames() as int,
                in_chunk as int,
            ),
            chunk == next_chunk(
                old(self).cursor,
                old(self).loop_region,
                old(self).track->0.frames() as int,
                in_chunk as int,
            ),
        ensures
            final(self).wf(),
            final(out)@.len() == old(out)@.len(),
            old(self).completes(*final(self), old(out)@, final(out)@, in_chunk, chunk, *sound),
            r == new_speed(
                Worker { metronome: final(self).metronome, ..*old(self) },
                completes_pass(
                    old(self).cursor,
                    old(self).loop_region,
                    in_chunk as int,
                    chunk,
                ),
            ),
    {
        let channels: usize = match &self.track {
            Some(t) => t.channels as usize,
            None => 1,
        };
        let (next, pass): (u64, bool) = match (chunk, self.loop_region) {
            (Chunk::Plain, Some(l)) => {
                (self.cursor + in_chunk as u64, self.cursor + in_chunk as u64 == l.end)
            },
            (Chunk::Stitched(tail), Some(l)) => (l.start + (in_chunk - tail) as u64, true),
            _ => (self.cursor + in_chunk as u64, false),
        };
        self.finish_chunk(out, channels, in_chunk, chunk, sound);
        let ghost done = *self;
        let speed: Option<S> = self.move_on(next, pass);
        assert(done == Worker {
            cursor: old(self).cursor,
            state: old(self).state,
            passes_since_step: old(self).passes_since_step,
            ..*self
        });
        speed
    }

    /// Makes the next chunk of output, if there is source for it and room in
    /// the output for what it is expected to give. The result is how many
    /// samples of `scratch` are ready to be played.
    pub fn produce<D: TimePitchProcessor<S>>(
        &mut self,
        dsp: &mut D,
        vacant: usize,
        sound: &Sound<S>,
        scratch: &mut Vec<S>,
    ) -> (r: Option<usize>)
        requires
            total_arithmetic::<S>(),
            old(self).wf(),
            old(self).track is Some,
            old(dsp).valid(),
            chunk_within(
                held(old(self).cursor, old(self).loop_region),
                old(self).loop_region,
                old(self).track->0.frames() as int,
                old(dsp).input_frames() as int,
            ),
            old(dsp).max_output_frames() * old(self).track->0.channels <= usize::MAX,
            old(dsp).expected_output_frames() * old(self).track->0.channels <= usize::MAX,
        ensures
            final(self).wf(),
            final(dsp).valid(),
            final(dsp).input_frames() == old(dsp).input_frames(),
            final(dsp).max_output_frames() == old(dsp).max_output_frames(),
            ({
                let chunk = planned(*old(self), *old(dsp), vacant);
                let here = old(self).pulled();
                match chunk {
                    Chunk::Nothing => {
                        &&& r is None
                        &&& *final(self) == here
                        &&& *final(dsp) == *old(dsp)
                    },
                    Chunk::EndOfTrack => {
                        &&& r is None
                        &&& *final(self) == here.at(here.track->0.frames() as u64)
                        &&& *final(dsp) == *old(dsp)
                    },
                    _ => {
                        &&& r is Some
                        &&& r->0 <= final(scratch)@.len()
                        &&& produced(
                            here,
                            *old(dsp),
                            chunk,
                            *sound,
                            *final(self),
                            *final(dsp),
                            final(scratch)@.take(r->0 as int),
                        )
                    },
                }
            }),
    {
        let channels: usize = match &self.track {
            Some(t) => t.channels as usize,
            None => 1,
        };
        let in_chunk: usize = dsp.input_frames_per_chunk();
        let needed: usize = dsp.expected_output_frames_per_chunk() * channels;
        let chunk: Chunk = self.plan_chunk(in_chunk, needed, vacant);
        let ghost here = *self;
        match chunk {
            Chunk::Nothing => {
                return None;
            },
            Chunk::EndOfTrack => {
                return None;
            },
            _ => {},
        }
        let room: usize = dsp.max_output_frames_per_chunk() * channels;
        grow(scratch, room);
        let input: Vec<S> = self.read_chunk(in_chunk, chunk);
        let (out, _unused) = scratch.as_mut_slice().split_at_mut(room);
        let (_taken, written) = dsp.process(input.as_slice(), out, channels);
        let ghost mid = *dsp;
        let ready: usize = written * channels;
        let (out, _unused) = out.split_at_mut(ready);
        let ghost raw = out@;
        let speed: Option<S> = self.complete_chunk(out, in_chunk, chunk, sound);
        let ghost played = out@;
        if let Some(s) = speed {
            dsp.set_speed(s);
        }
        assert(scratch@.take(ready as int) =~= played);
        proof {
            was_produced(
                here,
                *old(dsp),
                chunk,
                *sound,
                *self,
                mid,
                *dsp,
                scratch@.take(ready as int),
                raw,
            );
        }
        Some(ready)
    }
}

/// What was processed and then completed was produced.
proof fn was_produced<S: Sample, D: TimePitchProcessor<S>>(
    here: Worker<S>,
    dsp: D,
    chunk: Chunk,
    sound: Sound<S>,
    end: Worker<S>,
    mid: D,
    dsp_end: D,
    out: Seq<S>,
    raw: Seq<S>,
)
    requires
        dsp.input_frames() <= usize::MAX,
        dsp.processed(
            chunk_input(
                *here.track->0,
                here.cursor,
                here.loop_region,
                dsp.input_frames() as int,
                chunk,
            ),
            dsp.max_output_frames() * here.track->0.channels as nat,
            here.track->0.channels as usize,
            &mid,
            raw,
        ),
        here.completes(end, raw, out, dsp.input_frames() as usize, chunk, sound),
        match new_speed(
            Worker { metronome: end.metronome, ..here },
            completes_pass(here.cursor, here.loop_region, dsp.input_frames() as int, chunk),
        ) {
            Some(speed) => mid.sped(speed, &dsp_end),
            None => dsp_end == mid,
        },
    ensures
        produced(here, dsp, chunk, sound, end, dsp_end, out),
{
}

/// Makes a buffer at least `len` samples long.
pub fn grow<S: Sample>(buf: &mut Vec<S>, len: usize)
    requires
        total_arithmetic::<S>(),
    ensures
        final(buf)@.len() >= len,
        old(buf)@.len() >= len ==> final(buf)@ == old(buf)@,
{
    while buf.len() < len
        invariant
            total_arithmetic::<S>(),
            old(buf)@.len() >= len ==> buf@ == old(buf)@,
        decreases len - buf.len(),
    {
        buf.push(whole(0));
    }
}

/// Appends `frames` frames of a track from frame `from` on.
pub fn append_frames<S: Sample>(buf: &mut Vec<S>, track: &Track<S>, from: usize, frames: usize)
    requires
        track.channels > 0,
        from + frames <= track.frames(),
    ensures
        final(buf)@ == old(buf)@ + track.slice(from as int, from + frames),
{
    let channels: usize = track.channels as usize;
    let len: usize = track.samples.len();
    proof {
        frames_fit(track, from as int, from + frames);
        frames_fit(track, 0, from as int);
    }
    let first: usize = from * channels;
    let last: usize = (from + frames) * channels;
    let mut i: usize = first;
    while i < last
        invariant
            first <= i <= last <= len,
            len == track.samples@.len(),
            buf@ =~= old(buf)@ + track.samples@.subrange(first as int, i as int),
        decreases last - i,
    {
        buf.push(track.samples[i]);
        i = i + 1;
    }
}

/// Setting a loop, or seeking while there is one, leaves the cursor inside
/// the loop.
pub proof fn commands_land_in_loop<S: Sample>(worker: Worker<S>, cmd: Command<S>)
    requires
        match cmd {
            Command::SetLoop(region) => region matches Some(l) && l.proper(),
            Command::Seek(_) => worker.track is Some && (worker.loop_region matches Some(l)
                && l.proper()),
            _ => false,
        },
    ensures
        worker.applied(cmd).0.loop_region is Some,
        worker.applied(cmd).0.loop_region->0.holds(worker.applied(cmd).0.cursor),
{
}

/// Stopping goes back to the beginning and stays there; pausing keeps the
/// place, so that playing goes on from it.
pub proof fn pausing_keeps_the_place<S: Sample>(worker: Worker<S>)
    requires
        worker.wf(),
        worker.track is Some,
        worker.output is Some,
    ensures
        worker.applied(Command::Pause).0.applied(Command::Play).0.cursor == worker.cursor,
        worker.applied(Command::Pause).0.applied(Command::Play).0.playing,
        worker.applied(Command::Stop).0.applied(Command::Play).0.cursor == 0,
        worker.applied(Command::Stop).0.state.position == 0,
        !worker.applied(Command::Stop).0.playing,
{
}

/// A loop is read round and round: frame `i` of a chunk is the frame of the
/// loop that lies `i` frames ahead, counted past the end from the start again.
/// The cursor goes on from where the chunk ended, and a pass is complete
/// exactly when the chunk reached the end of the loop.
pub proof fn loops_are_gap_free<S: Sample>(
    track: &Track<S>,
    l: LoopRegion,
    cursor: u64,
    in_chunk: int,
    i: int,
    c: int,
)
    requires
        track.channels > 0,
        l.end <= track.frames(),
        l.holds(cursor),
        0 < in_chunk <= l.end - l.start,
        0 <= i < in_chunk,
        0 <= c < track.channels,
    ensures
        ({
            let len = l.end - l.start;
            let chunk = next_chunk(cursor, Some(l), track.frames() as int, in_chunk);
            let input = chunk_input(*track, cursor, Some(l), in_chunk, chunk);
            let after = cursor_after(cursor, Some(l), in_chunk, chunk);
            &&& chunk is Plain || chunk is Stitched
            &&& input.len() == in_chunk * track.channels
            &&& input[i * track.channels + c] == track.sample(
                l.start + (cursor - l.start + i) % len,
                c,
            )
            &&& held(after as u64, Some(l)) == l.start + (cursor - l.start + in_chunk) % len
            &&& completes_pass(cursor, Some(l), in_chunk, chunk) <==> cursor - l.start + in_chunk
                >= len
        }),
{
    let len = l.end - l.start;
    let ch = track.channels as int;
    let at = cursor - l.start;
    let chunk = next_chunk(cursor, Some(l), track.frames() as int, in_chunk);
    let tail = l.end - cursor;
    cyclic_step(at, i, len);
    cyclic_step(at, in_chunk, len);
    vstd::arithmetic::div_mod::lemma_div_multiples_vanish(in_chunk, ch);
    vstd::arithmetic::mul::lemma_mul_is_commutative(in_chunk, ch);
    vstd::arithmetic::mul::lemma_mul_nonnegative(in_chunk, ch);
    row_fits(i, in_chunk * ch, ch);
    let input = chunk_input(*track, cursor, Some(l), in_chunk, chunk);
    let frame = l.start + (at + i) % len;
    frames_bounded(track);
    assert(track.samples@.len() == track.samples.len());
    if chunk is Plain {
        frames_fit(track, cursor as int, cursor + in_chunk);
        assert(frame == cursor + i);
        assert(input[i * ch + c] == track.samples@[cursor * ch + (i * ch + c)]);
        vstd::arithmetic::mul::lemma_mul_is_distributive_add_other_way(ch, cursor as int, i);
    } else {
        frames_fit(track, cursor as int, cursor + tail);
        frames_fit(track, l.start as int, l.start + in_chunk - tail);
        vstd::arithmetic::mul::lemma_mul_is_distributive_add_other_way(ch, tail, in_chunk - tail);
        if i < tail {
            assert(frame == cursor + i);
            vstd::arithmetic::mul::lemma_mul_inequality(i + 1, tail, ch);
            assert(input[i * ch + c] == track.samples@[cursor * ch + (i * ch + c)]);
            vstd::arithmetic::mul::lemma_mul_is_distributive_add_other_way(ch, cursor as int, i);
        } else {
            assert(frame == l.start + (i - tail));
            vstd::arithmetic::mul::lemma_mul_inequality(tail, i, ch);
            assert(input[i * ch + c] == track.samples@[l.start * ch + (i * ch + c - tail * ch)]);
            vstd::arithmetic::mul::lemma_mul_is_distributive_sub_other_way(ch, i, tail);
            vstd::arithmetic::mul::lemma_mul_is_distributive_add_other_way(
                ch,
                l.start as int,
                i - tail,
            );
        }
    }
}

/// Less than one round ahead of `at` is `at` plus the distance, or one round
/// less.
proof fn cyclic_step(at: int, d: int, len: int)
    requires
        0 <= at < len,
        0 <= d <= len,
    ensures
        (at + d) % len == if at + d >= len {
            at + d - len
        } else {
            at + d
        },
{
    if at + d >= len {
        vstd::arithmetic::div_mod::lemma_fundamental_div_mod_converse(at + d, len, 1, at + d - len);
    } else {
        vstd::arithmetic::div_mod::lemma_small_mod((at + d) as nat, len as nat);
    }
}

} // verus!
