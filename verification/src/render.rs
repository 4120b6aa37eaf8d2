//! Rendering a loop into a file: which source goes in, chunk by chunk, what
//! becomes of it, and how far the work has come.

use std::sync::Arc;

use vstd::prelude::*;
use vstd::std_specs::ops::{AddSpec, DivSpec, MulSpec, SubSpec};
use vstd::string::StringExecFns;

use crate::dsp::eq::{BiquadCoeffs, BiquadState, EqSettings, NUM_BANDS};
use crate::dsp::{DspKind, TimePitchProcessor};
use crate::engine::metronome::{proportional, Metronome, MetronomeSettings};
use crate::engine::worker::{append_frames, grow, Sound};
use crate::sample::{
    clamp_to, clamped, count, count_of, counts_rise, finite, half, le, lt, num, real_like, same,
    total_arithmetic, whole, Sample,
};
use crate::track::{frames_bounded, LoopRegion, Track};

pub mod laws;

verus! {

/// How samples are written to the file.
#[derive(Clone, Copy, Debug, PartialEq, Eq, Structural)]
pub enum ExportFormat {
    /// Sixteen-bit whole numbers.
    Pcm16,
    /// Single-precision numbers, as they are.
    F32,
}

/// The header of a sound file.
#[derive(Clone, Copy, Debug, PartialEq, Eq, Structural)]
pub struct WavFormat {
    pub channels: u16,
    pub sample_rate: u32,
    pub bits_per_sample: u16,
    /// Whether samples are fractions rather than whole numbers.
    pub fractional: bool,
}

impl ExportFormat {
    /// The header for a track in this format.
    pub fn spec(self, channels: u16, sample_rate: u32) -> (r: WavFormat)
        ensures
            r.channels == channels,
            r.sample_rate == sample_rate,
            r.bits_per_sample == match self {
                ExportFormat::Pcm16 => 16u16,
                ExportFormat::F32 => 32u16,
            },
            r.fractional == (self == ExportFormat::F32),
    {
        let (bits_per_sample, fractional): (u16, bool) = match self {
            ExportFormat::Pcm16 => (16, false),
            ExportFormat::F32 => (32, true),
        };
        WavFormat { channels, sample_rate, bits_per_sample, fractional }
    }
}

/// What a file is called while it is being written.
pub const PART_SUFFIX: &'static str = ".part";

/// The path to write to until the file is complete: in the same place, with
/// an ending of its own.
pub fn part_path_for(out_path: &str) -> (r: String)
    ensures
        r@ == out_path@ + ".part"@,
{
    let mut s: String = out_path.to_owned();
    s.append(".part");
    s
}

/// An unfinished file is never mistaken for the finished one, nor for that of
/// another export.
pub proof fn part_paths_are_distinct(a: Seq<char>, b: Seq<char>)
    ensures
        a + ".part"@ != a,
        a + ".part"@ == b + ".part"@ ==> a == b,
{
    reveal_strlit(".part");
    assert((a + ".part"@).len() == a.len() + 5);
    if a + ".part"@ == b + ".part"@ {
        assert(a =~= (a + ".part"@).take(a.len() as int));
        assert(b =~= (b + ".part"@).take(b.len() as int));
    }
}

/// The largest whole number from zero on, and not above `32767`, that does
/// not exceed `y`.
pub open spec fn is_floor<S: Sample>(y: S, k: int) -> bool {
    &&& 0 <= k <= 32767
    &&& le(num::<S>(k as i16), y)
    &&& k == 32767 || !le(num::<S>((k + 1) as i16), y)
}

/// A sample as a sixteen-bit number: cut off at full scale, scaled, and the
/// fraction dropped. What is no number is silence.
pub open spec fn is_pcm16<S: Sample>(x: S, r: i16) -> bool {
    let y = clamped(x, num(-1i16), num(1)).mul_spec(num(32767));
    let minus = num::<S>(0).sub_spec(y);
    if le(num(0), y) {
        r >= 0 && is_floor(y, r as int)
    } else if le(num(0), minus) {
        r <= 0 && is_floor(minus, -r)
    } else {
        r == 0
    }
}

/// The largest whole number that does not exceed `y`.
fn floor_of<S: Sample>(y: S) -> (r: i16)
    requires
        total_arithmetic::<S>(),
        le(num(0), y),
    ensures
        is_floor(y, r as int),
{
    if whole::<S>(32767) <= y {
        return 32767;
    }
    let mut lo: i16 = 0;
    let mut hi: i16 = 32767;
    while hi - lo > 1
        invariant
            total_arithmetic::<S>(),
            0 <= lo < hi <= 32767,
            le(num::<S>(lo), y),
            !le(num::<S>(hi), y),
        decreases hi - lo,
    {
        let mid: i16 = lo + (hi - lo) / 2;
        if whole::<S>(mid) <= y {
            lo = mid;
        } else {
            hi = mid;
        }
    }
    lo
}

/// A sample as a sixteen-bit number.
pub fn to_pcm16<S: Sample>(x: S) -> (r: i16)
    requires
        total_arithmetic::<S>(),
    ensures
        is_pcm16(x, r),
{
    let zero: S = whole(0);
    let y: S = clamp_to(x, whole(-1), whole(1)) * whole(32767);
    if zero <= y {
        floor_of(y)
    } else if zero <= zero - y {
        -floor_of(zero - y)
    } else {
        0
    }
}

/// All that is needed to render, as it was when the user asked for it.
pub struct RenderRequest<S> {
    pub track: Arc<Track<S>>,
    pub loop_region: LoopRegion,
    pub dsp_kind: DspKind,
    pub speed: S,
    pub pitch_semitones: S,
    pub eq: EqSettings<S>,
    pub include_metronome: bool,
    pub metronome: MetronomeSettings<S>,
    pub out_path: String,
    pub format: ExportFormat,
    /// Tells the news of this job from those of others.
    pub job_id: u64,
}

/// News of a job.
#[derive(Clone, Debug)]
pub enum RenderProgress<S> {
    Started { job_id: u64 },
    /// How far the job is, between nothing and one.
    Progress { job_id: u64, fraction: S },
    Done { job_id: u64, out_path: String },
    Failed { job_id: u64, error: String },
    Cancelled { job_id: u64 },
}

impl<S> RenderProgress<S> {
    /// The job that the news are of.
    pub open spec fn job(self) -> u64 {
        match self {
            RenderProgress::Started { job_id } => job_id,
            RenderProgress::Progress { job_id, .. } => job_id,
            RenderProgress::Done { job_id, .. } => job_id,
            RenderProgress::Failed { job_id, .. } => job_id,
            RenderProgress::Cancelled { job_id } => job_id,
        }
    }
}

/// The job that news are of.
pub fn render_progress_job_id<S>(p: &RenderProgress<S>) -> (r: u64)
    ensures
        r == p.job(),
{
    match p {
        RenderProgress::Started { job_id } => *job_id,
        RenderProgress::Progress { job_id, .. } => *job_id,
        RenderProgress::Done { job_id, .. } => *job_id,
        RenderProgress::Failed { job_id, .. } => *job_id,
        RenderProgress::Cancelled { job_id } => *job_id,
    }
}

/// Why a loop cannot be rendered.
#[derive(Clone, Copy, Debug, PartialEq, Eq, Structural)]
pub enum RenderError {
    NoChannels,
    EndBeforeStart,
    EmptyLoop,
    /// The loop is shorter than one chunk.
    TooShort { length: u64, chunk: usize },
}

/// The length of a loop that can be rendered in chunks of `in_chunk` frames,
/// or why it cannot.
pub open spec fn checked_length(channels: u16, l: LoopRegion, in_chunk: usize) -> Result<
    u64,
    RenderError,
> {
    if channels == 0 {
        Err(RenderError::NoChannels)
    } else if l.end < l.start {
        Err(RenderError::EndBeforeStart)
    } else if l.end == l.start {
        Err(RenderError::EmptyLoop)
    } else if l.end - l.start < in_chunk {
        Err(RenderError::TooShort { length: (l.end - l.start) as u64, chunk: in_chunk })
    } else {
        Ok((l.end - l.start) as u64)
    }
}

/// The length of a loop that can be rendered, or why it cannot.
pub fn check_loop(channels: u16, l: LoopRegion, in_chunk: usize) -> (r: Result<u64, RenderError>)
    ensures
        r == checked_length(channels, l, in_chunk),
{
    if channels == 0 {
        return Err(RenderError::NoChannels);
    }
    if l.end < l.start {
        return Err(RenderError::EndBeforeStart);
    }
    let length: u64 = l.end - l.start;
    if length == 0 {
        return Err(RenderError::EmptyLoop);
    }
    if length < in_chunk as u64 {
        return Err(RenderError::TooShort { length, chunk: in_chunk });
    }
    Ok(length)
}

/// The loop is gone through twice: once to bring the processors up to speed,
/// and once for the file.
#[derive(Clone, Copy, Debug, PartialEq, Eq, Structural)]
pub enum Pass {
    Priming,
    Capture,
    Finished,
}

/// The fraction `part` of the way from one end of a span to the other.
pub open spec fn blend<S: Sample>(span: (S, S), part: S) -> S {
    span.0.add_spec(span.1.sub_spec(span.0).mul_spec(part))
}

/// A rendering under way.
pub struct Renderer<S> {
    pub track: Arc<Track<S>>,
    pub region: LoopRegion,
    pub in_chunk: usize,
    pub eq: crate::dsp::eq::Eq<S>,
    pub metronome: Metronome<S>,
    pub pass: Pass,
    /// The source frames of this pass that are done.
    pub consumed: u64,
    /// How far the job was when it was last told.
    pub last_reported: S,
}

/// What came of one chunk.
#[derive(Clone, Copy, Debug)]
pub struct Rendered<S> {
    /// How many samples at the front of the output are this pass's own.
    pub ready: usize,
    /// Whether they go into the file.
    pub capture: bool,
    /// How far the job is, where that is worth telling.
    pub progress: Option<S>,
}

impl<S: Sample> Renderer<S> {
    /// The loop can be rendered, and the place in it is inside it.
    pub open spec fn wf(self) -> bool {
        &&& self.track.channels > 0
        &&& self.region.end <= self.track.frames()
        &&& self.region.proper()
        &&& 0 < self.in_chunk <= self.region.end - self.region.start
        &&& self.consumed <= self.region.end - self.region.start
        &&& self.eq.wf()
    }

    /// The frames of the loop.
    pub open spec fn length(self) -> int {
        self.region.end - self.region.start
    }

    /// The frames of the next chunk that come from where the last one ended.
    /// The rest of it is the start of the loop.
    pub open spec fn tail(self) -> int {
        if self.length() - self.consumed < self.in_chunk {
            self.length() - self.consumed
        } else {
            self.in_chunk as int
        }
    }

    /// The samples of the next chunk.
    pub open spec fn next_input(self) -> Seq<S> {
        let at = self.region.start + self.consumed;
        self.track.slice(at, at + self.tail()) + self.track.slice(
            self.region.start as int,
            self.region.start + self.in_chunk - self.tail(),
        )
    }

    /// How far the whole job is once this chunk is done. Each pass is half.
    pub open spec fn overall(self) -> S {
        let part = count::<S>((self.consumed + self.tail()) as nat).div_spec(
            count::<S>(self.length() as nat),
        );
        blend(self.span(), part)
    }

    /// Where the job is at the start and at the end of a pass.
    pub open spec fn span(self) -> (S, S) {
        if self.pass == Pass::Priming {
            (num::<S>(0), half::<S>())
        } else {
            (half::<S>(), num::<S>(1))
        }
    }

    /// `after` and `out` are what the rest of the way makes of the
    /// processor's output: the equaliser, and then the metronome. Where
    /// nothing came out, nothing happens.
    pub open spec fn finishes(
        self,
        after: Renderer<S>,
        raw: Seq<S>,
        out: Seq<S>,
        sound: Sound<S>,
    ) -> bool {
        if raw.len() == 0 {
            &&& after.eq == self.eq
            &&& after.metronome == self.metronome
            &&& out == raw
        } else {
            &&& self.eq.moves_to(after.eq, raw, sound.tones)
            &&& (after.metronome, out) == self.metronome.after_segment(
                self.eq.equalised(raw, sound.tones),
                self.track.channels as usize,
                (self.region.start + self.consumed) as u64,
                self.in_chunk as u64,
                sound.frames_per_beat,
                sound.click_amp,
            )
        }
    }

    /// Sets out to render a loop with a processor that takes chunks of
    /// `in_chunk` frames. The clicks are for the track's sample rate.
    pub fn new(
        req: &RenderRequest<S>,
        in_chunk: usize,
        click_normal: Vec<S>,
        click_accent: Vec<S>,
    ) -> (r: Result<Renderer<S>, RenderError>)
        requires
            total_arithmetic::<S>(),
            in_chunk > 0,
            checked_length(req.track.channels, req.loop_region, in_chunk) is Ok
                ==> req.loop_region.end <= req.track.frames(),
        ensures
            match checked_length(req.track.channels, req.loop_region, in_chunk) {
                Err(e) => r == Err::<Renderer<S>, RenderError>(e),
                Ok(length) => {
                    &&& r is Ok
                    &&& r->Ok_0.wf()
                    &&& r->Ok_0.track == req.track
                    &&& r->Ok_0.region == req.loop_region
                    &&& r->Ok_0.in_chunk == in_chunk
                    &&& r->Ok_0.eq.settings == req.eq
                    &&& r->Ok_0.eq.channels == req.track.channels
                    &&& r->Ok_0.eq.sample_rate == req.track.sample_rate
                    &&& r->Ok_0.eq.active == 0
                    &&& forall|k: int|
                        0 <= k < NUM_BANDS ==> #[trigger] r->Ok_0.eq.coeffs@[k]
                            == BiquadCoeffs::<S>::identity_spec()
                    &&& forall|c: int, k: int|
                        0 <= c < r->Ok_0.eq.states.len() && 0 <= k < NUM_BANDS
                            ==> #[trigger] r->Ok_0.eq.states@[c]@[k]
                            == BiquadState::<S>::silent()
                    &&& r->Ok_0.metronome.settings == if req.include_metronome {
                        req.metronome
                    } else {
                        MetronomeSettings::<S>::initial()
                    }
                    &&& r->Ok_0.metronome.sample_rate == req.track.sample_rate
                    &&& r->Ok_0.metronome.anchor_frame == req.loop_region.start
                    &&& req.track.sample_rate != 0 ==> r->Ok_0.metronome.click_normal
                        == click_normal && r->Ok_0.metronome.click_accent == click_accent
                    &&& r->Ok_0.metronome.voice is None
                    &&& r->Ok_0.pass == Pass::Priming
                    &&& r->Ok_0.consumed == 0
                    &&& r->Ok_0.last_reported == num::<S>(-1i16)
                },
            },
    {
        match check_loop(req.track.channels, req.loop_region, in_chunk) {
            Err(e) => {
                return Err(e);
            },
            Ok(_length) => {},
        }
        let mut eq: crate::dsp::eq::Eq<S> = crate::dsp::eq::Eq::new(
            req.track.channels as usize,
            req.track.sample_rate,
        );
        eq.set_settings(req.eq);
        let mut metronome: Metronome<S> = Metronome::new();
        metronome.set_sample_rate(req.track.sample_rate, click_normal, click_accent);
        metronome.set_anchor(req.loop_region.start);
        if req.include_metronome {
            metronome.set_settings(req.metronome);
        }
        Ok(
            Renderer {
                track: req.track.clone(),
                region: req.loop_region,
                in_chunk,
                eq,
                metronome,
                pass: Pass::Priming,
                consumed: 0,
                last_reported: whole(-1),
            },
        )
    }

    /// Whether this pass has another chunk.
    pub fn wants_chunk(&self) -> (r: bool)
        requires
            self.wf(),
        ensures
            r == (self.pass != Pass::Finished && self.consumed < self.length()),
    {
        self.pass != Pass::Finished && self.consumed < self.region.end - self.region.start
    }

    /// Ends a pass. The result is how far the job is then.
    pub fn end_pass(&mut self) -> (r: S)
        requires
            total_arithmetic::<S>(),
            old(self).wf(),
            old(self).consumed == old(self).length(),
        ensures
            final(self).wf(),
            *final(self) == (Renderer {
                pass: if old(self).pass == Pass::Priming {
                    Pass::Capture
                } else {
                    Pass::Finished
                },
                consumed: if old(self).pass == Pass::Priming {
                    0
                } else {
                    old(self).consumed
                },
                last_reported: num(-1i16),
                ..*old(self)
            }),
            r == old(self).span().1,
    {
        self.last_reported = whole(-1);
        if self.pass == Pass::Priming {
            self.pass = Pass::Capture;
            self.consumed = 0;
            whole::<S>(1) / whole(2)
        } else {
            self.pass = Pass::Finished;
            whole(1)
        }
    }

    /// Of `made` samples that the next chunk gives, how many are this pass's
    /// own. The last chunk of a pass is filled up from the start of the loop,
    /// and only the share of its own frames counts, in whole frames.
    pub open spec fn own_samples(self, made: nat) -> int {
        let channels = self.track.channels as int;
        if self.tail() == self.in_chunk {
            made as int
        } else {
            own_frames(self.tail(), self.in_chunk as int, made as int / channels) * channels
        }
    }

    /// Of `made` samples that a chunk with `tail` frames of its own gives, how
    /// many are this pass's own.
    fn own_part(&self, tail: u64, made: usize) -> (r: usize)
        requires
            self.wf(),
            tail == self.tail(),
        ensures
            r == self.own_samples(made as nat),
            r <= made,
    {
        if tail == self.in_chunk as u64 {
            return made;
        }
        let channels: usize = self.track.channels as usize;
        let frames: usize = made / channels;
        let own: usize = proportional(tail, self.in_chunk as u64, frames);
        proof {
            let (m, ch) = (made as int, channels as int);
            vstd::arithmetic::div_mod::lemma_fundamental_div_mod(m, ch);
            vstd::arithmetic::mul::lemma_mul_inequality(own as int, frames as int, ch);
            vstd::arithmetic::mul::lemma_mul_is_commutative(frames as int, ch);
            vstd::arithmetic::mul::lemma_mul_nonnegative(own as int, ch);
        }
        own * channels
    }

    /// The samples of the next chunk of a pass.
    pub fn read_chunk(&self) -> (r: Vec<S>)
        requires
            self.wf(),
            self.consumed < self.length(),
        ensures
            r@ == self.next_input(),
    {
        let left: u64 = self.region.end - self.region.start - self.consumed;
        let tail: usize = if left < self.in_chunk as u64 {
            left as usize
        } else {
            self.in_chunk
        };
        let samples: usize = self.track.samples.len();
        proof {
            frames_bounded(&*self.track);
            assert(self.track.frames() <= samples);
        }
        let start: usize = self.region.start as usize;
        let cursor: u64 = self.region.start + self.consumed;
        let mut input: Vec<S> = Vec::new();
        append_frames(&mut input, &self.track, cursor as usize, tail);
        append_frames(&mut input, &self.track, start, self.in_chunk - tail);
        assert(input@ =~= self.next_input());
        input
    }

    /// Runs what follows the processor on its output for the next chunk, in
    /// place, and moves on behind the chunk.
    pub fn complete_chunk(&mut self, out: &mut [S], sound: &Sound<S>) -> (r: Rendered<S>)
        requires
            total_arithmetic::<S>(),
            old(self).wf(),
            old(self).pass != Pass::Finished,
            old(self).consumed < old(self).length(),
        ensures
            final(self).wf(),
            final(out)@.len() == old(out)@.len(),
            r.ready == old(self).own_samples(old(out)@.len()),
            r.ready <= old(out)@.len(),
            r.capture == (old(self).pass == Pass::Capture),
            r.progress == old(self).news(old(out)@.len()),
            old(self).finishes(*final(self), old(out)@, final(out)@, *sound),
            old(self).moves_on(*final(self), r.progress),
    {
        let channels: usize = self.track.channels as usize;
        let length: u64 = self.region.end - self.region.start;
        let left: u64 = length - self.consumed;
        let tail: u64 = if left < self.in_chunk as u64 {
            left
        } else {
            self.in_chunk as u64
        };
        let cursor: u64 = self.region.start + self.consumed;
        let made: usize = out.len();
        let ready: usize = self.own_part(tail, made);
        if made > 0 {
            self.eq.process_in_place(out, &sound.tones);
            self.metronome.mix_segment(
                out,
                channels,
                cursor,
                self.in_chunk as u64,
                sound.frames_per_beat,
                sound.click_amp,
            );
        }
        let capture: bool = self.pass == Pass::Capture;
        self.consumed = self.consumed + tail;
        let mut progress: Option<S> = None;
        if made > 0 {
            let overall: S = self.fraction(length);
            if whole::<S>(1) / whole(100) < overall - self.last_reported {
                self.last_reported = overall;
                progress = Some(overall);
            }
        }
        Rendered { ready, capture, progress }
    }

    /// How far the job is after the next chunk, where that is worth telling:
    /// something came out, and it is more than a hundredth since last time.
    pub open spec fn news(self, made: nat) -> Option<S> {
        if made > 0 && lt(
            num::<S>(1).div_spec(num(100)),
            self.overall().sub_spec(self.last_reported),
        ) {
            Some(self.overall())
        } else {
            None
        }
    }

    /// `after` is one chunk further.
    pub open spec fn moves_on(self, after: Renderer<S>, progress: Option<S>) -> bool {
        after == Renderer {
            consumed: (self.consumed + self.tail()) as u64,
            eq: after.eq,
            metronome: after.metronome,
            last_reported: match progress {
                Some(p) => p,
                None => self.last_reported,
            },
            ..self
        }
    }

    /// Renders the next chunk of a pass. The samples are left at the front of
    /// `scratch`.
    pub fn next<D: TimePitchProcessor<S>>(
        &mut self,
        dsp: &mut D,
        sound: &Sound<S>,
        scratch: &mut Vec<S>,
    ) -> (r: Rendered<S>)
        requires
            total_arithmetic::<S>(),
            old(self).wf(),
            old(self).pass != Pass::Finished,
            old(self).consumed < old(self).length(),
            old(dsp).valid(),
            old(dsp).max_output_frames() * old(self).track.channels <= usize::MAX,
        ensures
            final(self).wf(),
            final(dsp).valid(),
            final(dsp).input_frames() == old(dsp).input_frames(),
            final(dsp).max_output_frames() == old(dsp).max_output_frames(),
            r.ready <= final(scratch)@.len(),
            r.capture == (old(self).pass == Pass::Capture),
            old(self).moves_on(*final(self), r.progress),
            exists|raw: Seq<S>|
                {
                    &&& #[trigger] old(dsp).processed(
                        old(self).next_input(),
                        old(dsp).max_output_frames() * old(self).track.channels as nat,
                        old(self).track.channels as usize,
                        final(dsp),
                        raw,
                    )
                    &&& raw.len() <= final(scratch)@.len()
                    &&& old(self).finishes(
                        *final(self),
                        raw,
                        final(scratch)@.take(raw.len() as int),
                        *sound,
                    )
                    &&& r.ready == old(self).own_samples(raw.len())
                    &&& r.progress == old(self).news(raw.len())
                },
    {
        let channels: usize = self.track.channels as usize;
        let input: Vec<S> = self.read_chunk();
        let room: usize = dsp.max_output_frames_per_chunk() * channels;
        grow(scratch, room);
        let (out, _unused) = scratch.as_mut_slice().split_at_mut(room);
        let (_taken, written) = dsp.process(input.as_slice(), out, channels);
        let made: usize = written * channels;
        let (out, _unused) = out.split_at_mut(made);
        let ghost raw = out@;
        let rendered: Rendered<S> = self.complete_chunk(out, sound);
        let ghost played = out@;
        assert(scratch@.take(made as int) =~= played);
        assert(old(dsp).processed(
            old(self).next_input(),
            old(dsp).max_output_frames() * old(self).track.channels as nat,
            old(self).track.channels as usize,
            dsp,
            raw,
        ));
        rendered
    }

    /// How far the whole job is.
    fn fraction(&self, length: u64) -> (r: S)
        requires
            total_arithmetic::<S>(),
        ensures
            ({
                let part = count::<S>(self.consumed as nat).div_spec(count::<S>(length as nat));
                r == blend(self.span(), part)
            }),
    {
        let part: S = count_of::<S>(self.consumed) / count_of(length);
        let middle: S = whole::<S>(1) / whole(2);
        let (lo, hi): (S, S) = if self.pass == Pass::Priming {
            (whole(0), middle)
        } else {
            (middle, whole(1))
        };
        lo + (hi - lo) * part
    }
}

/// How many frames of the loop the first `n` chunks of a pass have consumed.
pub open spec fn consumed_after(length: int, in_chunk: int, n: nat) -> int
    decreases n,
{
    if n == 0 {
        0
    } else {
        let before = consumed_after(length, in_chunk, (n - 1) as nat);
        before + if length - before < in_chunk {
            length - before
        } else {
            in_chunk
        }
    }
}

/// Of `made` frames that a chunk of `in_chunk` frames gives, the share of its
/// first `tail` frames, rounded down.
pub open spec fn own_frames(tail: int, in_chunk: int, made: int) -> int {
    (tail * made) / in_chunk
}

/// How many frames the first `n` chunks of a pass have given, where every
/// chunk of `in_chunk` frames gives `made` of them.
pub open spec fn captured_after(length: int, in_chunk: int, made: int, n: nat) -> int
    decreases n,
{
    if n == 0 {
        0
    } else {
        let m = (n - 1) as nat;
        let left = length - consumed_after(length, in_chunk, m);
        let tail = if left < in_chunk {
            left
        } else {
            in_chunk
        };
        captured_after(length, in_chunk, made, m) + own_frames(tail, in_chunk, made)
    }
}

/// A captured pass lasts as long as the loop does at its speed: with `made`
/// frames for every `in_chunk`, so do the frames of the pass relate to those
/// of the loop, rounded down. At the speed of the track they are the loop's.
pub proof fn a_pass_lasts_one_loop(length: int, in_chunk: int, made: int, n: nat)
    requires
        0 < in_chunk <= length,
        0 <= made,
        n * in_chunk >= length,
    ensures
        captured_after(length, in_chunk, made, n) == (length * made) / in_chunk,
        made == in_chunk ==> captured_after(length, in_chunk, made, n) == length,
{
    captured_so_far(length, in_chunk, made, n);
    a_pass_covers_the_loop(length, in_chunk, n);
    if made == in_chunk {
        vstd::arithmetic::div_mod::lemma_div_multiples_vanish(length, in_chunk);
        vstd::arithmetic::mul::lemma_mul_is_commutative(length, in_chunk);
    }
}

/// All of `ready` added up.
pub open spec fn in_all(ready: Seq<int>) -> int
    decreases ready.len(),
{
    if ready.len() == 0 {
        0
    } else {
        in_all(ready.drop_last()) + ready.last()
    }
}

/// `after` is one chunk further, whatever was told of it.
pub open spec fn leads_to<S: Sample>(before: Renderer<S>, after: Renderer<S>) -> bool {
    exists|progress: Option<S>| #[trigger] before.moves_on(after, progress)
}

/// `states` are those of a rendering from the start of a pass to its end, one
/// chunk from each to the next.
pub open spec fn one_pass<S: Sample>(states: Seq<Renderer<S>>) -> bool {
    &&& states.len() > 0
    &&& states[0].wf()
    &&& states[0].consumed == 0
    &&& forall|k: int|
        0 <= k < states.len() - 1 ==> {
            &&& (#[trigger] states[k]).consumed < states[k].length()
            &&& leads_to(states[k], states[k + 1])
        }
    &&& states.last().consumed == states.last().length()
}

/// The samples of a pass that are ready, chunk by chunk, are as many as the
/// loop lasts at its speed, on every channel: where every chunk of `in_chunk`
/// frames gives `made` frames, so do the frames of the file relate to those of
/// the loop, rounded down. At the speed of the track, every sample of the loop
/// has its place in the file.
pub proof fn files_hold_the_whole_loop<S: Sample>(
    states: Seq<Renderer<S>>,
    made: nat,
    ready: Seq<int>,
)
    requires
        one_pass(states),
        ready.len() == states.len() - 1,
        forall|k: int|
            0 <= k < ready.len() ==> #[trigger] ready[k] == states[k].own_samples(
                made * states[0].track.channels as nat,
            ),
    ensures
        ({
            let r = states[0];
            let ch = r.track.channels as int;
            &&& in_all(ready) == ((r.length() * made) / (r.in_chunk as int)) * ch
            &&& made == r.in_chunk ==> in_all(ready) == r.length() * ch
        }),
        forall|k: int|
            0 <= k < ready.len() ==> #[trigger] ready[k] % (states[0].track.channels as int) == 0,
{
    let r = states[0];
    let n = ready.len();
    ready_so_far(states, made, ready, n);
    assert(ready.take(n as int) =~= ready);
    let length = r.length();
    let in_chunk = r.in_chunk as int;
    a_pass_covers_the_loop(length, in_chunk, n);
    a_pass_lasts_one_loop(length, in_chunk, made as int, n);
    assert forall|k: int| 0 <= k < ready.len() implies #[trigger] ready[k] % (
    states[0].track.channels as int) == 0 by {
        ready_so_far(states, made, ready, k as nat);
        let ch = states[0].track.channels as int;
        vstd::arithmetic::div_mod::lemma_mod_multiples_basic(made as int, ch);
        vstd::arithmetic::div_mod::lemma_mod_multiples_basic(
            own_frames(
                states[k].tail(),
                states[k].in_chunk as int,
                (made * states[0].track.channels as nat) as int / ch,
            ),
            ch,
        );
    }
}

proof fn ready_so_far<S: Sample>(
    states: Seq<Renderer<S>>,
    made: nat,
    ready: Seq<int>,
    n: nat,
)
    requires
        one_pass(states),
        ready.len() == states.len() - 1,
        n <= ready.len(),
        forall|k: int|
            0 <= k < ready.len() ==> #[trigger] ready[k] == states[k].own_samples(
                made * states[0].track.channels as nat,
            ),
    ensures
        ({
            let (r, s) = (states[0], states[n as int]);
            &&& s.track == r.track
            &&& s.region == r.region
            &&& s.in_chunk == r.in_chunk
            &&& s.consumed == consumed_after(r.length(), r.in_chunk as int, n)
            &&& in_all(ready.take(n as int)) == captured_after(
                r.length(),
                r.in_chunk as int,
                made as int,
                n,
            ) * r.track.channels
        }),
    decreases n,
{
    let r = states[0];
    let ch = r.track.channels as int;
    if n > 0 {
        let m = (n - 1) as nat;
        ready_so_far(states, made, ready, m);
        let s = states[m as int];
        let next = states[n as int];
        assert(s.consumed < s.length() && next == states[m as int + 1]);
        assert(leads_to(s, next));
        assert(ready.take(n as int).drop_last() =~= ready.take(m as int));
        let before = captured_after(r.length(), r.in_chunk as int, made as int, m);
        let own = own_frames(s.tail(), r.in_chunk as int, made as int);
        vstd::arithmetic::div_mod::lemma_div_multiples_vanish(made as int, ch);
        vstd::arithmetic::mul::lemma_mul_is_commutative(made as int, ch);
        if s.tail() == s.in_chunk {
            vstd::arithmetic::div_mod::lemma_div_multiples_vanish(made as int, r.in_chunk as int);
        }
        assert(ready[m as int] == own * ch);
        assert(before * ch + own * ch == (before + own) * ch) by (nonlinear_arith);
    }
}

proof fn captured_so_far(length: int, in_chunk: int, made: int, n: nat)
    requires
        0 < in_chunk <= length,
        0 <= made,
    ensures
        captured_after(length, in_chunk, made, n) == (consumed_after(length, in_chunk, n) * made)
            / in_chunk,
    decreases n,
{
    vstd::arithmetic::mul::lemma_mul_basics(made);
    if n == 0 {
        vstd::arithmetic::div_mod::lemma_div_basics(in_chunk);
    } else {
        let m = (n - 1) as nat;
        let before = consumed_after(length, in_chunk, m);
        let after = consumed_after(length, in_chunk, n);
        let tail = after - before;
        captured_so_far(length, in_chunk, made, m);
        a_pass_covers_the_loop(length, in_chunk, m);
        vstd::arithmetic::mul::lemma_mul_is_distributive_add_other_way(made, before, tail);
        if before == length {
            vstd::arithmetic::div_mod::lemma_div_basics(in_chunk);
            assert(own_frames(0, in_chunk, made) == 0);
        } else {
            // Only whole chunks came before this one.
            let whole = m * made;
            assert(before * made == in_chunk * whole) by (nonlinear_arith)
                requires
                    before == m * in_chunk,
                    whole == m * made,
            ;
            vstd::arithmetic::div_mod::lemma_hoist_over_denominator(
                tail * made,
                whole,
                in_chunk as nat,
            );
            vstd::arithmetic::div_mod::lemma_div_multiples_vanish(whole, in_chunk);
            vstd::arithmetic::mul::lemma_mul_is_commutative(whole, in_chunk);
            assert(after * made == tail * made + whole * in_chunk);
            assert(captured_after(length, in_chunk, made, m) == whole);
            assert((after * made) / in_chunk == own_frames(tail, in_chunk, made) + whole);
        }
    }
}

/// A pass goes through every frame of the loop exactly once: after as many
/// chunks as it takes, all of the loop is consumed, and not earlier.
pub proof fn a_pass_covers_the_loop(length: int, in_chunk: int, n: nat)
    requires
        0 < in_chunk <= length,
    ensures
        consumed_after(length, in_chunk, n) == if n * in_chunk <= length {
            n * in_chunk
        } else {
            length
        },
        consumed_after(length, in_chunk, n) == length <==> n * in_chunk >= length,
    decreases n,
{
    if n > 0 {
        a_pass_covers_the_loop(length, in_chunk, (n - 1) as nat);
        vstd::arithmetic::mul::lemma_mul_is_distributive_sub_other_way(in_chunk, n as int, 1);
    } else {
        vstd::arithmetic::mul::lemma_mul_basics(in_chunk);
    }
}

/// However far a pass is, the job is between the start and the end of the
/// pass's half, and at its end once the pass is complete.
pub proof fn progress_stays_in_its_half<S: Sample>(r: Renderer<S>)
    requires
        real_like::<S>(),
        r.wf(),
        counts_rise::<S>(r.length() as nat),
    ensures
        le(r.span().0, r.overall()),
        le(r.overall(), r.span().1),
        r.consumed + r.tail() == r.length() ==> same(r.overall(), r.span().1),
{
    let (lo, hi) = r.span();
    let zero = num::<S>(0);
    let one = num::<S>(1);
    let done = (r.consumed + r.tail()) as nat;
    let part = part_done::<S>(done, r.length() as nat);
    part_is_fraction::<S>(done, r.length() as nat);
    assert(finite(zero) && finite(one));
    span_is_sound(r);
    blend_rises((lo, hi), zero, part);
    blend_rises((lo, hi), part, one);
    if done == r.length() {
        blend_rises((lo, hi), one, part);
    }
}

/// The further a job is, the more it has told: a later chunk of a pass, and
/// any chunk of the second pass after one of the first, tells no less.
pub proof fn progress_never_falls<S: Sample>(a: Renderer<S>, b: Renderer<S>)
    requires
        real_like::<S>(),
        a.wf(),
        b.wf(),
        a.region == b.region,
        a.in_chunk == b.in_chunk,
        counts_rise::<S>(a.length() as nat),
        ({
            ||| a.pass == Pass::Priming && b.pass == Pass::Capture
            ||| a.pass == b.pass && a.consumed <= b.consumed
        }),
    ensures
        le(a.overall(), b.overall()),
{
    progress_stays_in_its_half(a);
    progress_stays_in_its_half(b);
    if a.pass == b.pass {
        let length = a.length() as nat;
        let done_a = (a.consumed + a.tail()) as nat;
        let done_b = (b.consumed + b.tail()) as nat;
        part_is_fraction::<S>(done_a, length);
        part_is_fraction::<S>(done_b, length);
        assert(le(count::<S>(done_a), count::<S>(done_b)));
        assert(lt(num(0), count::<S>(length)));
        assert(le(part_done::<S>(done_a, length), part_done::<S>(done_b, length)));
        span_is_sound(a);
        blend_rises(a.span(), part_done::<S>(done_a, length), part_done::<S>(done_b, length));
    }
}

/// The part of a pass that is done.
spec fn part_done<S: Sample>(done: nat, length: nat) -> S {
    count::<S>(done).div_spec(count::<S>(length))
}

proof fn part_is_fraction<S: Sample>(done: nat, length: nat)
    requires
        real_like::<S>(),
        counts_rise::<S>(length),
        done <= length,
        0 < length,
    ensures
        le(num(0), part_done::<S>(done, length)),
        le(part_done::<S>(done, length), num(1)),
        finite(part_done::<S>(done, length)),
        done == length ==> same(part_done::<S>(done, length), num(1)),
{
    let whole = count::<S>(length);
    assert(count::<S>(0) == num::<S>(0));
    assert(le(count::<S>(0), count::<S>(done)));
    assert(le(count::<S>(done), whole));
    assert(finite(whole) && lt(num(0), whole));
    assert(le(num::<S>(0).div_spec(whole), part_done::<S>(done, length)));
    assert(le(part_done::<S>(done, length), whole.div_spec(whole)));
    assert(same(num::<S>(0).div_spec(whole), num(0)));
    assert(same(whole.div_spec(whole), num(1)));
    assert(finite(num::<S>(0)) && finite(num::<S>(1)));
    assert(le(num(0), part_done::<S>(done, length)));
    assert(le(part_done::<S>(done, length), num(1)));
}

proof fn span_is_sound<S: Sample>(r: Renderer<S>)
    requires
        real_like::<S>(),
    ensures
        ({
            let (lo, hi) = r.span();
            let wide = hi.sub_spec(lo);
            &&& finite(lo)
            &&& finite(wide)
            &&& le(num(0), wide)
            &&& same(blend((lo, hi), num(0)), lo)
            &&& same(blend((lo, hi), num(1)), hi)
        }),
{
    let (lo, hi) = r.span();
    let zero = num::<S>(0);
    let one = num::<S>(1);
    let wide = hi.sub_spec(lo);
    assert(finite(zero) && finite(one));
    if r.pass == Pass::Priming {
        assert(same(wide, half::<S>()));
        assert(le(half::<S>(), wide) && le(wide, half::<S>()));
        assert(finite(wide));
    } else {
        assert(le(wide, one));
        assert(lt(zero, wide));
        assert(le(zero, wide));
        assert(finite(wide));
    }
    // Nothing of the span, and then all of it.
    assert(same(wide.mul_spec(zero), zero));
    assert(le(wide.mul_spec(zero), zero) && le(zero, wide.mul_spec(zero)));
    assert(le(lo.add_spec(wide.mul_spec(zero)), lo.add_spec(zero)));
    assert(le(lo.add_spec(zero), lo.add_spec(wide.mul_spec(zero))));
    assert(same(lo.add_spec(zero), lo));
    assert(same(wide.mul_spec(one), wide));
    assert(le(wide.mul_spec(one), wide) && le(wide, wide.mul_spec(one)));
    assert(le(lo.add_spec(wide.mul_spec(one)), lo.add_spec(wide)));
    assert(le(lo.add_spec(wide), lo.add_spec(wide.mul_spec(one))));
    assert(same(lo.add_spec(wide), hi)) by {
        if r.pass == Pass::Priming {
            assert(same(zero.add_spec(wide), wide));
        }
    }
}

proof fn blend_rises<S: Sample>(span: (S, S), p: S, q: S)
    requires
        real_like::<S>(),
        finite(span.0),
        finite(span.1.sub_spec(span.0)),
        le(num(0), span.1.sub_spec(span.0)),
        finite(p),
        finite(q),
        le(p, q),
    ensures
        le(blend(span, p), blend(span, q)),
{
    let wide = span.1.sub_spec(span.0);
    assert(le(wide.mul_spec(p), wide.mul_spec(q)));
}

/// How a rendering ended, as far as the unfinished file goes.
pub enum RenderOutcome {
    /// The file is complete.
    Done,
    Cancelled,
    Failed { error: String },
}

/// What becomes of the unfinished file.
#[derive(Clone, Copy, Debug, PartialEq, Eq, Structural)]
pub enum FileStep {
    /// It takes the name of the finished one.
    Rename,
    Remove,
}

/// What becomes of the unfinished file: a complete one gets its name, and any
/// other goes.
pub fn file_step(outcome: &RenderOutcome) -> (r: FileStep)
    ensures
        r == match outcome {
            RenderOutcome::Done => FileStep::Rename,
            RenderOutcome::Cancelled => FileStep::Remove,
            RenderOutcome::Failed { .. } => FileStep::Remove,
        },
{
    match outcome {
        RenderOutcome::Done => FileStep::Rename,
        RenderOutcome::Cancelled => FileStep::Remove,
        RenderOutcome::Failed { .. } => FileStep::Remove,
    }
}

/// The last news of a job. `rename_error` says why a complete file could not
/// get its name, if so; it is then left as it is, and the job has failed.
pub fn last_news<S>(
    job_id: u64,
    out_path: String,
    outcome: RenderOutcome,
    rename_error: Option<String>,
) -> (r: RenderProgress<S>)
    ensures
        match (outcome, rename_error) {
            (RenderOutcome::Done, None) => r == (RenderProgress::<S>::Done { job_id, out_path }),
            (RenderOutcome::Done, Some(e)) => {
                &&& r is Failed
                &&& r.job() == job_id
                &&& r->Failed_error@ == "rename failed: "@ + e@
            },
            (RenderOutcome::Cancelled, _) => r == (RenderProgress::<S>::Cancelled { job_id }),
            (RenderOutcome::Failed { error }, _) => r == (RenderProgress::<S>::Failed {
                job_id,
                error,
            }),
        },
{
    match outcome {
        RenderOutcome::Done => match rename_error {
            None => RenderProgress::Done { job_id, out_path },
            Some(e) => {
                let mut error: String = String::from_str("rename failed: ");
                error.append(e.as_str());
                RenderProgress::Failed { job_id, error }
            },
        },
        RenderOutcome::Cancelled => RenderProgress::Cancelled { job_id },
        RenderOutcome::Failed { error } => RenderProgress::Failed { job_id, error },
    }
}

} // verus!
