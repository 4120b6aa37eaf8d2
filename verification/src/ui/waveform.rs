//! The waveform: which part of the track is in view, and what pointing at it
//! means.

use vstd::prelude::*;

use crate::sample::{le, num, order_laws, same, total_arithmetic, whole, Sample};
use crate::track::peaks::{
    all_defined, extremes, extremes_bound_and_occur, highest, lowest, TrackPeaks,
};
use crate::track::{region_between, LoopRegion};

verus! {

/// The shortest stretch of the track that can fill the view, in frames.
pub const MIN_VIEW_LEN: u64 = 64;

/// The part of the track that is in view.
#[derive(Clone, Copy, Debug, PartialEq, Eq, Structural)]
pub struct WaveformView {
    /// The leftmost frame.
    pub start: u64,
    /// How many frames are in view.
    pub len: u64,
}

/// The longest stretch that can be in view.
pub open spec fn whole_len(total_frames: u64) -> u64 {
    if total_frames < MIN_VIEW_LEN {
        MIN_VIEW_LEN
    } else {
        total_frames
    }
}

impl WaveformView {
    /// The view is neither too short nor reaches past the end.
    pub open spec fn fits(self, total_frames: u64) -> bool {
        &&& MIN_VIEW_LEN <= self.len
        &&& self.start + self.len <= whole_len(total_frames)
    }

    /// The frame after the last one in view.
    pub open spec fn end_spec(self) -> u64 {
        if self.start + self.len > u64::MAX {
            u64::MAX
        } else {
            (self.start + self.len) as u64
        }
    }

    /// Whether a frame is in view.
    pub open spec fn shows(self, frame: u64) -> bool {
        self.start <= frame <= self.end_spec()
    }

    /// The whole track.
    pub fn full(total_frames: u64) -> (r: WaveformView)
        ensures
            r == (WaveformView { start: 0, len: whole_len(total_frames) }),
            r.fits(total_frames),
    {
        WaveformView {
            start: 0,
            len: if total_frames < MIN_VIEW_LEN {
                MIN_VIEW_LEN
            } else {
                total_frames
            },
        }
    }

    /// The frame after the last one in view.
    pub fn end(&self) -> (r: u64)
        ensures
            r == self.end_spec(),
    {
        self.start.saturating_add(self.len)
    }
}

/// What the user did to the waveform.
#[derive(Clone, Copy, Debug, PartialEq, Eq, Structural)]
pub enum WaveformAction {
    Nothing,
    Seek(u64),
    SetLoop(LoopRegion),
}

/// The last frame that the view can start at.
pub open spec fn last_start(view: WaveformView, total_frames: u64) -> int {
    if total_frames > view.len {
        total_frames - view.len
    } else {
        0
    }
}

/// A number brought into `0..=hi`.
pub open spec fn within(x: int, hi: int) -> int {
    if x < 0 {
        0
    } else if x > hi {
        hi
    } else {
        x
    }
}

/// Moves the view by `delta` frames, as far as the track goes.
pub fn pan_by(view: &mut WaveformView, total_frames: u64, delta: i64)
    ensures
        *final(view) == (WaveformView {
            start: within(old(view).start + delta, last_start(*old(view), total_frames)) as u64,
            ..*old(view)
        }),
        old(view).fits(total_frames) ==> final(view).fits(total_frames),
{
    let max_start: u64 = total_frames.saturating_sub(view.len);
    let wanted: i128 = view.start as i128 + delta as i128;
    view.start = if wanted < 0 {
        0
    } else if wanted > max_start as i128 {
        max_start
    } else {
        wanted as u64
    };
}

/// The length nearest to `wanted` that the view can have.
pub open spec fn possible_len(wanted: u64, total_frames: u64) -> u64 {
    if wanted < MIN_VIEW_LEN {
        MIN_VIEW_LEN
    } else if wanted > whole_len(total_frames) {
        whole_len(total_frames)
    } else {
        wanted
    }
}

/// The length nearest to `wanted` that the view can have.
pub fn zoomed_len(wanted: u64, total_frames: u64) -> (r: u64)
    ensures
        r == possible_len(wanted, total_frames),
        MIN_VIEW_LEN <= r <= whole_len(total_frames),
{
    let total: u64 = if total_frames < MIN_VIEW_LEN {
        MIN_VIEW_LEN
    } else {
        total_frames
    };
    if wanted < MIN_VIEW_LEN {
        MIN_VIEW_LEN
    } else if wanted > total {
        total
    } else {
        wanted
    }
}

/// Shows `wanted_len` frames from `wanted_start` on, or as nearly so as the
/// track allows.
pub fn zoom_to(view: &mut WaveformView, total_frames: u64, wanted_len: u64, wanted_start: u64)
    ensures
        final(view).len == possible_len(wanted_len, total_frames),
        final(view).start == within(
            wanted_start as int,
            whole_len(total_frames) - final(view).len,
        ),
        final(view).fits(total_frames),
{
    let len: u64 = zoomed_len(wanted_len, total_frames);
    let total: u64 = if total_frames < MIN_VIEW_LEN {
        MIN_VIEW_LEN
    } else {
        total_frames
    };
    let room: u64 = total - len;
    view.start = if wanted_start > room {
        room
    } else {
        wanted_start
    };
    view.len = len;
}

/// The view after the playhead moved to `position`: where it is out of view,
/// a new page starts at it, or as late as the track allows.
pub open spec fn followed(view: WaveformView, total_frames: u64, position: u64) -> WaveformView {
    if total_frames == 0 || view.len == 0 || view.shows(position) {
        view
    } else {
        WaveformView {
            start: if position < last_start(view, total_frames) {
                position
            } else {
                last_start(view, total_frames) as u64
            },
            ..view
        }
    }
}

/// Turns the page where the playhead is out of view.
pub fn follow_playhead(view: &mut WaveformView, total_frames: u64, position: u64)
    ensures
        *final(view) == followed(*old(view), total_frames, position),
{
    if total_frames == 0 || view.len == 0 {
        return ;
    }
    if position >= view.start && position <= view.end() {
        return ;
    }
    let max_start: u64 = total_frames.saturating_sub(view.len);
    view.start = if position < max_start {
        position
    } else {
        max_start
    };
}

/// Following brings every frame of the track into view, and keeps the view
/// within the track.
pub proof fn following_shows_the_playhead(view: WaveformView, total_frames: u64, position: u64)
    requires
        view.fits(total_frames),
        0 < total_frames,
        position <= total_frames,
    ensures
        followed(view, total_frames, position).shows(position),
        followed(view, total_frames, position).fits(total_frames),
{
}

/// A frame of the track: `frame`, or the end where it lies beyond.
pub fn frame_within(frame: u64, total_frames: u64) -> (r: u64)
    ensures
        r == if frame < total_frames {
            frame
        } else {
            total_frames
        },
{
    if frame < total_frames {
        frame
    } else {
        total_frames
    }
}

/// What a press at one frame and a release at another mean: the loop between
/// them, whichever comes first.
pub fn drag_region(from: u64, to: u64) -> (r: Option<LoopRegion>)
    ensures
        r == region_between(from, to),
        r matches Some(l) ==> l.proper(),
{
    if from < to {
        Some(LoopRegion { start: from, end: to })
    } else if to < from {
        Some(LoopRegion { start: to, end: from })
    } else {
        None
    }
}

/// Which of a drag's end and a click counts: the drag, if it made a loop.
pub open spec fn resolved(drag: Option<(u64, u64)>, click: Option<u64>) -> WaveformAction {
    match drag {
        Some((from, to)) if from != to => WaveformAction::SetLoop(region_between(from, to)->0),
        _ => match click {
            Some(frame) => WaveformAction::Seek(frame),
            None => WaveformAction::Nothing,
        },
    }
}

/// Which of a drag's end and a click counts. A drag that is over is given by
/// where it began and ended.
pub fn resolve_action(drag: Option<(u64, u64)>, click: Option<u64>) -> (r: WaveformAction)
    ensures
        r == resolved(drag, click),
{
    if let Some((from, to)) = drag {
        if let Some(region) = drag_region(from, to) {
            return WaveformAction::SetLoop(region);
        }
    }
    match click {
        Some(frame) => WaveformAction::Seek(frame),
        None => WaveformAction::Nothing,
    }
}

/// The extremes of the buckets that one column of the picture stands for.
/// `from` and `to` are where it begins and ends; it stands for at least one
/// bucket, and for none past the end. The column always reaches the middle
/// line, so silence counts with them.
pub fn column_extremes<S: Sample>(peaks: &TrackPeaks<S>, from: usize, to: usize) -> (r: Option<
    (S, S),
>)
    requires
        total_arithmetic::<S>(),
        peaks.min@.len() == peaks.max@.len(),
    ensures
        ({
            let n = peaks.min@.len();
            let last = if to <= from {
                from + 1
            } else {
                to as int
            };
            let end = if last < n {
                last
            } else {
                n as int
            };
            if from >= n {
                r is None
            } else {
                r == Some(
                    (
                        lowest(num::<S>(0), peaks.min@.subrange(from as int, end)),
                        highest(num::<S>(0), peaks.max@.subrange(from as int, end)),
                    ),
                )
            }
        }),
        r is Some && order_laws::<S>() && same(num::<S>(0), num(0)) && all_defined(peaks.min@)
            && all_defined(peaks.max@) ==> just_covers(
            *peaks,
            from as int,
            if from < to && to <= peaks.min@.len() {
                to as int
            } else if from < to {
                peaks.min@.len() as int
            } else {
                from + 1
            },
            r->0,
        ),
{
    let n: usize = peaks.len();
    if from >= n {
        return None;
    }
    let last: usize = if to <= from {
        from + 1
    } else {
        to
    };
    let end: usize = if last < n {
        last
    } else {
        n
    };
    let (lo, _) = extremes(whole(0), &peaks.min, from, end);
    let (_, hi) = extremes(whole(0), &peaks.max, from, end);
    proof {
        if order_laws::<S>() && same(num::<S>(0), num(0)) && all_defined(peaks.min@) && all_defined(
            peaks.max@,
        ) {
            columns_cover_their_buckets(*peaks, from as int, end as int, (lo, hi));
        }
    }
    Some((lo, hi))
}

/// `r` reaches over the middle line and over all of the buckets from `from` up
/// to `end`, and no further than one of them does.
pub open spec fn just_covers<S: Sample>(
    peaks: TrackPeaks<S>,
    from: int,
    end: int,
    r: (S, S),
) -> bool {
    &&& le(r.0, num(0))
    &&& le(num(0), r.1)
    &&& forall|b: int| from <= b < end ==> le(r.0, #[trigger] peaks.min@[b])
    &&& forall|b: int| from <= b < end ==> le(#[trigger] peaks.max@[b], r.1)
    &&& r.0 == num::<S>(0) || exists|b: int| from <= b < end && r.0 == #[trigger] peaks.min@[b]
    &&& r.1 == num::<S>(0) || exists|b: int| from <= b < end && r.1 == #[trigger] peaks.max@[b]
}

/// A column reaches from its lowest to its highest bucket, and over the middle
/// line: nothing of what it stands for sticks out, and it is no taller than
/// that takes.
pub proof fn columns_cover_their_buckets<S: Sample>(
    peaks: TrackPeaks<S>,
    from: int,
    end: int,
    r: (S, S),
)
    requires
        order_laws::<S>(),
        same(num::<S>(0), num::<S>(0)),
        0 <= from < end <= peaks.min@.len(),
        peaks.min@.len() == peaks.max@.len(),
        all_defined(peaks.min@),
        all_defined(peaks.max@),
        r.0 == lowest(num::<S>(0), peaks.min@.subrange(from, end)),
        r.1 == highest(num::<S>(0), peaks.max@.subrange(from, end)),
    ensures
        just_covers(peaks, from, end, r),
{
    let lows = peaks.min@.subrange(from, end);
    let highs = peaks.max@.subrange(from, end);
    assert(all_defined(lows) && all_defined(highs));
    extremes_bound_and_occur(num::<S>(0), lows);
    extremes_bound_and_occur(num::<S>(0), highs);
    assert forall|b: int| from <= b < end implies le(r.0, #[trigger] peaks.min@[b]) by {
        assert(lows[b - from] == peaks.min@[b]);
    }
    assert forall|b: int| from <= b < end implies le(#[trigger] peaks.max@[b], r.1) by {
        assert(highs[b - from] == peaks.max@[b]);
    }
    if lows.contains(r.0) {
        let i = lows.index_of(r.0);
        assert(peaks.min@[from + i] == r.0);
    }
    if highs.contains(r.1) {
        let i = highs.index_of(r.1);
        assert(peaks.max@[from + i] == r.1);
    }
}

} // verus!
