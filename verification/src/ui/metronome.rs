//! The metronome row: tapping a tempo, and keeping settings in range.

use vstd::prelude::*;
use vstd::std_specs::ops::{AddSpec, DivSpec};

use crate::engine::metronome::{MetronomeSettings, MAX_BPM, MIN_BPM};
use crate::sample::{
    clamp_to, clamped, count, count_of, counts_rise, finite, le, lt, num, real_like, same,
    total_arithmetic, whole, Sample,
};

pub mod laws;

verus! {

/// Taps older than this do not count, in nanoseconds.
pub const STALE_AFTER: u64 = 2_000_000_000;

/// How many of the latest taps count.
pub const MAX_TAPS: usize = 4;

/// What the metronome row asks for.
#[derive(Clone, Copy, Debug, PartialEq, Eq, Structural)]
pub enum MetronomeAction {
    Nothing,
    DetectBpm,
}

/// The latest taps, in nanoseconds, oldest first.
pub struct TapTempo {
    pub taps: Vec<u64>,
}

/// Taps without the old ones at the front.
pub open spec fn fresh(taps: Seq<u64>, now: u64) -> Seq<u64>
    decreases taps.len(),
{
    if taps.len() > 0 && now - taps[0] > STALE_AFTER {
        fresh(taps.drop_first(), now)
    } else {
        taps
    }
}

/// The taps that count once another comes at `now`: the old ones are gone,
/// and of the rest only the latest stay.
pub open spec fn after_tap(taps: Seq<u64>, now: u64) -> Seq<u64> {
    let all = fresh(taps, now).push(now);
    if all.len() > MAX_TAPS {
        all.skip(all.len() - MAX_TAPS)
    } else {
        all
    }
}

/// A span of nanoseconds in seconds.
pub open spec fn seconds<S: Sample>(ns: nat) -> S {
    count::<S>(ns / 1_000_000_000).add_spec(
        count::<S>(ns % 1_000_000_000).div_spec(count::<S>(1_000_000_000)),
    )
}

/// The time from one tap to the next; none if the clock went back.
pub open spec fn interval(taps: Seq<u64>, i: int) -> nat {
    if taps[i + 1] >= taps[i] {
        (taps[i + 1] - taps[i]) as nat
    } else {
        0
    }
}

/// The first `n` intervals added up.
pub open spec fn intervals<S: Sample>(taps: Seq<u64>, n: nat) -> S
    decreases n,
{
    if n == 0 {
        num(0)
    } else {
        intervals::<S>(taps, (n - 1) as nat).add_spec(seconds::<S>(interval(taps, n - 1)))
    }
}

/// The tempo of some taps: that of their average interval, brought into
/// range. Fewer than two, or all at once, make no tempo.
pub open spec fn tapped<S: Sample>(taps: Seq<u64>) -> Option<S> {
    let n = (taps.len() - 1) as nat;
    let mean = intervals::<S>(taps, n).div_spec(count::<S>(n));
    if taps.len() < 2 || le(mean, num(0)) {
        None
    } else {
        Some(clamped(num::<S>(60).div_spec(mean), num(MIN_BPM), num(MAX_BPM)))
    }
}

/// A span of nanoseconds in seconds.
fn to_seconds<S: Sample>(ns: u64) -> (r: S)
    requires
        total_arithmetic::<S>(),
    ensures
        r == seconds::<S>(ns as nat),
{
    count_of::<S>(ns / 1_000_000_000) + count_of::<S>(ns % 1_000_000_000) / count_of(1_000_000_000)
}

impl TapTempo {
    /// No taps yet.
    pub fn new() -> (r: TapTempo)
        ensures
            r.taps@ == Seq::<u64>::empty(),
    {
        TapTempo { taps: Vec::new() }
    }

    /// Records a tap at `now`. The result is the tempo, once there is one.
    pub fn tap<S: Sample>(&mut self, now: u64) -> (r: Option<S>)
        requires
            total_arithmetic::<S>(),
            old(self).taps@.len() < usize::MAX,
        ensures
            final(self).taps@ == after_tap(old(self).taps@, now),
            r == tapped::<S>(final(self).taps@),
    {
        while self.taps.len() > 0 && now.saturating_sub(self.taps[0]) > STALE_AFTER
            invariant
                self.taps@.len() < usize::MAX,
                fresh(self.taps@, now) == fresh(old(self).taps@, now),
            decreases self.taps@.len(),
        {
            let ghost before = self.taps@;
            let _old: u64 = self.taps.remove(0);
            assert(self.taps@ =~= before.drop_first());
        }
        self.taps.push(now);
        let ghost all = self.taps@;
        assert(all == fresh(old(self).taps@, now).push(now));
        assert(all.skip(0) =~= all);
        let ghost mut gone: int = 0;
        while self.taps.len() > MAX_TAPS
            invariant
                0 <= gone <= all.len(),
                self.taps@ == all.skip(gone),
                gone > 0 ==> self.taps@.len() >= MAX_TAPS,
            decreases self.taps@.len(),
        {
            let ghost before = self.taps@;
            let _old: u64 = self.taps.remove(0);
            proof {
                gone = gone + 1;
                assert(self.taps@ =~= all.skip(gone));
            }
        }
        assert(self.taps@ == after_tap(old(self).taps@, now));
        let len: usize = self.taps.len();
        if len < 2 {
            return None;
        }
        let n: usize = len - 1;
        let mut sum: S = whole(0);
        let mut i: usize = 0;
        while i < n
            invariant
                total_arithmetic::<S>(),
                n + 1 == self.taps@.len(),
                i <= n,
                sum == intervals::<S>(self.taps@, i as nat),
            decreases n - i,
        {
            sum = sum + to_seconds::<S>(self.taps[i + 1].saturating_sub(self.taps[i]));
            i = i + 1;
        }
        let mean: S = sum / count_of(n as u64);
        if mean <= whole(0) {
            return None;
        }
        Some(clamp_to(whole::<S>(60) / mean, whole(MIN_BPM), whole(MAX_BPM)))
    }
}

/// However many taps there were, only the latest few count, and none that is
/// stale.
pub proof fn only_recent_taps_count(taps: Seq<u64>, now: u64)
    requires
        forall|i: int, j: int|
            0 <= i <= j < taps.len() ==> #[trigger] taps[i] <= #[trigger] taps[j],
        forall|i: int| 0 <= i < taps.len() ==> #[trigger] taps[i] <= now,
    ensures
        1 <= after_tap(taps, now).len() <= MAX_TAPS,
        after_tap(taps, now).last() == now,
        forall|i: int|
            0 <= i < after_tap(taps, now).len() ==> now - #[trigger] after_tap(taps, now)[i]
                <= STALE_AFTER,
{
    fresh_is_recent(taps, now);
}

proof fn fresh_is_recent(taps: Seq<u64>, now: u64)
    requires
        forall|i: int, j: int|
            0 <= i <= j < taps.len() ==> #[trigger] taps[i] <= #[trigger] taps[j],
        forall|i: int| 0 <= i < taps.len() ==> #[trigger] taps[i] <= now,
    ensures
        forall|i: int|
            0 <= i < fresh(taps, now).len() ==> now - #[trigger] fresh(taps, now)[i] <= STALE_AFTER,
    decreases taps.len(),
{
    if taps.len() > 0 {
        if now - taps[0] > STALE_AFTER {
            let rest = taps.drop_first();
            assert forall|i: int, j: int| 0 <= i <= j < rest.len() implies #[trigger] rest[i]
                <= #[trigger] rest[j] by {
                assert(taps[i + 1] <= taps[j + 1]);
            }
            fresh_is_recent(rest, now);
            assert(fresh(taps, now) == fresh(rest, now));
        } else {
            assert(fresh(taps, now) == taps);
            assert forall|i: int| 0 <= i < taps.len() implies now - #[trigger] taps[i]
                <= STALE_AFTER by {
                assert(taps[0] <= taps[i]);
            }
        }
    } else {
        assert(fresh(taps, now).len() == 0);
    }
}

/// Brings a tempo that was typed in into range.
pub fn clamp_settings<S: Sample>(settings: &mut MetronomeSettings<S>)
    requires
        total_arithmetic::<S>(),
    ensures
        *final(settings) == (MetronomeSettings {
            bpm: clamped(old(settings).bpm, num(MIN_BPM), num(MAX_BPM)),
            ..*old(settings)
        }),
{
    settings.bpm = clamp_to(settings.bpm, whole(MIN_BPM), whole(MAX_BPM));
}

/// The taps that are kept of a whole history of them, from the first one on.
pub open spec fn kept(history: Seq<u64>) -> Seq<u64>
    decreases history.len(),
{
    if history.len() == 0 {
        history
    } else {
        after_tap(kept(history.drop_last()), history.last())
    }
}

/// Times that never go back.
pub open spec fn in_time(history: Seq<u64>) -> bool {
    forall|i: int, j: int|
        0 <= i <= j < history.len() ==> #[trigger] history[i] <= #[trigger] history[j]
}

/// Whether tap `i` is among the latest few, and not stale.
pub open spec fn counts_now(history: Seq<u64>, i: int) -> bool {
    i + MAX_TAPS >= history.len() && history.last() - history[i] <= STALE_AFTER
}

/// Those taps that count are the ones among the last four that are at most two
/// seconds old, in their order.
proof fn a_tempo_is_of_the_latest_taps(history: Seq<u64>) -> (start: int)
    requires
        history.len() > 0,
        in_time(history),
    ensures
        0 <= start < history.len(),
        kept(history) == history.skip(start),
        forall|i: int|
            0 <= i < history.len() ==> (#[trigger] counts_now(history, i) <==> start <= i),
    decreases history.len(),
{
    let n = history.len() as int;
    let now = history.last();
    let before = history.drop_last();
    let mut from: int = 0;
    if before.len() > 0 {
        assert forall|i: int, j: int| 0 <= i <= j < before.len() implies #[trigger] before[i]
            <= #[trigger] before[j] by {
            assert(history[i] <= history[j]);
        }
        from = a_tempo_is_of_the_latest_taps(before);
    } else {
        assert(kept(before) =~= before.skip(0));
    }
    let old = before.skip(from);
    let gone = fresh_drops(old, now);
    let fresh_from = from + gone;
    let all = fresh(old, now).push(now);
    assert(all =~= history.skip(fresh_from));
    let start = if all.len() > MAX_TAPS {
        n - MAX_TAPS
    } else {
        fresh_from
    };
    assert(kept(history) =~= history.skip(start));
    assert forall|i: int| 0 <= i < n implies (#[trigger] counts_now(history, i) <==> start
        <= i) by {
        assert(history[i] <= now);
        if i < n - 1 {
            assert(before[i] == history[i]);
            assert(counts_now(before, i) <==> from <= i);
            assert(before.last() == history[n - 2]);
            assert(history[n - 2] <= now);
            if from <= i {
                assert(old[i - from] == history[i]);
                if i < fresh_from {
                    assert(now - old[i - from] > STALE_AFTER);
                } else {
                    assert(history[fresh_from] <= history[i]);
                    assert(old[gone] == history[fresh_from]);
                }
            }
        }
    }
    start
}

/// How many taps at the front are stale.
proof fn fresh_drops(taps: Seq<u64>, now: u64) -> (k: int)
    ensures
        0 <= k <= taps.len(),
        fresh(taps, now) == taps.skip(k),
        forall|i: int| 0 <= i < k ==> now - #[trigger] taps[i] > STALE_AFTER,
        k < taps.len() ==> now - taps[k] <= STALE_AFTER,
    decreases taps.len(),
{
    if taps.len() > 0 && now - taps[0] > STALE_AFTER {
        let rest = taps.drop_first();
        let k = fresh_drops(rest, now);
        assert(rest.skip(k) =~= taps.skip(k + 1));
        assert forall|i: int| 0 <= i < k + 1 implies now - #[trigger] taps[i] > STALE_AFTER by {
            if i > 0 {
                assert(rest[i - 1] == taps[i]);
            }
        }
        if k + 1 < taps.len() {
            assert(rest[k] == taps[k + 1]);
        }
        k + 1
    } else {
        assert(taps.skip(0) =~= taps);
        0
    }
}

/// The number type tells even the shortest time from none, also when it is
/// shared between the intervals of a few taps.
pub open spec fn tells_time<S: Sample>() -> bool {
    &&& counts_rise::<S>(MAX_TAPS as nat)
    &&& same(seconds::<S>(0), num(0))
    &&& forall|ns: nat|
        ns <= STALE_AFTER ==> finite(#[trigger] seconds::<S>(ns)) && le(num(0), seconds::<S>(ns))
    &&& forall|ns: nat, n: nat|
        0 < ns <= STALE_AFTER && 0 < n <= MAX_TAPS ==> lt(
            num(0),
            #[trigger] seconds::<S>(ns).div_spec(#[trigger] count::<S>(n)),
        )
}

/// Taps that count make no tempo exactly where there is but one of them, or
/// all came at one instant.
proof fn only_one_instant_makes_no_tempo<S: Sample>(taps: Seq<u64>)
    requires
        real_like::<S>(),
        tells_time::<S>(),
        in_time(taps),
        0 < taps.len() <= MAX_TAPS,
        taps.last() - taps[0] <= STALE_AFTER,
    ensures
        tapped::<S>(taps) is None <==> taps.len() == 1 || taps[0] == taps.last(),
{
    if taps.len() > 1 {
        let n = (taps.len() - 1) as nat;
        let zero = num::<S>(0);
        let sum = intervals::<S>(taps, n);
        let whole = count::<S>(n);
        let mean = sum.div_spec(whole);
        assert(finite(zero));
        assert(finite(whole) && lt(zero, whole));
        assert(same(zero.div_spec(whole), zero));
        if taps[0] == taps.last() {
            no_time_adds_up::<S>(taps, n);
            assert(le(mean, zero.div_spec(whole)));
        } else {
            let i = a_gap(taps, n as int);
            gaps_add_up::<S>(taps, n, i);
            let gap = interval(taps, i);
            assert(taps[0] <= taps[i] && taps[i + 1] <= taps.last());
            assert(lt(zero, seconds::<S>(gap).div_spec(whole)));
            assert(le(seconds::<S>(gap).div_spec(whole), mean));
        }
    }
}

/// Where time went by, there is an interval in which it did.
proof fn a_gap(taps: Seq<u64>, n: int) -> (i: int)
    requires
        in_time(taps),
        0 < n < taps.len(),
        taps[0] < taps[n],
    ensures
        0 <= i < n,
        interval(taps, i) > 0,
    decreases n,
{
    if taps[n - 1] < taps[n] {
        n - 1
    } else {
        assert(taps[n - 1] <= taps[n]);
        a_gap(taps, n - 1)
    }
}

proof fn no_time_adds_up<S: Sample>(taps: Seq<u64>, n: nat)
    requires
        real_like::<S>(),
        tells_time::<S>(),
        in_time(taps),
        n < taps.len(),
        taps[0] == taps.last(),
    ensures
        same(intervals::<S>(taps, n), num(0)),
    decreases n,
{
    let zero = num::<S>(0);
    assert(finite(zero));
    if n > 0 {
        no_time_adds_up::<S>(taps, (n - 1) as nat);
        assert(taps[0] <= taps[n - 1] && taps[n as int] <= taps.last());
        assert(taps[n - 1] <= taps[n as int]);
        let sum = intervals::<S>(taps, (n - 1) as nat);
        let none = seconds::<S>(0);
        assert(interval(taps, n - 1) == 0);
        assert(finite(none));
        assert(le(sum, zero) && le(zero, sum));
        assert(le(sum.add_spec(none), zero.add_spec(none)));
        assert(le(zero.add_spec(none), sum.add_spec(none)));
        assert(same(zero.add_spec(none), none));
    }
}

proof fn gaps_add_up<S: Sample>(taps: Seq<u64>, n: nat, i: int)
    requires
        real_like::<S>(),
        tells_time::<S>(),
        in_time(taps),
        n < taps.len(),
        taps.last() - taps[0] <= STALE_AFTER,
    ensures
        le(num(0), intervals::<S>(taps, n)),
        0 <= i < n ==> le(seconds::<S>(interval(taps, i)), intervals::<S>(taps, n)),
    decreases n,
{
    if n > 0 {
        gaps_add_up::<S>(taps, (n - 1) as nat, i);
        assert(taps[0] <= taps[n - 1] && taps[n as int] <= taps.last());
        let sum = intervals::<S>(taps, (n - 1) as nat);
        let gap = seconds::<S>(interval(taps, n - 1));
        assert(le(num(0), gap));
        assert(le(sum, sum.add_spec(gap)) && le(gap, sum.add_spec(gap)));
    } else {
        assert(finite(num::<S>(0)));
    }
}

/// What a whole history of taps makes, from the first one on. Those of the
/// last four taps that are at most two seconds old count, in their order.
/// They make no tempo exactly where there is but one of them, or all came at
/// one instant; otherwise it is that of their average interval, brought into
/// range.
pub proof fn a_history_of_taps<S: Sample>(history: Seq<u64>) -> (start: int)
    requires
        real_like::<S>(),
        tells_time::<S>(),
        history.len() > 0,
        in_time(history),
    ensures
        0 <= start < history.len(),
        kept(history) == history.skip(start),
        forall|i: int|
            0 <= i < history.len() ==> (#[trigger] counts_now(history, i) <==> start <= i),
        ({
            let taps = kept(history);
            let n = (taps.len() - 1) as nat;
            let mean = intervals::<S>(taps, n).div_spec(count::<S>(n));
            tapped::<S>(taps) == if taps.len() == 1 || taps[0] == taps.last() {
                None
            } else {
                Some(clamped(num::<S>(60).div_spec(mean), num(MIN_BPM), num(MAX_BPM)))
            }
        }),
{
    let start = a_tempo_is_of_the_latest_taps(history);
    let taps = kept(history);
    assert(counts_now(history, start));
    assert(taps[0] == history[start] && taps.last() == history.last());
    assert forall|i: int, j: int| 0 <= i <= j < taps.len() implies #[trigger] taps[i]
        <= #[trigger] taps[j] by {
        assert(history[start + i] <= history[start + j]);
    }
    only_one_instant_makes_no_tempo::<S>(taps);
    start
}

} // verus!
