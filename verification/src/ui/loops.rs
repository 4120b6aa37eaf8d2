//! Loops: the one that plays, and those that were saved.

use vstd::prelude::*;

use crate::track::{region_between, LoopRegion, NamedLoop};
use crate::ui::shortcuts::LoopEndpoint;

verus! {

/// How many loops can be saved.
pub const MAX_SLOTS: usize = 9;

/// What the loops panel asks for.
#[derive(Clone, Copy, Debug, PartialEq, Eq, Structural)]
pub enum LoopsAction {
    Nothing,
    /// Play a saved loop.
    Activate(usize),
    /// Remove a saved loop. If it is the one that plays, nothing is looped
    /// any more.
    Delete(usize),
    /// Save the loop that plays.
    SaveCurrent,
}

/// What the engine is to be told.
#[derive(Clone, Copy, Debug, PartialEq, Eq, Structural)]
pub enum LoopNews {
    Nothing,
    SetLoop(Option<LoopRegion>),
}

/// The loop that plays, the saved ones, and half of one that is being
/// defined.
pub struct LoopDeck {
    pub loop_region: Option<LoopRegion>,
    pub loops: Vec<NamedLoop>,
    /// The saved loop that plays, if it is a saved one.
    pub active_loop: Option<usize>,
    pub pending_loop: Option<LoopEndpoint>,
}

/// `l` with other ends.
pub open spec fn moved(l: NamedLoop, region: LoopRegion) -> NamedLoop {
    NamedLoop { start: region.start, end: region.end, ..l }
}

/// Two ends of a loop, where a new end makes up one: with the loop that plays,
/// or with the half that is waiting.
pub open spec fn ends(
    region: Option<LoopRegion>,
    pending: Option<LoopEndpoint>,
    new: LoopEndpoint,
) -> Option<(u64, u64)> {
    match (region, pending, new) {
        (Some(l), _, LoopEndpoint::Start(s)) => Some((s, l.end)),
        (Some(l), _, LoopEndpoint::End(e)) => Some((l.start, e)),
        (None, Some(LoopEndpoint::End(e)), LoopEndpoint::Start(s)) => Some((s, e)),
        (None, Some(LoopEndpoint::Start(s)), LoopEndpoint::End(e)) => Some((s, e)),
        _ => None,
    }
}

impl LoopDeck {
    /// A saved loop that plays is there, and is what plays.
    pub open spec fn wf(self) -> bool {
        match self.active_loop {
            Some(i) => i < self.loops@.len() && self.loop_region == Some(
                self.loops@[i as int].region_spec(),
            ),
            None => true,
        }
    }

    /// Nothing plays, and nothing is saved.
    pub fn new() -> (r: LoopDeck)
        ensures
            r.wf(),
            r.loop_region is None,
            r.loops@.len() == 0,
            r.active_loop is None,
            r.pending_loop is None,
    {
        LoopDeck { loop_region: None, loops: Vec::new(), active_loop: None, pending_loop: None }
    }

    /// Does what the loops panel asks for.
    pub fn act(&mut self, action: LoopsAction) -> (r: LoopNews)
        requires
            old(self).wf(),
        ensures
            final(self).wf(),
            match action {
                LoopsAction::Nothing => r == LoopNews::Nothing && *final(self) == *old(self),
                LoopsAction::Activate(i) => if i < old(self).loops@.len() {
                    let region = old(self).loops@[i as int].region_spec();
                    &&& r == LoopNews::SetLoop(Some(region))
                    &&& final(self).loop_region == Some(region)
                    &&& final(self).active_loop == Some(i)
                    &&& final(self).pending_loop is None
                    &&& final(self).loops@ == old(self).loops@
                } else {
                    r == LoopNews::Nothing && *final(self) == *old(self)
                },
                LoopsAction::Delete(i) => if i < old(self).loops@.len() {
                    let was_active = old(self).active_loop == Some(i);
                    &&& final(self).loops@ == old(self).loops@.remove(i as int)
                    &&& final(self).active_loop == match old(self).active_loop {
                        Some(a) => if a == i {
                            None
                        } else if a > i {
                            Some((a - 1) as usize)
                        } else {
                            Some(a)
                        },
                        None => None,
                    }
                    &&& r == if was_active {
                        LoopNews::SetLoop(None)
                    } else {
                        LoopNews::Nothing
                    }
                    &&& final(self).loop_region == if was_active {
                        None
                    } else {
                        old(self).loop_region
                    }
                    &&& final(self).pending_loop == old(self).pending_loop
                } else {
                    r == LoopNews::Nothing && *final(self) == *old(self)
                },
                LoopsAction::SaveCurrent => {
                    &&& r == LoopNews::Nothing
                    &&& final(self).loop_region == old(self).loop_region
                    &&& final(self).pending_loop == old(self).pending_loop
                    &&& if old(self).loop_region is Some && old(self).loops@.len() < MAX_SLOTS {
                        let n = old(self).loops@.len();
                        &&& final(self).loops@.len() == n + 1
                        &&& final(self).loops@.drop_last() == old(self).loops@
                        &&& final(self).loops@[n as int].region_spec() == old(
                            self).loop_region->0
                        &&& final(self).loops@[n as int].label@ == Seq::<char>::empty()
                        &&& final(self).active_loop == Some(n as usize)
                    } else {
                        *final(self) == *old(self)
                    }
                },
            },
            old(self).loops@.len() <= MAX_SLOTS ==> final(self).loops@.len() <= MAX_SLOTS,
    {
        match action {
            LoopsAction::Nothing => LoopNews::Nothing,
            LoopsAction::Activate(i) => {
                if i >= self.loops.len() {
                    return LoopNews::Nothing;
                }
                let region: LoopRegion = self.loops[i].region();
                self.loop_region = Some(region);
                self.active_loop = Some(i);
                self.pending_loop = None;
                LoopNews::SetLoop(Some(region))
            },
            LoopsAction::Delete(i) => {
                if i >= self.loops.len() {
                    return LoopNews::Nothing;
                }
                let _gone: NamedLoop = self.loops.remove(i);
                match self.active_loop {
                    Some(a) => if a == i {
                        self.active_loop = None;
                        self.loop_region = None;
                        return LoopNews::SetLoop(None);
                    } else if a > i {
                        self.active_loop = Some(a - 1);
                    },
                    None => {},
                }
                LoopNews::Nothing
            },
            LoopsAction::SaveCurrent => {
                if let Some(region) = self.loop_region {
                    if self.loops.len() < MAX_SLOTS {
                        let n: usize = self.loops.len();
                        self.loops.push(
                            NamedLoop {
                                start: region.start,
                                end: region.end,
                                label: String::new(),
                            },
                        );
                        self.active_loop = Some(n);
                        assert(self.loops@.drop_last() =~= old(self).loops@);
                    }
                }
                LoopNews::Nothing
            },
        }
    }

    /// A loop was drawn on the waveform. It plays, and is none of the saved
    /// ones.
    pub fn draw(&mut self, region: LoopRegion) -> (r: LoopNews)
        requires
            old(self).wf(),
        ensures
            final(self).wf(),
            r == LoopNews::SetLoop(Some(region)),
            *final(self) == (LoopDeck {
                loop_region: Some(region),
                active_loop: None,
                ..*old(self)
            }),
    {
        self.loop_region = Some(region);
        self.active_loop = None;
        LoopNews::SetLoop(Some(region))
    }

    /// Nothing is looped any more, and nothing half defined.
    pub fn clear(&mut self) -> (r: LoopNews)
        requires
            old(self).wf(),
        ensures
            final(self).wf(),
            r == if old(self).loop_region is Some {
                LoopNews::SetLoop(None)
            } else {
                LoopNews::Nothing
            },
            *final(self) == (LoopDeck {
                loop_region: None,
                active_loop: None,
                pending_loop: None,
                ..*old(self)
            }),
    {
        let news: LoopNews = if self.loop_region.is_some() {
            LoopNews::SetLoop(None)
        } else {
            LoopNews::Nothing
        };
        self.loop_region = None;
        self.active_loop = None;
        self.pending_loop = None;
        news
    }

    /// Takes one end of a loop. While a loop plays, it moves that end of it,
    /// and of the saved loop that it is. Otherwise it makes a loop with the
    /// other end, if that is waiting, or waits for it. Ends in the wrong
    /// order are swapped; two at the same frame make no loop.
    pub fn apply_endpoint(&mut self, new: LoopEndpoint) -> (r: LoopNews)
        requires
            old(self).wf(),
        ensures
            final(self).wf(),
            match ends(old(self).loop_region, old(self).pending_loop, new) {
                None => r == LoopNews::Nothing && *final(self) == (LoopDeck {
                    pending_loop: Some(new),
                    ..*old(self)
                }),
                Some((a, b)) => match region_between(a, b) {
                    None => r == LoopNews::Nothing && *final(self) == *old(self),
                    Some(region) => {
                        &&& r == LoopNews::SetLoop(Some(region))
                        &&& final(self).loop_region == Some(region)
                        &&& final(self).pending_loop is None
                        &&& final(self).active_loop == old(self).active_loop
                        &&& final(self).loops@ == match old(self).active_loop {
                            Some(i) => old(self).loops@.update(
                                i as int,
                                moved(old(self).loops@[i as int], region),
                            ),
                            None => old(self).loops@,
                        }
                    },
                },
            },
    {
        let pair: Option<(u64, u64)> = match (self.loop_region, self.pending_loop, new) {
            (Some(l), _, LoopEndpoint::Start(s)) => Some((s, l.end)),
            (Some(l), _, LoopEndpoint::End(e)) => Some((l.start, e)),
            (None, Some(LoopEndpoint::End(e)), LoopEndpoint::Start(s)) => Some((s, e)),
            (None, Some(LoopEndpoint::Start(s)), LoopEndpoint::End(e)) => Some((s, e)),
            _ => None,
        };
        match pair {
            Some((a, b)) => self.commit(a, b),
            None => {
                self.pending_loop = Some(new);
                LoopNews::Nothing
            },
        }
    }

    /// Plays the loop between two frames, if they are not the same.
    fn commit(&mut self, a: u64, b: u64) -> (r: LoopNews)
        requires
            old(self).wf(),
        ensures
            final(self).wf(),
            match region_between(a, b) {
                None => r == LoopNews::Nothing && *final(self) == *old(self),
                Some(region) => {
                    &&& r == LoopNews::SetLoop(Some(region))
                    &&& final(self).loop_region == Some(region)
                    &&& final(self).pending_loop is None
                    &&& final(self).active_loop == old(self).active_loop
                    &&& final(self).loops@ == match old(self).active_loop {
                        Some(i) => old(self).loops@.update(
                            i as int,
                            moved(old(self).loops@[i as int], region),
                        ),
                        None => old(self).loops@,
                    }
                },
            },
    {
        let (lo, hi): (u64, u64) = if a <= b {
            (a, b)
        } else {
            (b, a)
        };
        if hi <= lo {
            return LoopNews::Nothing;
        }
        let region: LoopRegion = LoopRegion { start: lo, end: hi };
        self.loop_region = Some(region);
        self.pending_loop = None;
        if let Some(i) = self.active_loop {
            self.loops[i].start = lo;
            self.loops[i].end = hi;
        }
        assert(self.active_loop is Some ==> self.loops@ =~= old(self).loops@.update(
            self.active_loop->0 as int,
            moved(old(self).loops@[self.active_loop->0 as int], region),
        ));
        LoopNews::SetLoop(Some(region))
    }
}

/// Whatever the user does, the loop that plays is at least one frame long, if
/// all loops were before: ends given in any order make a proper loop.
pub proof fn endpoints_make_proper_loops(a: u64, b: u64)
    ensures
        region_between(a, b) matches Some(l) ==> l.proper() && (l.start == a || l.start == b) && (
        l.end == a || l.end == b),
        region_between(a, b) is None <==> a == b,
        region_between(a, b) == region_between(b, a),
{
}

/// Whether a saved loop has any frames in a track of `total` frames.
pub open spec fn keeps(l: NamedLoop, total: u64) -> bool {
    l.start < total && l.start < l.end
}

/// A saved loop, cut off at the end of the track.
pub open spec fn cut(l: NamedLoop, total: u64) -> NamedLoop {
    NamedLoop {
        end: if l.end < total {
            l.end
        } else {
            total
        },
        ..l
    }
}

/// Saved loops in a track of `total` frames: those without any frames in it
/// are gone, the rest is cut off at its end, in the same order.
pub open spec fn fitted(loops: Seq<NamedLoop>, total: u64) -> Seq<NamedLoop>
    decreases loops.len(),
{
    if loops.len() == 0 {
        loops
    } else {
        let rest = fitted(loops.drop_last(), total);
        if keeps(loops.last(), total) {
            rest.push(cut(loops.last(), total))
        } else {
            rest
        }
    }
}

/// Fits saved loops to a track of `total_frames` frames.
pub fn clamp_loops(loops: Vec<NamedLoop>, total_frames: u64) -> (r: Vec<NamedLoop>)
    ensures
        r@ == fitted(loops@, total_frames),
{
    let ghost all = loops@;
    let mut r: Vec<NamedLoop> = loops;
    let ghost mut seen: int = 0;
    let mut i: usize = 0;
    assert(all.take(0).len() == 0);
    assert(r@ =~= fitted(all.take(0), total_frames) + all.skip(0));
    while i < r.len()
        invariant
            0 <= seen <= all.len(),
            i == fitted(all.take(seen), total_frames).len(),
            r@ == fitted(all.take(seen), total_frames) + all.skip(seen),
        decreases all.len() - seen,
    {
        let ghost before = fitted(all.take(seen), total_frames);
        proof {
            assert(r@[i as int] == all[seen]);
            assert(all.take(seen + 1).drop_last() =~= all.take(seen));
            assert(all.take(seen + 1).last() == all[seen]);
        }
        let start: u64 = r[i].start;
        let end: u64 = r[i].end;
        if start >= total_frames || start >= end {
            let _gone: NamedLoop = r.remove(i);
            proof {
                assert(r@ =~= before + all.skip(seen + 1));
                seen = seen + 1;
            }
        } else {
            if end > total_frames {
                r[i].end = total_frames;
            }
            proof {
                assert(r@ =~= before.push(cut(all[seen], total_frames)) + all.skip(seen + 1));
                seen = seen + 1;
            }
            i = i + 1;
        }
    }
    assert(all.take(seen) =~= all) by {
        assert(r@.len() == fitted(all.take(seen), total_frames).len() + (all.len() - seen));
    }
    assert(all.skip(seen) =~= Seq::<NamedLoop>::empty());
    assert(r@ =~= fitted(all, total_frames));
    r
}

/// Fitted loops lie within the track, and fitting them once more changes
/// nothing.
pub proof fn fitting_is_final(loops: Seq<NamedLoop>, total: u64)
    ensures
        forall|i: int|
            0 <= i < fitted(loops, total).len() ==> {
                let l = #[trigger] fitted(loops, total)[i];
                l.start < l.end <= total
            },
        fitted(fitted(loops, total), total) == fitted(loops, total),
        fitted(loops, total).len() <= loops.len(),
    decreases loops.len(),
{
    if loops.len() > 0 {
        fitting_is_final(loops.drop_last(), total);
        let rest = fitted(loops.drop_last(), total);
        if keeps(loops.last(), total) {
            let f = rest.push(cut(loops.last(), total));
            assert(f.drop_last() =~= rest);
            assert(cut(f.last(), total) == f.last());
            assert(fitted(loops, total) == f);
        }
    }
}

/// A saved loop to play, if there is one of that number.
pub fn clamp_active_loop(active: Option<usize>, loops: &Vec<NamedLoop>) -> (r: Option<usize>)
    ensures
        r == match active {
            Some(i) => if i < loops@.len() {
                Some(i)
            } else {
                None
            },
            None => None,
        },
{
    match active {
        Some(i) => if i < loops.len() {
            Some(i)
        } else {
            None
        },
        None => None,
    }
}

} // verus!
