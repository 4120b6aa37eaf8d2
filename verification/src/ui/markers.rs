//! Markers: places in the track to jump to.

use vstd::prelude::*;

use crate::track::Marker;

verus! {

/// In order, and no two at the same frame.
pub open spec fn ordered(markers: Seq<Marker>) -> bool {
    forall|i: int, j: int|
        0 <= i < j < markers.len() ==> (#[trigger] markers[i]).frame < (#[trigger] markers[j]).frame
}

/// Whether there is a marker at a frame.
pub open spec fn marked(markers: Seq<Marker>, frame: u64) -> bool {
    exists|i: int| 0 <= i < markers.len() && (#[trigger] markers[i]).frame == frame
}

/// The first marker of a list at a frame.
pub open spec fn first_at(markers: Seq<Marker>, frame: u64) -> Marker
    decreases markers.len(),
{
    if markers.len() == 0 || markers[0].frame == frame {
        markers[0]
    } else {
        first_at(markers.drop_first(), frame)
    }
}

/// `r` is what becomes of `markers` in a track of `total` frames: those past
/// the end are gone, the rest is in order, and of several at one frame only
/// the first is left.
pub open spec fn tidied(markers: Seq<Marker>, total: u64, r: Seq<Marker>) -> bool {
    &&& ordered(r)
    &&& forall|i: int|
        0 <= i < r.len() ==> {
            &&& (#[trigger] r[i]).frame < total
            &&& marked(markers, r[i].frame)
            &&& r[i] == first_at(markers, r[i].frame)
        }
    &&& forall|j: int|
        0 <= j < markers.len() && (#[trigger] markers[j]).frame < total ==> marked(
            r,
            markers[j].frame,
        )
}

/// Where a marker at `frame` stands, or would stand, among ordered markers.
pub fn place_for(markers: &Vec<Marker>, frame: u64) -> (r: usize)
    requires
        ordered(markers@),
    ensures
        r <= markers@.len(),
        forall|i: int| 0 <= i < r ==> (#[trigger] markers@[i]).frame < frame,
        forall|i: int| r <= i < markers@.len() ==> (#[trigger] markers@[i]).frame >= frame,
{
    let mut lo: usize = 0;
    let mut hi: usize = markers.len();
    while lo < hi
        invariant
            lo <= hi <= markers@.len(),
            ordered(markers@),
            forall|i: int| 0 <= i < lo ==> (#[trigger] markers@[i]).frame < frame,
            forall|i: int| hi <= i < markers@.len() ==> (#[trigger] markers@[i]).frame >= frame,
        decreases hi - lo,
    {
        let mid: usize = lo + (hi - lo) / 2;
        if markers[mid].frame < frame {
            assert forall|i: int| 0 <= i < mid + 1 implies (#[trigger] markers@[i]).frame
                < frame by {
                if i < mid {
                    assert(markers@[i].frame < markers@[mid as int].frame);
                }
            }
            lo = mid + 1;
        } else {
            assert forall|i: int| mid <= i < markers@.len() implies (#[trigger] markers@[i]).frame
                >= frame by {
                if mid < i {
                    assert(markers@[mid as int].frame < markers@[i].frame);
                }
            }
            hi = mid;
        }
    }
    lo
}

/// Adds a marker without a name, unless there is one at the frame already.
/// The result says whether one was added.
pub fn add_marker(markers: &mut Vec<Marker>, frame: u64) -> (r: bool)
    requires
        ordered(old(markers)@),
    ensures
        ordered(final(markers)@),
        r == !marked(old(markers)@, frame),
        !r ==> final(markers)@ == old(markers)@,
        r ==> exists|k: int|
            {
                &&& 0 <= k <= old(markers)@.len()
                &&& final(markers)@.len() == old(markers)@.len() + 1
                &&& #[trigger] final(markers)@.remove(k) == old(markers)@
                &&& final(markers)@[k].frame == frame
                &&& final(markers)@[k].label@ == Seq::<char>::empty()
            },
{
    let k: usize = place_for(markers, frame);
    if k < markers.len() && markers[k].frame == frame {
        return false;
    }
    let ghost before = markers@;
    proof {
        assert forall|i: int| 0 <= i < before.len() implies (#[trigger] before[i]).frame
            != frame by {
            if k < before.len() && i > k {
                assert(before[k as int].frame < before[i].frame);
            }
        }
    }
    let label: String = String::new();
    markers.insert(k, Marker { frame, label });
    assert(markers@.remove(k as int) =~= before);
    assert forall|i: int, j: int| 0 <= i < j < markers@.len() implies (
    #[trigger] markers@[i]).frame < (#[trigger] markers@[j]).frame by {
        let a = if i < k {
            i
        } else {
            i - 1
        };
        let b = if j < k {
            j
        } else {
            j - 1
        };
        if i != k && j != k {
            assert(before[a].frame < before[b].frame);
        } else if i == k {
            assert(before[b].frame >= frame);
            assert(before[b].frame != frame);
        } else {
            assert(before[a].frame < frame);
        }
    }
    true
}

/// Removes a marker.
pub fn delete_marker(markers: &mut Vec<Marker>, i: usize)
    requires
        i < old(markers)@.len(),
    ensures
        final(markers)@ == old(markers)@.remove(i as int),
        ordered(old(markers)@) ==> ordered(final(markers)@),
{
    let ghost before = markers@;
    let _gone: Marker = markers.remove(i);
    proof {
        if ordered(before) {
            assert forall|a: int, b: int| 0 <= a < b < markers@.len() implies (
            #[trigger] markers@[a]).frame < (#[trigger] markers@[b]).frame by {
                let x = if a < i {
                    a
                } else {
                    a + 1
                };
                let y = if b < i {
                    b
                } else {
                    b + 1
                };
                assert(before[x].frame < before[y].frame);
            }
        }
    }
}

/// Fits markers to a track of `total_frames` frames.
pub fn clamp_markers(markers: Vec<Marker>, total_frames: u64) -> (r: Vec<Marker>)
    ensures
        tidied(markers@, total_frames, r@),
{
    let mut rest: Vec<Marker> = markers;
    let mut r: Vec<Marker> = Vec::new();
    let ghost all = markers@;
    assert(all.skip(all.len() as int) =~= Seq::<Marker>::empty());
    while rest.len() > 0
        invariant
            rest@.len() <= all.len(),
            rest@ =~= all.take(rest@.len() as int),
            tidied(all.skip(rest@.len() as int), total_frames, r@),
        decreases rest@.len(),
    {
        let ghost n = rest@.len() - 1;
        let ghost done = all.skip(n + 1);
        let ghost before = r@;
        match rest.pop() {
            Some(m) => {
                assert(m == all[n]);
                assert(all.skip(n)[0] == m);
                assert(all.skip(n).drop_first() =~= done);
                if m.frame < total_frames {
                    let frame: u64 = m.frame;
                    let k: usize = place_for(&r, frame);
                    if k < r.len() && r[k].frame == frame {
                        r[k] = m;
                    } else {
                        r.insert(k, m);
                    }
                    proof {
                        merged(done, total_frames, before, m, k as int, r@);
                        assert(seq![m] + done =~= all.skip(n));
                    }
                } else {
                    proof {
                        skipped(done, total_frames, before, m);
                        assert(seq![m] + done =~= all.skip(n));
                    }
                }
            },
            None => {},
        }
    }
    assert(all.skip(0) =~= all);
    r
}

/// One more marker in front, past the end of the track.
proof fn skipped(done: Seq<Marker>, total: u64, r: Seq<Marker>, m: Marker)
    requires
        tidied(done, total, r),
        m.frame >= total,
    ensures
        tidied(seq![m] + done, total, r),
{
    let all = seq![m] + done;
    assert(all.drop_first() =~= done);
    assert forall|i: int| 0 <= i < r.len() implies {
        &&& (#[trigger] r[i]).frame < total
        &&& marked(all, r[i].frame)
        &&& r[i] == first_at(all, r[i].frame)
    } by {
        let j = choose|j: int| 0 <= j < done.len() && (#[trigger] done[j]).frame == r[i].frame;
        assert(all[j + 1] == done[j]);
    }
    assert forall|j: int| 0 <= j < all.len() && (#[trigger] all[j]).frame < total implies marked(
        r,
        all[j].frame,
    ) by {
        assert(all[j] == done[j - 1]);
    }
}

/// One more marker in front, put in its place or in the place of the one at
/// its frame.
proof fn merged(
    done: Seq<Marker>,
    total: u64,
    before: Seq<Marker>,
    m: Marker,
    k: int,
    r: Seq<Marker>,
)
    requires
        tidied(done, total, before),
        m.frame < total,
        0 <= k <= before.len(),
        forall|i: int| 0 <= i < k ==> (#[trigger] before[i]).frame < m.frame,
        forall|i: int| k <= i < before.len() ==> (#[trigger] before[i]).frame >= m.frame,
        r == if k < before.len() && before[k].frame == m.frame {
            before.update(k, m)
        } else {
            before.insert(k, m)
        },
    ensures
        tidied(seq![m] + done, total, r),
{
    let all = seq![m] + done;
    assert(all.drop_first() =~= done);
    assert(all[0] == m);
    let same = k < before.len() && before[k].frame == m.frame;
    assert(r[k] == m);
    let shift = if same {
        0int
    } else {
        1int
    };
    assert forall|i: int| 0 <= i < r.len() && i != k implies #[trigger] r[i] == before[if i < k {
        i
    } else {
        i - shift
    }] && r[i].frame != m.frame by {
        if i > k {
            let a = i - shift;
            if same {
                assert(before[k].frame < before[a].frame);
            } else if a > k {
                assert(before[k].frame < before[a].frame);
            }
        }
    }
    assert forall|i: int| 0 <= i < r.len() implies {
        &&& (#[trigger] r[i]).frame < total
        &&& marked(all, r[i].frame)
        &&& r[i] == first_at(all, r[i].frame)
    } by {
        if i == k {
            assert(all[0].frame == m.frame);
        } else {
            let a = if i < k {
                i
            } else {
                i - shift
            };
            assert(r[i] == before[a]);
            let j = choose|j: int|
                0 <= j < done.len() && (#[trigger] done[j]).frame == before[a].frame;
            assert(all[j + 1] == done[j]);
        }
    }
    assert forall|j: int| 0 <= j < all.len() && (#[trigger] all[j]).frame < total implies marked(
        r,
        all[j].frame,
    ) by {
        if j == 0 || all[j].frame == m.frame {
            assert(r[k].frame == all[j].frame);
        } else {
            assert(all[j] == done[j - 1]);
            let a = choose|a: int|
                0 <= a < before.len() && (#[trigger] before[a]).frame == done[j - 1].frame;
            let i = if a < k {
                a
            } else {
                a + shift
            };
            assert(r[i] == before[a]);
        }
    }
    assert forall|i: int, j: int| 0 <= i < j < r.len() implies (#[trigger] r[i]).frame < (
    #[trigger] r[j]).frame by {
        let a = if i < k {
            i
        } else {
            i - shift
        };
        let b = if j < k {
            j
        } else {
            j - shift
        };
        if i != k && j != k {
            assert(before[a].frame < before[b].frame);
        } else if i == k {
            assert(before[b].frame >= m.frame);
        } else {
            assert(before[a].frame < m.frame);
        }
    }
}

/// Fitting markers to a track that they fit already changes nothing.
pub proof fn tidy_markers_stay(markers: Seq<Marker>, total: u64, r: Seq<Marker>)
    requires
        ordered(markers),
        forall|i: int| 0 <= i < markers.len() ==> (#[trigger] markers[i]).frame < total,
        tidied(markers, total, r),
    ensures
        r == markers,
{
    assert forall|k: int| 0 <= k <= markers.len() && k <= r.len() implies #[trigger] markers.take(k)
        == r.take(k) by {
        same_prefix(markers, total, r, k as nat);
    }
    if r.len() < markers.len() {
        let j = r.len() as int;
        assert(markers.take(j) == r.take(j));
        let i = choose|i: int| 0 <= i < r.len() && (#[trigger] r[i]).frame == markers[j].frame;
        assert(r[i] == r.take(j)[i]);
        assert(markers.take(j)[i] == markers[i]);
        assert(markers[i].frame < markers[j].frame);
    } else if markers.len() < r.len() {
        let j = markers.len() as int;
        assert(markers.take(j) == r.take(j));
        assert(marked(markers, r[j].frame));
        let i = choose|i: int|
            0 <= i < markers.len() && (#[trigger] markers[i]).frame == r[j].frame;
        assert(markers[i] == markers.take(j)[i]);
        assert(r.take(j)[i] == r[i]);
        assert(r[i].frame < r[j].frame);
    }
    let n = markers.len() as int;
    assert(markers.take(n) == r.take(n));
    assert(markers.take(n) =~= markers);
    assert(r.take(n) =~= r);
}

proof fn same_prefix(markers: Seq<Marker>, total: u64, r: Seq<Marker>, k: nat)
    requires
        ordered(markers),
        forall|i: int| 0 <= i < markers.len() ==> (#[trigger] markers[i]).frame < total,
        tidied(markers, total, r),
        k <= markers.len(),
        k <= r.len(),
    ensures
        markers.take(k as int) == r.take(k as int),
    decreases k,
{
    if k > 0 {
        let n = k - 1;
        same_prefix(markers, total, r, n as nat);
        // What is at this place on either side must stand on the other side
        // too, and cannot stand earlier there.
        assert(marked(r, markers[n].frame));
        let a = choose|a: int| 0 <= a < r.len() && (#[trigger] r[a]).frame == markers[n].frame;
        assert(marked(markers, r[n].frame));
        let b = choose|b: int|
            0 <= b < markers.len() && (#[trigger] markers[b]).frame == r[n].frame;
        if a < n {
            assert(r.take(n)[a] == markers.take(n)[a]);
            assert(markers[a].frame < markers[n].frame);
        }
        if b < n {
            assert(r.take(n)[b] == markers.take(n)[b]);
            assert(r[b].frame < r[n].frame);
        }
        if a > n {
            assert(r[n].frame < r[a].frame);
        }
        if b > n {
            assert(markers[n].frame < markers[b].frame);
        }
        assert(r[n].frame == markers[n].frame);
        only_at(markers, n);
        assert(r[n] == markers[n]);
        assert(markers.take(k as int) =~= markers.take(n).push(markers[n]));
        assert(r.take(k as int) =~= r.take(n).push(r[n]));
    }
}

/// In an ordered list, the first marker at a frame is the only one.
proof fn only_at(markers: Seq<Marker>, n: int)
    requires
        ordered(markers),
        0 <= n < markers.len(),
    ensures
        first_at(markers, markers[n].frame) == markers[n],
    decreases markers.len(),
{
    if n > 0 {
        assert(markers[0].frame < markers[n].frame);
        let rest = markers.drop_first();
        assert forall|i: int, j: int| 0 <= i < j < rest.len() implies (#[trigger] rest[i]).frame < (
        #[trigger] rest[j]).frame by {
            assert(markers[i + 1].frame < markers[j + 1].frame);
        }
        assert(rest[n - 1] == markers[n]);
        only_at(rest, n - 1);
    }
}

/// The first marker after a frame.
pub fn next_marker(markers: &Vec<Marker>, position: u64) -> (r: Option<u64>)
    requires
        ordered(markers@),
    ensures
        match r {
            Some(f) => marked(markers@, f) && f > position && forall|i: int|
                0 <= i < markers@.len() && (#[trigger] markers@[i]).frame > position
                    ==> markers@[i].frame >= f,
            None => forall|i: int|
                0 <= i < markers@.len() ==> (#[trigger] markers@[i]).frame <= position,
        },
{
    if position == u64::MAX {
        return None;
    }
    let k: usize = place_for(markers, position + 1);
    if k < markers.len() {
        let f: u64 = markers[k].frame;
        assert(markers@[k as int].frame == f);
        assert forall|i: int| 0 <= i < markers@.len() && (#[trigger] markers@[i]).frame
            > position implies markers@[i].frame >= f by {
            if i > k {
                assert(markers@[k as int].frame < markers@[i].frame);
            }
        }
        Some(f)
    } else {
        None
    }
}

/// The last marker before a frame.
pub open spec fn last_before(markers: Seq<Marker>, frame: u64, f: u64) -> bool {
    &&& marked(markers, f)
    &&& f < frame
    &&& forall|i: int|
        0 <= i < markers.len() && (#[trigger] markers[i]).frame < frame ==> markers[i].frame <= f
}

/// What stepping back starts from: the last marker that the playhead has
/// passed by no more than `slack` frames, or else the playhead itself.
pub open spec fn back_anchor(markers: Seq<Marker>, position: u64, slack: u64, anchor: u64) -> bool {
    if exists|i: int|
        0 <= i < markers.len() && (#[trigger] markers[i]).frame <= position && position
            - markers[i].frame <= slack {
        &&& marked(markers, anchor)
        &&& anchor <= position
        &&& forall|i: int|
            0 <= i < markers.len() && (#[trigger] markers[i]).frame <= position
                ==> markers[i].frame <= anchor
    } else {
        anchor == position
    }
}

/// The marker to step back to. A playhead that has just left a marker behind,
/// by no more than half a second, steps to the one before it.
pub fn previous_marker(markers: &Vec<Marker>, position: u64, sample_rate: u32) -> (r: Option<u64>)
    requires
        ordered(markers@),
    ensures
        exists|anchor: u64|
            {
                &&& #[trigger] back_anchor(markers@, position, (sample_rate / 2) as u64, anchor)
                &&& match r {
                    Some(f) => last_before(markers@, anchor, f),
                    None => forall|i: int|
                        0 <= i < markers@.len() ==> (#[trigger] markers@[i]).frame >= anchor,
                }
            },
{
    let slack: u64 = (sample_rate / 2) as u64;
    let after: usize = if position == u64::MAX {
        markers.len()
    } else {
        place_for(markers, position + 1)
    };
    let mut anchor: u64 = position;
    if after > 0 && position - markers[after - 1].frame <= slack {
        anchor = markers[after - 1].frame;
    }
    proof {
        if after > 0 {
            let last = after - 1;
            assert forall|i: int| 0 <= i < markers@.len() && (#[trigger] markers@[i]).frame
                <= position implies markers@[i].frame <= markers@[last].frame by {
                if i < last {
                    assert(markers@[i].frame < markers@[last].frame);
                }
            }
            assert(markers@[last].frame <= position);
        }
        assert(back_anchor(markers@, position, slack, anchor));
    }
    let k: usize = place_for(markers, anchor);
    if k > 0 {
        let f: u64 = markers[k - 1].frame;
        assert forall|i: int| 0 <= i < markers@.len() && (#[trigger] markers@[i]).frame
            < anchor implies markers@[i].frame <= f by {
            if i < k - 1 {
                assert(markers@[i].frame < markers@[k - 1].frame);
            }
        }
        Some(f)
    } else {
        None
    }
}

/// The frame of the `n`th marker, counted from one.
pub fn nth_marker(markers: &Vec<Marker>, n: usize) -> (r: Option<u64>)
    ensures
        r == if 1 <= n <= markers@.len() {
            Some(markers@[n - 1].frame)
        } else {
            None
        },
{
    if n >= 1 && n <= markers.len() {
        Some(markers[n - 1].frame)
    } else {
        None
    }
}

} // verus!
