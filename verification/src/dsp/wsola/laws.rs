//! What stretching in the time domain does to a sound.

use vstd::prelude::*;
use vstd::std_specs::ops::{AddSpec, MulSpec, SubSpec};

use crate::dsp::planes::shaped;
use crate::dsp::stretch::{FRAME_SIZE, OVERLAP, SYNTHESIS_HOP};
use crate::dsp::wsola::{
    difference, magnitude, mono, step_keeps_order, the_best_place_is_chosen, WsolaModel,
    SEARCH_RADIUS,
};
use crate::reading::{about, about_sum, apart, reads, spread, within_product, within_real};
use crate::sample::{finite, le, lt, num, real_like, same, Sample};

verus! {

/// The window at the places `j` of its four quarters, added up.
pub open spec fn quartered_gain<S: Sample>(
    value: spec_fn(S) -> real,
    window: Seq<S>,
    j: int,
) -> real {
    value(window[j]) + value(window[512 + j]) + value(window[1024 + j]) + value(window[1536 + j])
}

/// The sample that lies at `i` in the frame that is cut out next.
pub open spec fn cut<S: Sample>(m: WsolaModel<S>, c: int, i: int) -> S {
    m.input[c][m.place() + i]
}

/// Where four frames in a row go on from each other, what comes out is what went
/// in: the window adds up to one at the hop.
pub proof fn frames_that_go_on_give_back_the_input<S: Sample>(
    value: spec_fn(S) -> real,
    top: real,
    err: real,
    slack: real,
    states: Seq<WsolaModel<S>>,
    c: int,
    j: int,
)
    requires
        reads(value, top, err),
        top >= 8real,
        err <= 1real / 16real,
        states.len() == 4,
        forall|k: int| 0 <= k < 4 ==> (#[trigger] states[k]).wf(),
        forall|k: int| 0 <= k < 4 ==> (#[trigger] states[k]).window == states[0].window,
        forall|k: int| 0 <= k < 4 ==> (#[trigger] states[k]).input.len() == states[0].input.len(),
        states[1].tail == states[0].stepped().tail,
        states[2].tail == states[1].stepped().tail,
        states[3].tail == states[2].stepped().tail,
        0 <= c < states[0].input.len(),
        0 <= j < SYNTHESIS_HOP,
        cut(states[0], c, 1536 + j) == cut(states[3], c, j),
        cut(states[1], c, 1024 + j) == cut(states[3], c, j),
        cut(states[2], c, 512 + j) == cut(states[3], c, j),
        finite(cut(states[3], c, j)),
        within_real(value(cut(states[3], c, j)), 1real),
        forall|i: int|
            0 <= i < FRAME_SIZE ==> finite(#[trigger] states[0].window[i]) && within_real(
                value(states[0].window[i]),
                1real,
            ),
        apart(quartered_gain(value, states[0].window, j), 1real) <= slack,
    ensures
        ({
            let before = states[3].output[c];
            let after = states[3].stepped().output[c];
            &&& after.len() == before.len() + SYNTHESIS_HOP
            &&& apart(value(after[before.len() + j]), value(cut(states[3], c, j))) <= 8real * err
                + slack
        }),
{
    let (m0, m1, m2, m3) = (states[0], states[1], states[2], states[3]);
    assert(m0.wf() && m1.wf() && m2.wf() && m3.wf());
    assert(m1.window == m0.window && m2.window == m0.window && m3.window == m0.window);
    assert(m1.input.len() == m0.input.len() && m2.input.len() == m0.input.len());
    assert(m3.input.len() == m0.input.len());
    let w = m0.window;
    let x = cut(m3, c, j);
    let v = value(x);
    let g0 = m0.frames()[c][1536 + j];
    let g1 = m1.frames()[c][1024 + j];
    let g2 = m2.frames()[c][512 + j];
    let g3 = m3.frames()[c][j];
    assert(g0 == x.mul_spec(w[1536 + j]));
    assert(g1 == x.mul_spec(w[1024 + j]));
    assert(g2 == x.mul_spec(w[512 + j]));
    assert(g3 == x.mul_spec(w[j]));
    let t0 = num::<S>(0).add_spec(g0);
    assert(m1.tail[c][1024 + j] == t0);
    assert(m2.tail[c][512 + j] == t0.add_spec(g1));
    assert(m3.tail[c][j] == t0.add_spec(g1).add_spec(g2));
    let before = m3.output[c];
    let after = m3.stepped().output[c];
    assert(after[before.len() + j] == t0.add_spec(g1).add_spec(g2).add_spec(g3));
    four_shares(value, top, err, x, seq![w[1536 + j], w[1024 + j], w[512 + j], w[j]]);
    let total = quartered_gain(value, w, j);
    let d = total - 1real;
    within_product(v, d, 1real, slack);
    spread(1real, d, v);
    assert(apart(v * total, v) <= slack);
}

/// Four shares of a sample, added one after the other.
proof fn four_shares<S: Sample>(
    value: spec_fn(S) -> real,
    top: real,
    err: real,
    x: S,
    w: Seq<S>,
)
    requires
        reads(value, top, err),
        top >= 8real,
        err <= 1real / 16real,
        w.len() == 4,
        finite(x),
        within_real(value(x), 1real),
        forall|k: int| 0 <= k < 4 ==> finite(#[trigger] w[k]) && within_real(value(w[k]), 1real),
    ensures
        about(
            value,
            num::<S>(0).add_spec(x.mul_spec(w[0])).add_spec(x.mul_spec(w[1])).add_spec(
                x.mul_spec(w[2]),
            ).add_spec(x.mul_spec(w[3])),
            value(x) * (value(w[3]) + value(w[2]) + value(w[1]) + value(w[0])),
            8real * err,
        ),
{
    let v = value(x);
    let (p0, p1, p2, p3) = (value(w[0]), value(w[1]), value(w[2]), value(w[3]));
    assert(finite(w[0]) && finite(w[1]) && finite(w[2]) && finite(w[3]));
    within_product(v, p0, 1real, 1real);
    within_product(v, p1, 1real, 1real);
    within_product(v, p2, 1real, 1real);
    within_product(v, p3, 1real, 1real);
    let (g0, g1, g2, g3) = (
        x.mul_spec(w[0]),
        x.mul_spec(w[1]),
        x.mul_spec(w[2]),
        x.mul_spec(w[3]),
    );
    let zero = num::<S>(0);
    about_sum(value, top, err, zero, 0real, 0real, g0, v * p0, err);
    let t0 = zero.add_spec(g0);
    about_sum(value, top, err, t0, v * p0, 2real * err, g1, v * p1, err);
    let t1 = t0.add_spec(g1);
    let y1 = v * p0 + v * p1;
    about_sum(value, top, err, t1, y1, 4real * err, g2, v * p2, err);
    let t2 = t1.add_spec(g2);
    let y2 = y1 + v * p2;
    about_sum(value, top, err, t2, y2, 6real * err, g3, v * p3, err);
    spread(p3 + p2 + p1, p0, v);
    spread(p3 + p2, p1, v);
    spread(p3, p2, v);
}

/// The two sounds that are compared differ by a number everywhere.
pub open spec fn comparable<S: Sample>(
    reference: Seq<Seq<S>>,
    input: Seq<Seq<S>>,
    start: int,
) -> bool {
    forall|i: int|
        0 <= i < OVERLAP ==> same(
            #[trigger] mono(reference, i, reference.len()).sub_spec(
                mono(input, start + i, input.len()),
            ),
            mono(reference, i, reference.len()).sub_spec(mono(input, start + i, input.len())),
        )
}

/// No difference is below zero: what is too high in one place is not made up for
/// by what is too low in another.
pub proof fn differences_do_not_cancel<S: Sample>(
    reference: Seq<Seq<S>>,
    input: Seq<Seq<S>>,
    start: int,
    n: nat,
)
    requires
        real_like::<S>(),
        n <= OVERLAP,
        comparable(reference, input, start),
    ensures
        le(num(0), difference(reference, input, start, n)),
        forall|i: int|
            0 <= i < n ==> le(
                #[trigger] magnitude(
                    mono(reference, i, reference.len()).sub_spec(
                        mono(input, start + i, input.len()),
                    ),
                ),
                difference(reference, input, start, n),
            ),
    decreases n,
{
    let zero = num::<S>(0);
    assert(finite(zero));
    if n > 0 {
        let k = n - 1;
        differences_do_not_cancel(reference, input, start, k as nat);
        let d = difference(reference, input, start, k as nat);
        let x = mono(reference, k, reference.len()).sub_spec(mono(input, start + k, input.len()));
        assert(same(x, x));
        magnitude_from_zero(x);
        let m = magnitude(x);
        assert(le(d, d.add_spec(m)) && le(m, d.add_spec(m)));
        let all = difference(reference, input, start, n);
        assert(all == d.add_spec(m));
        assert forall|i: int| 0 <= i < n implies le(
            #[trigger] magnitude(
                mono(reference, i, reference.len()).sub_spec(mono(input, start + i, input.len())),
            ),
            all,
        ) by {
            let y = magnitude(
                mono(reference, i, reference.len()).sub_spec(mono(input, start + i, input.len())),
            );
            if i < k {
                assert(le(y, d));
            }
        }
    }
}

/// A magnitude is not below zero.
proof fn magnitude_from_zero<S: Sample>(x: S)
    requires
        real_like::<S>(),
        same(x, x),
    ensures
        le(num(0), magnitude(x)),
{
    let zero = num::<S>(0);
    assert(finite(zero) && same(zero, zero));
    if lt(x, zero) {
        let m = zero.sub_spec(x);
        if finite(x) {
            assert(lt(zero, m));
        } else {
            assert(le(x, zero));
            assert(le(zero.sub_spec(zero), zero.sub_spec(x)));
            assert(same(zero.sub_spec(zero), zero));
        }
    } else {
        assert(lt(x, zero) || same(x, zero) || lt(zero, x));
    }
}

/// Where a place in the search range goes on from the last frame exactly, the
/// place that is chosen differs from it by nothing.
pub proof fn an_exact_continuation_is_found<S: Sample>(m: WsolaModel<S>, place: int)
    requires
        real_like::<S>(),
        m.wf(),
        m.reference is Some,
        0 <= place,
        -SEARCH_RADIUS <= place - m.pos <= SEARCH_RADIUS,
        forall|c: int, i: int|
            0 <= c < m.input.len() && 0 <= i < OVERLAP ==> #[trigger] m.reference->0[c][i]
                == m.input[c][place + i],
        forall|i: int|
            0 <= i < OVERLAP ==> finite(
                #[trigger] mono(m.reference->0, i, m.reference->0.len()),
            ),
        comparable(m.reference->0, m.input, m.place()),
    ensures
        same(difference(m.reference->0, m.input, m.place(), OVERLAP as nat), num(0)),
{
    let r = m.reference->0;
    let zero = num::<S>(0);
    no_difference(r, m.input, place, OVERLAP as nat);
    let d = difference(r, m.input, place, OVERLAP as nat);
    assert(le(d, zero) && le(zero, d) && finite(zero));
    assert(finite(d));
    the_best_place_is_chosen(m, place);
    differences_do_not_cancel(r, m.input, m.place(), OVERLAP as nat);
    let best = difference(r, m.input, m.place(), OVERLAP as nat);
    if lt(zero, best) {
        assert(lt(d, best));
    }
}

proof fn no_difference<S: Sample>(
    r: Seq<Seq<S>>,
    input: Seq<Seq<S>>,
    place: int,
    n: nat,
)
    requires
        real_like::<S>(),
        n <= OVERLAP,
        r.len() == input.len(),
        forall|c: int, i: int|
            0 <= c < input.len() && 0 <= i < OVERLAP ==> #[trigger] r[c][i] == input[c][place + i],
        forall|i: int| 0 <= i < OVERLAP ==> finite(#[trigger] mono(r, i, r.len())),
    ensures
        same(difference(r, input, place, n), num(0)),
    decreases n,
{
    let zero = num::<S>(0);
    assert(finite(zero));
    if n > 0 {
        let k = n - 1;
        no_difference(r, input, place, k as nat);
        same_mono(r, input, place, k, r.len());
        let x = mono(r, k, r.len());
        let d = difference(r, input, place, k as nat);
        let gap = x.sub_spec(x);
        assert(same(gap, zero));
        let m = magnitude(gap);
        assert(m == gap);
        assert(le(d, zero) && le(zero, d) && le(m, zero) && le(zero, m));
        assert(finite(d) && finite(m));
        assert(le(d.add_spec(m), zero.add_spec(m)) && le(zero.add_spec(m), d.add_spec(m)));
        assert(same(zero.add_spec(m), m));
    }
}

proof fn same_mono<S: Sample>(
    r: Seq<Seq<S>>,
    input: Seq<Seq<S>>,
    place: int,
    i: int,
    n: nat,
)
    requires
        0 <= i < OVERLAP,
        n <= r.len(),
        r.len() == input.len(),
        forall|c: int, i: int|
            0 <= c < input.len() && 0 <= i < OVERLAP ==> #[trigger] r[c][i] == input[c][place + i],
    ensures
        mono(r, i, n) == mono(input, place + i, n),
    decreases n,
{
    if n > 0 {
        same_mono(r, input, place, i, (n - 1) as nat);
        assert(r[n - 1][i] == input[n - 1][place + i]);
    }
}

/// Without a stretch, every frame goes on from the one before it: the place that
/// is chosen differs by nothing from what would have come next.
pub proof fn unstretched_frames_go_on<S: Sample>(m: WsolaModel<S>, next: WsolaModel<S>)
    requires
        real_like::<S>(),
        m.wf(),
        m.can_step(),
        m.ramp.analysis_hop == SYNTHESIS_HOP,
        next.wf(),
        next.reference == m.stepped().reference,
        next.pos == m.stepped().pos,
        next.input.len() == m.input.len(),
        forall|c: int|
            0 <= c < m.input.len() ==> (#[trigger] m.stepped().input[c]).is_prefix_of(
                next.input[c],
            ),
        forall|i: int|
            0 <= i < OVERLAP ==> finite(
                #[trigger] mono(next.reference->0, i, next.reference->0.len()),
            ),
        comparable(next.reference->0, next.input, next.place()),
    ensures
        same(difference(next.reference->0, next.input, next.place(), OVERLAP as nat), num(0)),
{
    step_keeps_order(m);
    let r = next.reference->0;
    let place = m.place() + SYNTHESIS_HOP - m.trimmed();
    assert forall|c: int, i: int|
        0 <= c < next.input.len() && 0 <= i < OVERLAP implies #[trigger] r[c][i]
        == next.input[c][place + i] by {
        let after = m.stepped().input[c];
        assert(after.is_prefix_of(next.input[c]));
        assert(m.input[c].len() == m.input[0].len());
        assert(after == m.input[c].skip(m.trimmed()));
        assert(r[c] == m.input[c].subrange(
            m.place() + SYNTHESIS_HOP,
            m.place() + FRAME_SIZE,
        ));
        assert(after[place + i] == m.input[c][place + i + m.trimmed()]);
        assert(next.input[c].subrange(0, after.len() as int)[place + i]
            == next.input[c][place + i]);
    }
    an_exact_continuation_is_found(next, place);
}

} // verus!
