//! Interleaved buffers: which samples make up a frame.

use vstd::prelude::*;

verus! {

/// Sample `c` of frame `frame` belongs to that frame.
pub proof fn row_of(frame: int, channels: int, c: int)
    requires
        0 <= frame,
        0 <= c < channels,
    ensures
        (frame * channels + c) / channels == frame,
{
    vstd::arithmetic::div_mod::lemma_fundamental_div_mod_converse(
        frame * channels + c,
        channels,
        frame,
        c,
    );
}

/// The samples of frame `frame` are those from its first up to the next
/// frame's first.
pub proof fn row_range(i: int, frame: int, channels: int)
    requires
        0 <= i,
        0 <= frame,
        0 < channels,
    ensures
        i / channels == frame <==> frame * channels <= i < frame * channels + channels,
{
    vstd::arithmetic::div_mod::lemma_fundamental_div_mod(i, channels);
    if frame * channels <= i < frame * channels + channels {
        row_of(frame, channels, i - frame * channels);
    }
    assert(channels * (i / channels) == (i / channels) * channels) by (nonlinear_arith);
}

/// A frame of a buffer lies inside it.
pub proof fn row_fits(f: int, samples: int, channels: int)
    requires
        0 <= f < samples / channels,
        0 < channels,
        0 <= samples,
    ensures
        (f + 1) * channels <= samples,
        (f + 1) * channels == f * channels + channels,
        0 <= f * channels,
{
    vstd::arithmetic::mul::lemma_mul_nonnegative(f, channels);
    vstd::arithmetic::mul::lemma_mul_is_distributive_add_other_way(channels, f, 1);
    vstd::arithmetic::div_mod::lemma_fundamental_div_mod(samples, channels);
    vstd::arithmetic::mul::lemma_mul_inequality(f + 1, samples / channels, channels);
    assert(channels * (samples / channels) == (samples / channels) * channels) by (nonlinear_arith);
}

} // verus!
