//! That taking channels apart and putting them together again loses nothing.

use vstd::prelude::*;

use crate::dsp::planes::{channel_of, interleaved};

verus! {

/// Interleaved frames that were taken apart by channel and are interleaved again
/// are what they were.
pub proof fn channels_come_together_again<S>(input: Seq<S>, channels: nat, frames: nat)
    requires
        channels > 0,
        frames * channels <= input.len(),
    ensures
        interleaved(
            Seq::new(channels, |c: int| channel_of(input, channels, c, frames)),
            frames,
        ) == input.take((frames * channels) as int),
{
    let planes = Seq::new(channels, |c: int| channel_of(input, channels, c, frames));
    let ch = channels as int;
    let all = interleaved(planes, frames);
    assert forall|j: int| 0 <= j < frames * channels implies #[trigger] all[j] == input[j] by {
        vstd::arithmetic::div_mod::lemma_fundamental_div_mod(j, ch);
        vstd::arithmetic::div_mod::lemma_mod_bound(j, ch);
        vstd::arithmetic::mul::lemma_mul_is_commutative(ch, j / ch);
        vstd::arithmetic::div_mod::lemma_div_pos_is_pos(j, ch);
        vstd::arithmetic::mul::lemma_mul_is_commutative(frames as int, ch);
        vstd::arithmetic::div_mod::lemma_multiply_divide_lt(j, ch, frames as int);
        assert(planes[j % ch][j / ch] == input[(j / ch) * ch + j % ch]);
    }
    assert(all =~= input.take((frames * channels) as int));
}

} // verus!
