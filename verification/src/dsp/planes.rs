//! One queue of samples per channel, all of the same length.

use vstd::prelude::*;

use crate::frames::row_of;
use crate::sample::{num, total_arithmetic, whole, Sample};

pub mod laws;

verus! {

/// One sequence of samples per channel.
pub struct Planes<S> {
    pub chans: Vec<Vec<S>>,
}

impl<S> View for Planes<S> {
    type V = Seq<Seq<S>>;

    open spec fn view(&self) -> Seq<Seq<S>> {
        Seq::new(self.chans@.len(), |c: int| self.chans@[c]@)
    }
}

/// `channels` channels, `len` samples on each.
pub open spec fn shaped<S>(planes: Seq<Seq<S>>, channels: nat, len: nat) -> bool {
    &&& planes.len() == channels
    &&& forall|c: int| 0 <= c < channels ==> (#[trigger] planes[c]).len() == len
}

/// There is at least one channel, and all are equally long.
pub open spec fn in_step<S>(planes: Seq<Seq<S>>) -> bool {
    planes.len() > 0 && shaped(planes, planes.len(), planes[0].len())
}

/// Channel `c` of the first `frames` frames of interleaved samples.
pub open spec fn channel_of<S>(input: Seq<S>, channels: nat, c: int, frames: nat) -> Seq<S> {
    Seq::new(frames, |i: int| input[i * channels + c])
}

/// `planes` with interleaved frames appended.
pub open spec fn fed<S>(planes: Seq<Seq<S>>, input: Seq<S>, frames: nat) -> Seq<Seq<S>> {
    Seq::new(planes.len(), |c: int| planes[c] + channel_of(input, planes.len(), c, frames))
}

/// The first `n` frames, interleaved.
pub open spec fn interleaved<S>(planes: Seq<Seq<S>>, n: nat) -> Seq<S> {
    let ch = planes.len() as int;
    Seq::new((n * ch) as nat, |j: int| planes[j % ch][j / ch])
}

/// `planes` without the first `n` frames.
pub open spec fn without_front<S>(planes: Seq<Seq<S>>, n: int) -> Seq<Seq<S>> {
    Seq::new(planes.len(), |c: int| planes[c].skip(n))
}

/// `planes` with the first `n` frames of `more` appended.
pub open spec fn joined<S>(planes: Seq<Seq<S>>, more: Seq<Seq<S>>, n: int) -> Seq<Seq<S>> {
    Seq::new(planes.len(), |c: int| planes[c] + more[c].take(n))
}

/// The smaller of two counts.
pub open spec fn least(a: nat, b: nat) -> nat {
    if a <= b {
        a
    } else {
        b
    }
}

impl<S: Sample> Planes<S> {
    /// `channels` channels of `len` zeros each.
    pub fn zeros(channels: usize, len: usize) -> (r: Planes<S>)
        requires
            total_arithmetic::<S>(),
        ensures
            shaped(r@, channels as nat, len as nat),
            forall|c: int, i: int|
                0 <= c < channels && 0 <= i < len ==> #[trigger] r@[c][i] == num::<S>(0),
    {
        let zero: S = whole(0);
        let mut chans: Vec<Vec<S>> = Vec::new();
        while chans.len() < channels
            invariant
                chans@.len() <= channels,
                zero == num::<S>(0),
                forall|c: int| 0 <= c < chans@.len() ==> (#[trigger] chans@[c])@.len() == len,
                forall|c: int, i: int|
                    0 <= c < chans@.len() && 0 <= i < len ==> #[trigger] chans@[c]@[i] == num::<S>(
                        0,
                    ),
            decreases channels - chans@.len(),
        {
            let mut chan: Vec<S> = Vec::new();
            while chan.len() < len
                invariant
                    chan@.len() <= len,
                    zero == num::<S>(0),
                    forall|i: int| 0 <= i < chan@.len() ==> #[trigger] chan@[i] == num::<S>(0),
                decreases len - chan@.len(),
            {
                chan.push(zero);
            }
            chans.push(chan);
        }
        Planes { chans }
    }

    /// How many frames there are.
    pub fn frames(&self) -> (r: usize)
        requires
            self@.len() > 0,
        ensures
            r == self@[0].len(),
    {
        self.chans[0].len()
    }

    /// One sample.
    pub fn get(&self, c: usize, i: usize) -> (r: S)
        requires
            c < self@.len(),
            i < self@[c as int].len(),
        ensures
            r == self@[c as int][i as int],
    {
        self.chans[c][i]
    }

    /// Replaces one channel.
    pub fn set_channel(&mut self, c: usize, chan: Vec<S>)
        requires
            c < old(self)@.len(),
        ensures
            final(self)@ == old(self)@.update(c as int, chan@),
    {
        self.chans[c] = chan;
        assert(self@ =~= old(self)@.update(c as int, chan@));
    }

    /// Appends the first `frames` frames of interleaved samples.
    pub fn feed(&mut self, input: &[S], frames: usize)
        requires
            frames * old(self)@.len() <= input@.len(),
        ensures
            final(self)@ == fed(old(self)@, input@, frames as nat),
    {
        let channels: usize = self.chans.len();
        let len: usize = input.len();
        let ghost before = self@;
        let mut c: usize = 0;
        while c < channels
            invariant
                c <= channels,
                len == input@.len(),
                frames * channels <= len,
                channels == before.len(),
                before == old(self)@,
                self.chans@.len() == channels,
                forall|d: int|
                    0 <= d < c ==> (#[trigger] self.chans@[d])@ == before[d] + channel_of(
                        input@,
                        channels as nat,
                        d,
                        frames as nat,
                    ),
                forall|d: int| c <= d < channels ==> (#[trigger] self.chans@[d])@ == before[d],
            decreases channels - c,
        {
            assert(self.chans@[c as int]@ == before[c as int]);
            let chan: &mut Vec<S> = &mut self.chans[c];
            let mut i: usize = 0;
            while i < frames
                invariant
                    i <= frames,
                    c < channels,
                    len == input@.len(),
                    frames * channels <= len,
                    chan@ == before[c as int] + channel_of(
                        input@,
                        channels as nat,
                        c as int,
                        i as nat,
                    ),
                decreases frames - i,
            {
                proof {
                    vstd::arithmetic::mul::lemma_mul_inequality(
                        i + 1,
                        frames as int,
                        channels as int,
                    );
                    vstd::arithmetic::mul::lemma_mul_is_distributive_add_other_way(
                        channels as int,
                        i as int,
                        1,
                    );
                    vstd::arithmetic::mul::lemma_mul_nonnegative(i as int, channels as int);
                }
                chan.push(input[i * channels + c]);
                i = i + 1;
                assert(chan@ =~= before[c as int] + channel_of(
                    input@,
                    channels as nat,
                    c as int,
                    i as nat,
                ));
            }
            c = c + 1;
        }
        assert(self@ =~= fed(before, input@, frames as nat));
    }

    /// Writes the first `n` frames to the front of `output`, interleaved.
    pub fn write_interleaved(&self, output: &mut [S], n: usize)
        requires
            in_step(self@),
            n <= self@[0].len(),
            n * self@.len() <= old(output)@.len(),
        ensures
            final(output)@.len() == old(output)@.len(),
            final(output)@.take(n * self@.len()) == interleaved(self@, n as nat),
            final(output)@.skip(n * self@.len()) == old(output)@.skip(n * self@.len()),
    {
        let channels: usize = self.chans.len();
        let len: usize = output.len();
        let total: usize = n * channels;
        let ghost planes = self@;
        let mut frame: usize = 0;
        let mut c: usize = 0;
        let mut j: usize = 0;
        while j < total
            invariant
                j <= total,
                total == n * channels,
                total <= len,
                channels == planes.len(),
                channels > 0,
                planes == self@,
                in_step(planes),
                n <= planes[0].len(),
                j == frame * channels + c,
                c < channels,
                len == output@.len(),
                len == old(output)@.len(),
                forall|k: int|
                    0 <= k < j ==> #[trigger] output@[k] == planes[k % channels as int][k
                        / channels as int],
                forall|k: int| j <= k < len ==> #[trigger] output@[k] == old(output)@[k],
            decreases total - j,
        {
            proof {
                row_of(frame as int, channels as int, c as int);
                vstd::arithmetic::div_mod::lemma_fundamental_div_mod_converse(
                    j as int,
                    channels as int,
                    frame as int,
                    c as int,
                );
                if frame >= n {
                    vstd::arithmetic::mul::lemma_mul_inequality(
                        n as int,
                        frame as int,
                        channels as int,
                    );
                }
                vstd::arithmetic::mul::lemma_mul_is_distributive_add_other_way(
                    channels as int,
                    frame as int,
                    1,
                );
                assert(planes[c as int].len() == planes[0].len());
                assert(self.chans@[c as int]@ == planes[c as int]);
            }
            output[j] = self.chans[c][frame];
            j = j + 1;
            c = c + 1;
            if c == channels {
                c = 0;
                frame = frame + 1;
            }
        }
        assert(output@.take(total as int) =~= interleaved(planes, n as nat));
        assert(output@.skip(total as int) =~= old(output)@.skip(total as int));
    }

    /// Drops the first `n` frames.
    pub fn drop_front(&mut self, n: usize)
        requires
            forall|c: int| 0 <= c < old(self)@.len() ==> n <= (#[trigger] old(self)@[c]).len(),
        ensures
            final(self)@ == without_front(old(self)@, n as int),
    {
        let channels: usize = self.chans.len();
        let ghost before = self@;
        let mut c: usize = 0;
        while c < channels
            invariant
                c <= channels,
                channels == before.len(),
                self.chans@.len() == channels,
                forall|d: int| 0 <= d < channels ==> n <= (#[trigger] before[d]).len(),
                forall|d: int| 0 <= d < c ==> (#[trigger] self.chans@[d])@ == before[d].skip(
                    n as int,
                ),
                forall|d: int| c <= d < channels ==> (#[trigger] self.chans@[d])@ == before[d],
            decreases channels - c,
        {
            assert(self.chans@[c as int]@ == before[c as int]);
            let rest: Vec<S> = self.chans[c].split_off(n);
            assert(rest@ =~= before[c as int].skip(n as int));
            self.chans[c] = rest;
            c = c + 1;
        }
        assert(self@ =~= without_front(before, n as int));
    }

    /// Appends the first `n` frames of `more`.
    pub fn join(&mut self, more: &Planes<S>, n: usize)
        requires
            old(self)@.len() <= more@.len(),
            forall|c: int| 0 <= c < old(self)@.len() ==> n <= (#[trigger] more@[c]).len(),
        ensures
            final(self)@ == joined(old(self)@, more@, n as int),
    {
        let channels: usize = self.chans.len();
        let ghost before = self@;
        let mut c: usize = 0;
        while c < channels
            invariant
                c <= channels,
                channels == before.len(),
                channels <= more@.len(),
                self.chans@.len() == channels,
                forall|d: int| 0 <= d < channels ==> n <= (#[trigger] more@[d]).len(),
                forall|d: int| 0 <= d < c ==> (#[trigger] self.chans@[d])@ == before[d]
                    + more@[d].take(n as int),
                forall|d: int| c <= d < channels ==> (#[trigger] self.chans@[d])@ == before[d],
            decreases channels - c,
        {
            assert(self.chans@[c as int]@ == before[c as int]);
            assert(more.chans@[c as int]@ == more@[c as int]);
            let chan: &mut Vec<S> = &mut self.chans[c];
            let mut i: usize = 0;
            while i < n
                invariant
                    i <= n,
                    c < more@.len(),
                    n <= more@[c as int].len(),
                    chan@ == before[c as int] + more@[c as int].take(i as int),
                decreases n - i,
            {
                assert(more.chans@[c as int]@ == more@[c as int]);
                chan.push(more.chans[c][i]);
                i = i + 1;
                assert(chan@ =~= before[c as int] + more@[c as int].take(i as int));
            }
            c = c + 1;
        }
        assert(self@ =~= joined(before, more@, n as int));
    }

    /// Empties every channel.
    pub fn clear(&mut self)
        ensures
            shaped(final(self)@, old(self)@.len(), 0),
    {
        let channels: usize = self.chans.len();
        let mut c: usize = 0;
        while c < channels
            invariant
                c <= channels,
                channels == old(self)@.len(),
                self.chans@.len() == channels,
                forall|d: int| 0 <= d < c ==> (#[trigger] self.chans@[d])@.len() == 0,
            decreases channels - c,
        {
            self.chans[c] = Vec::new();
            c = c + 1;
        }
    }
}

} // verus!
