//! The allpass filter.

use vstd::prelude::*;
use crate::error::FilterError;
use crate::history::DelayHistory;
use crate::sample::{silent, Sample};
use crate::stream::{advance_in_blocks, concat_blocks, law_chunk_invariance, Streaming};
use crate::window::{delayed, lemma_delayed_through_window, lemma_trailing_concat, trailing};

verus! {

/// What an allpass filter holds for one channel: its two parameters, the
/// tail of the signal it has taken in (`heard`) and the tail of the signal
/// it has put out (`said`), oldest sample first.
pub struct AllPassState<S> {
    pub delay: nat,
    pub gain: S,
    pub heard: Seq<S>,
    pub said: Seq<S>,
}

impl<S: Sample> AllPassState<S> {
    /// The state of a channel that has not taken in anything yet.
    pub open spec fn fresh(delay: nat, gain: S) -> Self {
        AllPassState { delay, gain, heard: Seq::empty(), said: Seq::empty() }
    }

    /// The input of `delay` samples ago, where `past` is all the input
    /// before the present sample; silence while there is none that old.
    pub open spec fn feedforward(self, past: Seq<S>) -> S {
        match delayed(past, self.delay) {
            None => S::zero_spec(),
            Some(v) => v,
        }
    }

    /// The output of `delay` samples ago times the gain, where `past` is all
    /// the output so far; silence while there is none that old.
    pub open spec fn feedback(self, past: Seq<S>) -> S {
        match delayed(past, self.delay) {
            None => S::zero_spec(),
            Some(v) => self.gain.times_spec(v),
        }
    }

    /// `output[i] = -gain * input[i] + input[i - delay] + gain * output[i - delay]`,
    /// summed from left to right, with the two tails standing in for the
    /// input and output of earlier calls.
    pub open spec fn run(self, input: Seq<S>) -> Seq<S>
        decreases input.len(),
    {
        if input.len() == 0 {
            Seq::empty()
        } else {
            let earlier = input.drop_last();
            let before = self.run(earlier);
            before.push(
                self.gain.negated_spec().times_spec(input.last()).plus_spec(
                    self.feedforward(self.heard + earlier),
                ).plus_spec(self.feedback(self.said + before)),
            )
        }
    }

    /// The output has one sample for each input sample.
    pub proof fn lemma_run_len(self, input: Seq<S>)
        ensures
            self.run(input).len() == input.len(),
        decreases input.len(),
    {
        if input.len() > 0 {
            self.lemma_run_len(input.drop_last());
        }
    }

    /// The output for one more input sample extends the output so far.
    pub proof fn lemma_run_push(self, input: Seq<S>, x: S)
        ensures
            self.run(input.push(x)) == self.run(input).push(
                self.gain.negated_spec().times_spec(x).plus_spec(
                    self.feedforward(self.heard + input),
                ).plus_spec(self.feedback(self.said + self.run(input))),
            ),
    {
        assert(input.push(x).drop_last() =~= input);
    }

    /// Bounded memory: after a block the filter retains, of its input and
    /// of its output, the samples it had and the block's, but never more
    /// than `delay` of either.
    pub proof fn law_bounded_memory(self, input: Seq<S>)
        requires
            self.valid(),
        ensures
            self.advance(input).heard.len() == if self.heard.len() + input.len() <= self.delay {
                self.heard.len() + input.len()
            } else {
                self.delay
            },
            self.advance(input).said.len() == self.advance(input).heard.len(),
            self.advance(input).heard.len() <= self.delay,
    {
        self.lemma_run_len(input);
    }

    /// A filter that started fresh retains, of its input and of its output,
    /// as many samples as it has taken in, in however many blocks, up to
    /// `delay` and no more.
    pub proof fn law_retained_after_blocks(delay: nat, gain: S, blocks: Seq<Seq<S>>)
        requires
            delay >= 1,
            gain.is_gain_spec(),
        ensures
            advance_in_blocks(Self::fresh(delay, gain), blocks).heard.len() == if concat_blocks(
                blocks,
            ).len() <= delay {
                concat_blocks(blocks).len()
            } else {
                delay
            },
            advance_in_blocks(Self::fresh(delay, gain), blocks).said.len() == advance_in_blocks(
                Self::fresh(delay, gain),
                blocks,
            ).heard.len(),
    {
        law_chunk_invariance(Self::fresh(delay, gain), blocks);
        Self::fresh(delay, gain).law_bounded_memory(concat_blocks(blocks));
    }

    /// The arithmetic facts that keep a silent filter silent: silence plus
    /// silence is silence, the gain times silence is silence, and the
    /// negated gain times silence, plus silence, is silence.
    pub open spec fn quiet(self) -> bool {
        let z = S::zero_spec();
        &&& z.plus_spec(z) == z
        &&& self.gain.times_spec(z) == z
        &&& self.gain.negated_spec().times_spec(z).plus_spec(z) == z
    }

    /// Silence in, silence out: a filter that retains only silence answers
    /// silence with silence and retains only silence afterwards, provided
    /// the arithmetic is `quiet`.
    pub proof fn law_silence(self, input: Seq<S>)
        requires
            self.valid(),
            self.quiet(),
            silent(self.heard),
            silent(self.said),
            silent(input),
        ensures
            silent(self.run(input)),
            silent(self.advance(input).heard),
            silent(self.advance(input).said),
        decreases input.len(),
    {
        self.lemma_run_len(input);
        if input.len() > 0 {
            let earlier = input.drop_last();
            self.law_silence(earlier);
            self.lemma_run_len(earlier);
            assert(silent(self.heard + earlier));
            assert(silent(self.said + self.run(earlier)));
            assert(self.feedforward(self.heard + earlier) == S::zero_spec());
            assert(self.feedback(self.said + self.run(earlier)) == S::zero_spec());
        }
        assert(silent(self.heard + input));
        assert(silent(self.said + self.run(input)));
    }
}

impl<S: Sample> Streaming<S> for AllPassState<S> {
    open spec fn valid(self) -> bool {
        &&& self.delay >= 1
        &&& self.gain.is_gain_spec()
        &&& self.heard.len() <= self.delay
        &&& self.said.len() == self.heard.len()
    }

    open spec fn response(self, input: Seq<S>) -> Seq<S> {
        self.run(input)
    }

    open spec fn advance(self, input: Seq<S>) -> Self {
        AllPassState {
            delay: self.delay,
            gain: self.gain,
            heard: trailing(self.heard + input, self.delay),
            said: trailing(self.said + self.run(input), self.delay),
        }
    }

    proof fn law_split(self, a: Seq<S>, b: Seq<S>)
        decreases b.len(),
    {
        let next = self.advance(a);
        self.lemma_run_len(a);
        if b.len() == 0 {
            assert(a + b =~= a);
            assert(self.run(a) + next.run(b) =~= self.run(a));
            assert(next.heard + b =~= next.heard);
            assert(next.said + next.run(b) =~= next.said);
        } else {
            let b0 = b.drop_last();
            self.law_split(a, b0);
            assert((a + b).drop_last() =~= a + b0);
            assert(self.heard + (a + b0) =~= (self.heard + a) + b0);
            assert(self.said + (self.run(a) + next.run(b0)) =~= (self.said + self.run(a))
                + next.run(b0));
            lemma_delayed_through_window(self.heard + a, b0, self.delay, self.delay);
            lemma_delayed_through_window(
                self.said + self.run(a),
                next.run(b0),
                self.delay,
                self.delay,
            );
            assert(self.run(a + b) =~= self.run(a) + next.run(b));
            lemma_trailing_concat(self.heard + a, b, self.delay);
            lemma_trailing_concat(self.said + self.run(a), next.run(b), self.delay);
            assert(self.heard + (a + b) =~= (self.heard + a) + b);
            assert(self.said + (self.run(a) + next.run(b)) =~= (self.said + self.run(a))
                + next.run(b));
        }
    }

    proof fn law_idle(self) {
        assert(self.heard + Seq::<S>::empty() =~= self.heard);
        assert(self.said + self.run(Seq::empty()) =~= self.said);
    }
}

/// An allpass filter: the input of `delay` samples ago, less the present
/// input scaled by `gain`, plus the output of `delay` samples ago scaled by
/// `gain`.
///
/// Channels are told apart by index and come into being on first use, in
/// order from zero. Each has an input history and an output history of its
/// own.
pub struct AllPass<S> {
    output: Vec<S>,
    delay: usize,
    gain: S,
    prev_input: Vec<DelayHistory<S>>,
    prev_output: Vec<DelayHistory<S>>,
}

impl<S: Sample> AllPass<S> {
    /// The delay, in samples.
    pub closed spec fn delay_spec(&self) -> nat {
        self.delay as nat
    }

    /// The gain.
    pub closed spec fn gain_spec(&self) -> S {
        self.gain
    }

    /// The number of channels that have been used.
    pub closed spec fn channels_spec(&self) -> nat {
        self.prev_output@.len()
    }

    /// The block that the last call put out.
    pub closed spec fn produced(&self) -> Seq<S> {
        self.output@
    }

    /// The state of channel `c`. A channel that has not been used is fresh.
    pub closed spec fn state(&self, c: int) -> AllPassState<S> {
        if 0 <= c < self.prev_output@.len() {
            AllPassState {
                delay: self.delay as nat,
                gain: self.gain,
                heard: self.prev_input@[c]@,
                said: self.prev_output@[c]@,
            }
        } else {
            AllPassState::fresh(self.delay as nat, self.gain)
        }
    }

    /// The parameters are in range, and each channel's two histories are
    /// consistent windows of `delay` samples at most, equally long.
    pub closed spec fn wf(&self) -> bool {
        &&& self.delay >= 1
        &&& self.gain.is_gain_spec()
        &&& self.prev_output@.len() <= 256
        &&& self.prev_input@.len() == self.prev_output@.len()
        &&& forall|c: int|
            0 <= c < self.prev_output@.len() ==> {
                &&& (#[trigger] self.prev_output@[c]).wf()
                &&& self.prev_output@[c].capacity_spec() == self.delay
            }
        &&& forall|c: int|
            0 <= c < self.prev_input@.len() ==> {
                &&& (#[trigger] self.prev_input@[c]).wf()
                &&& self.prev_input@[c].capacity_spec() == self.delay
                &&& self.prev_input@[c]@.len() == self.prev_output@[c]@.len()
            }
    }

    /// Every channel of a well-formed filter is in a valid state with the
    /// filter's parameters: neither history retains more than `delay`
    /// samples.
    pub proof fn lemma_state_valid(&self, c: int)
        requires
            self.wf(),
        ensures
            self.state(c).valid(),
            self.state(c).delay == self.delay_spec(),
            self.state(c).gain == self.gain_spec(),
            c < 0 || c >= self.channels_spec() ==> self.state(c) == AllPassState::fresh(
                self.delay_spec(),
                self.gain_spec(),
            ),
    {
        if 0 <= c < self.prev_output@.len() {
            self.prev_input@[c].lemma_bounded();
            self.prev_output@[c].lemma_bounded();
        }
    }

    /// A filter without channels. A zero delay is refused, then a gain
    /// outside `0 <= gain < 1`.
    pub fn new(delay: usize, gain: S) -> (r: Result<Self, FilterError>)
        ensures
            delay == 0 ==> r == Err::<Self, FilterError>(FilterError::ZeroDelay),
            delay > 0 && !gain.is_gain_spec() ==> r == Err::<Self, FilterError>(
                FilterError::GainOutOfRange,
            ),
            delay > 0 && gain.is_gain_spec() ==> r is Ok,
            r is Ok ==> {
                let f = r->Ok_0;
                &&& f.wf()
                &&& f.delay_spec() == delay
                &&& f.gain_spec() == gain
                &&& f.channels_spec() == 0
                &&& f.produced() == Seq::<S>::empty()
                &&& forall|c: int| #[trigger] f.state(c) == AllPassState::fresh(delay as nat, gain)
            },
    {
        if delay == 0 {
            return Err(FilterError::ZeroDelay);
        }
        if !gain.is_gain() {
            return Err(FilterError::GainOutOfRange);
        }
        Ok(
            AllPass {
                output: Vec::new(),
                delay,
                gain,
                prev_input: Vec::new(),
                prev_output: Vec::new(),
            },
        )
    }

    /// Changes the delay and forgets every channel: the filter is as if
    /// newly made with the new delay and the old gain. A zero delay is
    /// refused and changes nothing.
    pub fn reset(&mut self, delay: usize) -> (r: Result<(), FilterError>)
        requires
            old(self).wf(),
        ensures
            final(self).wf(),
            final(self).gain_spec() == old(self).gain_spec(),
            delay == 0 ==> r == Err::<(), FilterError>(FilterError::ZeroDelay) && *final(self)
                == *old(self),
            delay > 0 ==> {
                &&& r is Ok
                &&& final(self).delay_spec() == delay
                &&& final(self).channels_spec() == 0
                &&& final(self).produced() == Seq::<S>::empty()
                &&& forall|c: int| #[trigger]
                    final(self).state(c) == AllPassState::fresh(delay as nat, old(self).gain_spec())
            },
    {
        if delay == 0 {
            return Err(FilterError::ZeroDelay);
        }
        self.delay = delay;
        self.prev_input = Vec::new();
        self.prev_output = Vec::new();
        self.output.clear();
        Ok(())
    }

    /// The delay, in samples.
    pub fn delay(&self) -> (r: usize)
        ensures
            r == self.delay_spec(),
    {
        self.delay
    }

    /// The gain.
    pub fn gain(&self) -> (r: S)
        ensures
            r == self.gain_spec(),
    {
        self.gain
    }

    /// The number of channels that have been used.
    pub fn channels(&self) -> (r: usize)
        ensures
            r == self.channels_spec(),
    {
        self.prev_output.len()
    }

    /// The number of samples retained for channel `chan`, in each of its
    /// two histories.
    pub fn retained(&self, chan: u8) -> (r: usize)
        requires
            self.wf(),
        ensures
            r == self.state(chan as int).heard.len(),
            r == self.state(chan as int).said.len(),
    {
        if (chan as usize) < self.prev_output.len() {
            self.prev_output[chan as usize].len()
        } else {
            0
        }
    }

    /// The block that the last call of `process` put out.
    pub fn output(&self) -> (r: &Vec<S>)
        ensures
            r@ == self.produced(),
    {
        &self.output
    }

    /// Filters one block of channel `chan`:
    /// `output[i] = -gain * input[i] + input[i - delay] + gain * output[i - delay]`,
    /// where the input and output of earlier calls on this channel count as
    /// earlier input and output.
    ///
    /// `chan` must be a channel already used or the next unused one;
    /// anything above is refused with `ChannelGap` and changes nothing. The
    /// block may be empty: the channel then counts as used and nothing else
    /// changes.
    pub fn process(&mut self, input: &[S], chan: u8) -> (r: Result<(), FilterError>)
        requires
            old(self).wf(),
        ensures
            final(self).wf(),
            final(self).delay_spec() == old(self).delay_spec(),
            final(self).gain_spec() == old(self).gain_spec(),
            chan > old(self).channels_spec() ==> r == Err::<(), FilterError>(
                FilterError::ChannelGap,
            ) && *final(self) == *old(self),
            chan <= old(self).channels_spec() ==> {
                &&& r is Ok
                &&& final(self).produced() == old(self).state(chan as int).response(input@)
                &&& final(self).produced().len() == input@.len()
                &&& final(self).state(chan as int) == old(self).state(chan as int).advance(input@)
                &&& final(self).channels_spec() == if chan == old(self).channels_spec() {
                    old(self).channels_spec() + 1
                } else {
                    old(self).channels_spec()
                }
                &&& forall|c: int| c != chan ==> #[trigger] final(self).state(c) == old(self).state(c)
            },
    {
        let chan: usize = chan as usize;
        if chan > self.prev_output.len() {
            return Err(FilterError::ChannelGap);
        }
        if chan == self.prev_output.len() {
            match DelayHistory::new(self.delay) {
                Ok(h) => self.prev_input.push(h),
                Err(e) => return Err(e),
            }
            match DelayHistory::new(self.delay) {
                Ok(h) => self.prev_output.push(h),
                Err(e) => return Err(e),
            }
        }
        let ghost start = old(self).state(chan as int);
        let ghost inputs = self.prev_input@;
        let ghost outputs = self.prev_output@;
        assert(inputs[chan as int]@ == start.heard);
        assert(outputs[chan as int]@ == start.said);
        self.output.clear();
        let less = self.gain.negated();
        let n: usize = input.len();
        let mut i: usize = 0;
        assert(input@.take(0) =~= Seq::<S>::empty());
        while i < n
            invariant
                n == input@.len(),
                i <= n,
                chan < self.prev_output@.len(),
                self.prev_input@ == inputs,
                self.prev_output@ == outputs,
                inputs.len() == outputs.len(),
                inputs[chan as int].wf(),
                inputs[chan as int].capacity_spec() == self.delay,
                inputs[chan as int]@ == start.heard,
                outputs[chan as int].wf(),
                outputs[chan as int].capacity_spec() == self.delay,
                outputs[chan as int]@ == start.said,
                self.delay == start.delay,
                self.gain == start.gain,
                less == start.gain.negated_spec(),
                self.output@ == start.run(input@.take(i as int)),
            decreases n - i,
        {
            proof {
                start.lemma_run_len(input@.take(i as int));
                start.lemma_run_push(input@.take(i as int), input@[i as int]);
                assert(input@.take(i as int).push(input@[i as int]) =~= input@.take(i + 1));
                assert(self.output@.take(i as int) =~= self.output@);
            }
            let in_delay = match self.prev_input[chan].read_delayed(i, input) {
                None => S::zero(),
                Some(v) => v,
            };
            let out_delay = match self.prev_output[chan].read_delayed(i, self.output.as_slice()) {
                None => S::zero(),
                Some(v) => self.gain.times(v),
            };
            let value = less.times(input[i]).plus(in_delay).plus(out_delay);
            self.output.push(value);
            i += 1;
        }
        assert(input@.take(n as int) =~= input@);
        proof {
            start.lemma_run_len(input@);
        }
        self.prev_input[chan].commit(input);
        self.prev_output[chan].commit(self.output.as_slice());
        Ok(())
    }
}

} // verus!
