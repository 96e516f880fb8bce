//! The feedback comb filter.

use vstd::prelude::*;
use crate::error::FilterError;
use crate::history::DelayHistory;
use crate::sample::{impulse, power, silent, unit, Sample};
use crate::stream::{advance_in_blocks, concat_blocks, law_chunk_invariance, Streaming};
use crate::window::{delayed, lemma_delayed_through_window, lemma_trailing_concat, trailing};

verus! {

/// No sample of the block is louder than `bound`, where `norm` measures
/// loudness.
pub open spec fn bounded<S>(block: Seq<S>, norm: spec_fn(S) -> nat, bound: nat) -> bool {
    forall|i: int| 0 <= i < block.len() ==> norm(#[trigger] block[i]) <= bound
}

/// What a comb filter holds for one channel: its two parameters and the
/// tail of the signal it has put out, oldest sample first.
pub struct CombState<S> {
    pub delay: nat,
    pub gain: S,
    pub tail: Seq<S>,
}

impl<S: Sample> CombState<S> {
    /// The state of a channel that has not put out anything yet.
    pub open spec fn fresh(delay: nat, gain: S) -> Self {
        CombState { delay, gain, tail: Seq::empty() }
    }

    /// The echo that is added to the next input sample, where `past` is all
    /// the filter has put out so far: nothing while the output is younger
    /// than `delay`, else the output of `delay` samples ago times the gain.
    pub open spec fn echo(self, past: Seq<S>) -> S {
        match delayed(past, self.delay) {
            None => S::zero_spec(),
            Some(v) => self.gain.times_spec(v),
        }
    }

    /// `output[i] = input[i] + gain * output[i - delay]`, with the tail
    /// standing in for the output of earlier calls.
    pub open spec fn run(self, input: Seq<S>) -> Seq<S>
        decreases input.len(),
    {
        if input.len() == 0 {
            Seq::empty()
        } else {
            let before = self.run(input.drop_last());
            before.push(input.last().plus_spec(self.echo(self.tail + before)))
        }
    }

    /// The output has one sample for each input sample.
    pub proof fn lemma_run_len(self, input: Seq<S>)
        ensures
            self.run(input).len() == input.len(),
        decreases input.len(),
    {
        if input.len() > 0 {
            self.lemma_run_len(input.drop_last());
        }
    }

    /// The output for one more input sample extends the output so far.
    pub proof fn lemma_run_push(self, input: Seq<S>, x: S)
        ensures
            self.run(input.push(x)) == self.run(input).push(
                x.plus_spec(self.echo(self.tail + self.run(input))),
            ),
    {
        assert(input.push(x).drop_last() =~= input);
    }

    /// The output so far does not change when more input follows.
    pub proof fn lemma_run_prefix(self, input: Seq<S>, k: int)
        requires
            0 <= k <= input.len(),
        ensures
            self.run(input.take(k)) == self.run(input).take(k),
        decreases input.len(),
    {
        self.lemma_run_len(input);
        if k == input.len() {
            assert(input.take(k) =~= input);
            assert(self.run(input).take(k) =~= self.run(input));
        } else {
            self.lemma_run_prefix(input.drop_last(), k);
            self.lemma_run_len(input.drop_last());
            assert(input.drop_last().take(k) =~= input.take(k));
            assert(self.run(input).take(k) =~= self.run(input.drop_last()).take(k));
        }
    }

    /// Sample `i` of the output is the input sample plus the echo of what
    /// was put out before it.
    pub proof fn lemma_run_at(self, input: Seq<S>, i: int)
        requires
            0 <= i < input.len(),
        ensures
            self.run(input).len() == input.len(),
            self.run(input)[i] == input[i].plus_spec(
                self.echo(self.tail + self.run(input).take(i)),
            ),
    {
        self.lemma_run_len(input);
        self.lemma_run_prefix(input, i);
        self.lemma_run_prefix(input, i + 1);
        self.lemma_run_push(input.take(i), input[i]);
        assert(input.take(i).push(input[i]) =~= input.take(i + 1));
        self.lemma_run_len(input.take(i));
        assert(self.run(input)[i] == self.run(input).take(i + 1)[i]);
    }

    /// Bounded memory: after a block the filter retains the samples it had
    /// and the block's, but never more than `delay` of them.
    pub proof fn law_bounded_memory(self, input: Seq<S>)
        requires
            self.valid(),
        ensures
            self.advance(input).tail.len() == if self.tail.len() + input.len() <= self.delay {
                self.tail.len() + input.len()
            } else {
                self.delay
            },
            self.advance(input).tail.len() <= self.delay,
    {
        self.lemma_run_len(input);
    }

    /// A filter that started fresh retains as many samples as it has taken
    /// in, in however many blocks, up to `delay` and no more.
    pub proof fn law_retained_after_blocks(delay: nat, gain: S, blocks: Seq<Seq<S>>)
        requires
            delay >= 1,
            gain.is_gain_spec(),
        ensures
            advance_in_blocks(Self::fresh(delay, gain), blocks).tail.len() == if concat_blocks(
                blocks,
            ).len() <= delay {
                concat_blocks(blocks).len()
            } else {
                delay
            },
    {
        law_chunk_invariance(Self::fresh(delay, gain), blocks);
        Self::fresh(delay, gain).law_bounded_memory(concat_blocks(blocks));
    }

    /// The arithmetic facts that keep a silent filter silent: silence plus
    /// silence is silence, and the gain times silence is silence.
    pub open spec fn quiet(self) -> bool {
        &&& S::zero_spec().plus_spec(S::zero_spec()) == S::zero_spec()
        &&& self.gain.times_spec(S::zero_spec()) == S::zero_spec()
    }

    /// Silence in, silence out: a filter that retains only silence answers
    /// silence with silence and retains only silence afterwards, provided
    /// the arithmetic is `quiet`.
    pub proof fn law_silence(self, input: Seq<S>)
        requires
            self.valid(),
            self.quiet(),
            silent(self.tail),
            silent(input),
        ensures
            silent(self.run(input)),
            silent(self.advance(input).tail),
        decreases input.len(),
    {
        self.lemma_run_len(input);
        if input.len() > 0 {
            let earlier = input.drop_last();
            self.law_silence(earlier);
            self.lemma_run_len(earlier);
            let past = self.tail + self.run(earlier);
            assert(silent(past));
            assert(self.echo(past) == S::zero_spec());
        }
        assert(silent(self.tail + self.run(input)));
    }

    /// What makes the feedback die away, for a measure of loudness `norm`:
    /// silence is not loud, a sum is no louder than its terms together, and
    /// a product by the gain is at most `num / den` as loud as the other
    /// factor, a fraction below one.
    pub open spec fn damps(self, norm: spec_fn(S) -> nat, num: nat, den: nat) -> bool {
        &&& num < den
        &&& norm(S::zero_spec()) == 0
        &&& forall|a: S, b: S| #[trigger] norm(a.plus_spec(b)) <= norm(a) + norm(b)
        &&& forall|x: S| #[trigger] norm(self.gain.times_spec(x)) * den <= num * norm(x)
    }

    /// Stability: if the feedback `damps` by `num / den`, what the filter
    /// retains is within `bound`, the input is within `peak`, and `bound`
    /// leaves room for the peak on top of its own damped echo, then the
    /// output is within `bound` and so is what the filter retains
    /// afterwards. The bound depends on neither the length of the input
    /// nor on how much the filter has taken in before.
    pub proof fn law_stability(
        self,
        input: Seq<S>,
        norm: spec_fn(S) -> nat,
        num: nat,
        den: nat,
        peak: nat,
        bound: nat,
    )
        requires
            self.valid(),
            self.damps(norm, num, den),
            bounded(self.tail, norm, bound),
            bounded(input, norm, peak),
            peak * den + num * bound <= bound * den,
        ensures
            bounded(self.run(input), norm, bound),
            bounded(self.advance(input).tail, norm, bound),
        decreases input.len(),
    {
        self.lemma_run_len(input);
        if input.len() > 0 {
            let earlier = input.drop_last();
            self.law_stability(earlier, norm, num, den, peak, bound);
            self.lemma_run_len(earlier);
            let past = self.tail + self.run(earlier);
            assert(bounded(past, norm, bound));
            let echo = self.echo(past);
            assert(norm(echo) * den <= num * bound) by {
                if self.delay <= past.len() {
                    let v = past[past.len() - self.delay];
                    assert(echo == self.gain.times_spec(v));
                    assert(norm(self.gain.times_spec(v)) * den <= num * norm(v));
                    assert(num * norm(v) <= num * bound) by (nonlinear_arith)
                        requires
                            norm(v) <= bound,
                    ;
                } else {
                    assert(echo == S::zero_spec());
                    assert(norm(echo) * den == 0) by (nonlinear_arith)
                        requires
                            norm(echo) == 0,
                    ;
                    assert(0 <= num * bound) by (nonlinear_arith);
                }
            }
            let out = input.last().plus_spec(echo);
            assert(norm(out) <= norm(input.last()) + norm(echo));
            assert(norm(out) <= bound) by (nonlinear_arith)
                requires
                    norm(out) <= norm(input.last()) + norm(echo),
                    norm(input.last()) <= peak,
                    norm(echo) * den <= num * bound,
                    peak * den + num * bound <= bound * den,
                    den > 0,
            ;
        }
        assert(bounded(self.tail + self.run(input), norm, bound));
    }

    /// The arithmetic facts behind the impulse response: the filter is
    /// `quiet`, and adding silence changes neither one nor any power of the
    /// gain.
    pub open spec fn plain_powers(self) -> bool {
        let z = S::zero_spec();
        &&& self.quiet()
        &&& unit::<S>().plus_spec(z) == unit::<S>()
        &&& forall|k: nat| k >= 1 ==> z.plus_spec(#[trigger] power(self.gain, k)) == power(self.gain, k)
    }

    /// The impulse response: a fresh filter answers the unit impulse with
    /// `gain` to the power `k` at position `k * delay`, for every `k`, and
    /// with silence everywhere else, provided the arithmetic has
    /// `plain_powers`.
    pub proof fn law_impulse_response(delay: nat, gain: S, len: nat)
        requires
            delay >= 1,
            Self::fresh(delay, gain).plain_powers(),
        ensures
            Self::fresh(delay, gain).run(impulse(len)).len() == len,
            forall|i: int|
                0 <= i < len ==> #[trigger] Self::fresh(delay, gain).run(impulse(len))[i] == if i
                    % (delay as int) == 0 {
                    power(gain, (i / (delay as int)) as nat)
                } else {
                    S::zero_spec()
                },
        decreases len,
    {
        let f = Self::fresh(delay, gain);
        let d = delay as int;
        f.lemma_run_len(impulse::<S>(len));
        if len > 0 {
            let shorter = (len - 1) as nat;
            Self::law_impulse_response(delay, gain, shorter);
            assert(impulse::<S>(len).take(len - 1) =~= impulse::<S>(shorter));
            f.lemma_run_prefix(impulse::<S>(len), len - 1);
            let out = f.run(impulse::<S>(len));
            let last = len - 1;
            f.lemma_run_at(impulse::<S>(len), last);
            let past = f.tail + out.take(last);
            assert(past =~= out.take(last));
            assert(out[last] == if last % d == 0 {
                power(gain, (last / d) as nat)
            } else {
                S::zero_spec()
            }) by {
                if last < d {
                    vstd::arithmetic::div_mod::lemma_small_mod(last as nat, delay);
                    vstd::arithmetic::div_mod::lemma_basic_div(last, d);
                } else {
                    let back = last - d;
                    assert(past[back] == out[back]);
                    vstd::arithmetic::div_mod::lemma_mod_sub_multiples_vanish(last, d);
                    vstd::arithmetic::div_mod::lemma_div_plus_one(back, d);
                    vstd::arithmetic::div_mod::lemma_div_pos_is_pos(back, d);
                    assert(back % d == last % d);
                    assert(last / d == back / d + 1);
                    assert(power(gain, (last / d) as nat) == gain.times_spec(
                        power(gain, (back / d) as nat),
                    ));
                }
            }
            assert forall|i: int| 0 <= i < len implies #[trigger] out[i] == if i % d == 0 {
                power(gain, (i / d) as nat)
            } else {
                S::zero_spec()
            } by {
                if i < last {
                    assert(out[i] == out.take(last)[i]);
                }
            }
        }
    }
}

impl<S: Sample> Streaming<S> for CombState<S> {
    open spec fn valid(self) -> bool {
        &&& self.delay >= 1
        &&& self.gain.is_gain_spec()
        &&& self.tail.len() <= self.delay
    }

    open spec fn response(self, input: Seq<S>) -> Seq<S> {
        self.run(input)
    }

    open spec fn advance(self, input: Seq<S>) -> Self {
        CombState {
            delay: self.delay,
            gain: self.gain,
            tail: trailing(self.tail + self.run(input), self.delay),
        }
    }

    proof fn law_split(self, a: Seq<S>, b: Seq<S>)
        decreases b.len(),
    {
        let next = self.advance(a);
        self.lemma_run_len(a);
        if b.len() == 0 {
            assert(a + b =~= a);
            assert(self.run(a) + next.run(b) =~= self.run(a));
            assert(next.tail + next.run(b) =~= next.tail);
        } else {
            let b0 = b.drop_last();
            self.law_split(a, b0);
            assert((a + b).drop_last() =~= a + b0);
            let joined = self.run(a) + next.run(b0);
            assert(self.tail + joined =~= (self.tail + self.run(a)) + next.run(b0));
            lemma_delayed_through_window(
                self.tail + self.run(a),
                next.run(b0),
                self.delay,
                self.delay,
            );
            assert(self.run(a + b) =~= self.run(a) + next.run(b));
            lemma_trailing_concat(self.tail + self.run(a), next.run(b), self.delay);
            assert(self.tail + (self.run(a) + next.run(b)) =~= (self.tail + self.run(a))
                + next.run(b));
        }
    }

    proof fn law_idle(self) {
        assert(self.tail + self.run(Seq::empty()) =~= self.tail);
    }
}

/// A feedback comb filter: every sample it puts out comes back, `delay`
/// samples later and scaled by `gain`, on top of the input.
///
/// Channels are told apart by index and come into being on first use, in
/// order from zero. Each has a history of its own.
pub struct Comb<S> {
    output: Vec<S>,
    delay: usize,
    gain: S,
    prev_output: Vec<DelayHistory<S>>,
}

impl<S: Sample> Comb<S> {
    /// The delay, in samples.
    pub closed spec fn delay_spec(&self) -> nat {
        self.delay as nat
    }

    /// The feedback gain.
    pub closed spec fn gain_spec(&self) -> S {
        self.gain
    }

    /// The number of channels that have been used.
    pub closed spec fn channels_spec(&self) -> nat {
        self.prev_output@.len()
    }

    /// The block that the last call put out.
    pub closed spec fn produced(&self) -> Seq<S> {
        self.output@
    }

    /// The state of channel `c`. A channel that has not been used is fresh.
    pub closed spec fn state(&self, c: int) -> CombState<S> {
        CombState {
            delay: self.delay as nat,
            gain: self.gain,
            tail: if 0 <= c < self.prev_output@.len() {
                self.prev_output@[c]@
            } else {
                Seq::empty()
            },
        }
    }

    /// The parameters are in range, and each channel's history is a
    /// consistent window of `delay` samples at most.
    pub closed spec fn wf(&self) -> bool {
        &&& self.delay >= 1
        &&& self.gain.is_gain_spec()
        &&& self.prev_output@.len() <= 256
        &&& forall|c: int|
            0 <= c < self.prev_output@.len() ==> (#[trigger] self.prev_output@[c]).wf()
                && self.prev_output@[c].capacity_spec() == self.delay
    }

    /// Every channel of a well-formed filter is in a valid state with the
    /// filter's parameters: none retains more than `delay` samples.
    pub proof fn lemma_state_valid(&self, c: int)
        requires
            self.wf(),
        ensures
            self.state(c).valid(),
            self.state(c).delay == self.delay_spec(),
            self.state(c).gain == self.gain_spec(),
            c < 0 || c >= self.channels_spec() ==> self.state(c) == CombState::fresh(
                self.delay_spec(),
                self.gain_spec(),
            ),
    {
        if 0 <= c < self.prev_output@.len() {
            self.prev_output@[c].lemma_bounded();
        }
    }

    /// A filter without channels. A zero delay is refused, then a gain
    /// outside `0 <= gain < 1`.
    pub fn new(delay: usize, gain: S) -> (r: Result<Self, FilterError>)
        ensures
            delay == 0 ==> r == Err::<Self, FilterError>(FilterError::ZeroDelay),
            delay > 0 && !gain.is_gain_spec() ==> r == Err::<Self, FilterError>(
                FilterError::GainOutOfRange,
            ),
            delay > 0 && gain.is_gain_spec() ==> r is Ok,
            r is Ok ==> {
                let f = r->Ok_0;
                &&& f.wf()
                &&& f.delay_spec() == delay
                &&& f.gain_spec() == gain
                &&& f.channels_spec() == 0
                &&& f.produced() == Seq::<S>::empty()
                &&& forall|c: int| #[trigger] f.state(c) == CombState::fresh(delay as nat, gain)
            },
    {
        if delay == 0 {
            return Err(FilterError::ZeroDelay);
        }
        if !gain.is_gain() {
            return Err(FilterError::GainOutOfRange);
        }
        Ok(Comb { output: Vec::new(), delay, gain, prev_output: Vec::new() })
    }

    /// Changes the delay and forgets every channel: the filter is as if
    /// newly made with the new delay and the old gain. A zero delay is
    /// refused and changes nothing.
    pub fn reset(&mut self, delay: usize) -> (r: Result<(), FilterError>)
        requires
            old(self).wf(),
        ensures
            final(self).wf(),
            final(self).gain_spec() == old(self).gain_spec(),
            delay == 0 ==> r == Err::<(), FilterError>(FilterError::ZeroDelay) && *final(self)
                == *old(self),
            delay > 0 ==> {
                &&& r is Ok
                &&& final(self).delay_spec() == delay
                &&& final(self).channels_spec() == 0
                &&& final(self).produced() == Seq::<S>::empty()
                &&& forall|c: int| #[trigger]
                    final(self).state(c) == CombState::fresh(delay as nat, old(self).gain_spec())
            },
    {
        if delay == 0 {
            return Err(FilterError::ZeroDelay);
        }
        self.delay = delay;
        self.prev_output = Vec::new();
        self.output.clear();
        Ok(())
    }

    /// The delay, in samples.
    pub fn delay(&self) -> (r: usize)
        ensures
            r == self.delay_spec(),
    {
        self.delay
    }

    /// The gain.
    pub fn gain(&self) -> (r: S)
        ensures
            r == self.gain_spec(),
    {
        self.gain
    }

    /// The number of channels that have been used.
    pub fn channels(&self) -> (r: usize)
        ensures
            r == self.channels_spec(),
    {
        self.prev_output.len()
    }

    /// The number of samples retained for channel `chan`.
    pub fn retained(&self, chan: u8) -> (r: usize)
        ensures
            r == self.state(chan as int).tail.len(),
    {
        if (chan as usize) < self.prev_output.len() {
            self.prev_output[chan as usize].len()
        } else {
            0
        }
    }

    /// The block that the last call of `process` put out.
    pub fn output(&self) -> (r: &Vec<S>)
        ensures
            r@ == self.produced(),
    {
        &self.output
    }

    /// Filters one block of channel `chan`:
    /// `output[i] = input[i] + gain * output[i - delay]`, where the output
    /// of earlier calls on this channel counts as earlier output.
    ///
    /// `chan` must be a channel already used or the next unused one;
    /// anything above is refused with `ChannelGap` and changes nothing. The
    /// block may be empty: the channel then counts as used and nothing else
    /// changes.
    pub fn process(&mut self, input: &[S], chan: u8) -> (r: Result<(), FilterError>)
        requires
            old(self).wf(),
        ensures
            final(self).wf(),
            final(self).delay_spec() == old(self).delay_spec(),
            final(self).gain_spec() == old(self).gain_spec(),
            chan > old(self).channels_spec() ==> r == Err::<(), FilterError>(
                FilterError::ChannelGap,
            ) && *final(self) == *old(self),
            chan <= old(self).channels_spec() ==> {
                &&& r is Ok
                &&& final(self).produced() == old(self).state(chan as int).response(input@)
                &&& final(self).produced().len() == input@.len()
                &&& final(self).state(chan as int) == old(self).state(chan as int).advance(input@)
                &&& final(self).channels_spec() == if chan == old(self).channels_spec() {
                    old(self).channels_spec() + 1
                } else {
                    old(self).channels_spec()
                }
                &&& forall|c: int| c != chan ==> #[trigger] final(self).state(c) == old(self).state(c)
            },
    {
        let chan: usize = chan as usize;
        if chan > self.prev_output.len() {
            return Err(FilterError::ChannelGap);
        }
        if chan == self.prev_output.len() {
            match DelayHistory::new(self.delay) {
                Ok(h) => self.prev_output.push(h),
                Err(e) => return Err(e),
            }
        }
        let ghost start = old(self).state(chan as int);
        let ghost histories = self.prev_output@;
        assert(histories[chan as int]@ == start.tail);
        self.output.clear();
        let n: usize = input.len();
        let mut i: usize = 0;
        assert(input@.take(0) =~= Seq::<S>::empty());
        while i < n
            invariant
                n == input@.len(),
                i <= n,
                chan < self.prev_output@.len(),
                self.prev_output@ == histories,
                histories[chan as int].wf(),
                histories[chan as int].capacity_spec() == self.delay,
                histories[chan as int]@ == start.tail,
                self.delay == start.delay,
                self.gain == start.gain,
                self.output@ == start.run(input@.take(i as int)),
            decreases n - i,
        {
            proof {
                start.lemma_run_len(input@.take(i as int));
                start.lemma_run_push(input@.take(i as int), input@[i as int]);
                assert(input@.take(i as int).push(input@[i as int]) =~= input@.take(i + 1));
                assert(self.output@.take(i as int) =~= self.output@);
            }
            let echo = match self.prev_output[chan].read_delayed(i, self.output.as_slice()) {
                None => S::zero(),
                Some(v) => self.gain.times(v),
            };
            let value = input[i].plus(echo);
            self.output.push(value);
            i += 1;
        }
        assert(input@.take(n as int) =~= input@);
        proof {
            start.lemma_run_len(input@);
        }
        self.prev_output[chan].commit(self.output.as_slice());
        Ok(())
    }
}

} // verus!
