//! The reverberator: four combs side by side, their mean through two
//! allpasses in a row.
//!
//! ```text
//!            +-------+
//!         +->| comb1 |--+
//!         |  +-------+  |
//!         +->| comb2 |--+   +------+   +----------+   +----------+
//! input --+  +-------+  +-->| mean |-->| allpass1 |-->| allpass2 |--> output
//!         +->| comb3 |--+   +------+   +----------+   +----------+
//!         |  +-------+  |
//!         +->| comb4 |--+
//!            +-------+
//! ```

use vstd::prelude::*;
use crate::allpass::{AllPass, AllPassState};
use crate::comb::{Comb, CombState};
use crate::error::FilterError;
use crate::sample::{silent, Sample};
use crate::stream::{
    advance_in_blocks, concat_blocks, law_chunk_invariance, response_in_blocks, Streaming,
};

verus! {

/// The sample rate, in hertz, at which the base delays below apply.
pub const BASE_SAMPLE_RATE: u32 = 44100;

/// The delays of the four combs at the base sample rate, in samples.
pub const COMB1_DELAY: u16 = 1621;

pub const COMB2_DELAY: u16 = 1400;

pub const COMB3_DELAY: u16 = 1819;

pub const COMB4_DELAY: u16 = 1843;

/// The delays of the two allpasses at the base sample rate, in samples.
pub const ALLPASS1_DELAY: u16 = 451;

pub const ALLPASS2_DELAY: u16 = 199;

/// The gains of the four combs, in thousandths.
pub const COMB1_GAIN: u16 = 876;

pub const COMB2_GAIN: u16 = 900;

pub const COMB3_GAIN: u16 = 852;

pub const COMB4_GAIN: u16 = 831;

/// The gain of either allpass, in thousandths.
pub const ALLPASS_GAIN: u16 = 700;

/// What the gains above are fractions of.
pub const GAIN_SCALE: u16 = 1000;

/// The integer nearest to `n / d`, halves rounded up.
pub open spec fn nearest_quotient(n: nat, d: nat) -> nat {
    (2 * n + d) / (2 * d)
}

/// The delay that stands for `base` samples at the base rate when the
/// stream runs at `rate`: `base * rate / 44100`, rounded to the nearest
/// whole number of samples, and one sample at least.
pub open spec fn scaled_delay(base: nat, rate: nat) -> nat {
    let q = nearest_quotient(base * rate, BASE_SAMPLE_RATE as nat);
    if q == 0 {
        1
    } else {
        q
    }
}

/// `nearest_quotient(n, d)` is an integer nearest to `n / d`: it is off by
/// half at most.
pub proof fn lemma_nearest_quotient(n: nat, d: nat)
    requires
        d > 0,
    ensures
        2 * (nearest_quotient(n, d) * d - n) <= d,
        2 * (n - nearest_quotient(n, d) * d) <= d,
{
    let q = nearest_quotient(n, d);
    let m = 2 * n + d;
    let e = 2 * d;
    assert(m == e * (m / e) + m % e && 0 <= m % e < e) by {
        vstd::arithmetic::div_mod::lemma_fundamental_div_mod(m as int, e as int);
        vstd::arithmetic::div_mod::lemma_mod_bound(m as int, e as int);
    }
    assert(e * q == 2 * (q * d)) by (nonlinear_arith)
        requires
            e == 2 * d,
    ;
}

/// A scaled delay is the base delay times `rate / 44100`, rounded: it
/// differs from that product by half a sample at most, unless the product
/// is below half a sample, where the delay is one sample.
pub proof fn law_scaled_delay_is_rounded(base: nat, rate: nat)
    ensures
        scaled_delay(base, rate) >= 1,
        2 * (base * rate) >= BASE_SAMPLE_RATE ==> {
            &&& 2 * (scaled_delay(base, rate) * BASE_SAMPLE_RATE - base * rate) <= BASE_SAMPLE_RATE
            &&& 2 * (base * rate - scaled_delay(base, rate) * BASE_SAMPLE_RATE) <= BASE_SAMPLE_RATE
        },
        2 * (base * rate) < BASE_SAMPLE_RATE ==> scaled_delay(base, rate) == 1,
{
    lemma_nearest_quotient(base * rate, BASE_SAMPLE_RATE as nat);
    let m = 2 * (base * rate) + BASE_SAMPLE_RATE as nat;
    let e = 2 * BASE_SAMPLE_RATE as nat;
    if 2 * (base * rate) < BASE_SAMPLE_RATE {
        vstd::arithmetic::div_mod::lemma_basic_div(m as int, e as int);
    } else {
        vstd::arithmetic::div_mod::lemma_div_non_zero(m as int, e as int);
    }
}

/// At the base rate every delay is the base delay.
pub proof fn law_base_rate_keeps_delays(base: nat)
    requires
        base >= 1,
    ensures
        scaled_delay(base, BASE_SAMPLE_RATE as nat) == base,
{
    let d = BASE_SAMPLE_RATE as nat;
    assert(2 * (base * d) + d == base * (2 * d) + d) by (nonlinear_arith);
    vstd::arithmetic::div_mod::lemma_fundamental_div_mod_converse(
        (2 * (base * d) + d) as int,
        (2 * d) as int,
        base as int,
        d as int,
    );
}

/// `scaled_delay` for the base delays of this network, none of which
/// exceeds 2048 samples.
fn scale_delay(base: u16, rate: u32) -> (r: usize)
    requires
        base <= 2048,
    ensures
        r == scaled_delay(base as nat, rate as nat),
        r >= 1,
{
    assert(base * rate <= 2048 * 0xffff_ffff) by (nonlinear_arith)
        requires
            base <= 2048,
            rate <= 0xffff_ffff,
    ;
    let n: u64 = (base as u64) * (rate as u64);
    let q: u64 = (2 * n + 44100) / 88200;
    if q == 0 {
        1
    } else {
        q as usize
    }
}

/// The mean of four samples: their sum from left to right, times a quarter.
pub open spec fn mean_of_four<S: Sample>(a: S, b: S, c: S, d: S) -> S {
    a.plus_spec(b).plus_spec(c).plus_spec(d).times_spec(S::ratio_spec(1, 4))
}

/// The sample-wise mean of four blocks of one length.
pub open spec fn mix<S: Sample>(a: Seq<S>, b: Seq<S>, c: Seq<S>, d: Seq<S>) -> Seq<S> {
    Seq::new(a.len(), |i: int| mean_of_four(a[i], b[i], c[i], d[i]))
}

/// Silent blocks joined end to end are silent.
pub proof fn lemma_silent_blocks<S: Sample>(blocks: Seq<Seq<S>>)
    requires
        forall|k: int| 0 <= k < blocks.len() ==> silent(#[trigger] blocks[k]),
    ensures
        silent(concat_blocks(blocks)),
    decreases blocks.len(),
{
    if blocks.len() > 0 {
        lemma_silent_blocks(blocks.drop_last());
        assert(silent(blocks.last()));
    }
}

/// Whether the network's gains are valid gains in the arithmetic of `S`.
pub open spec fn gains_valid<S: Sample>() -> bool {
    &&& S::ratio_spec(COMB1_GAIN, GAIN_SCALE).is_gain_spec()
    &&& S::ratio_spec(COMB2_GAIN, GAIN_SCALE).is_gain_spec()
    &&& S::ratio_spec(COMB3_GAIN, GAIN_SCALE).is_gain_spec()
    &&& S::ratio_spec(COMB4_GAIN, GAIN_SCALE).is_gain_spec()
    &&& S::ratio_spec(ALLPASS_GAIN, GAIN_SCALE).is_gain_spec()
}

/// What the network holds for one channel: the states of its six filters.
pub struct NetworkState<S> {
    pub comb1: CombState<S>,
    pub comb2: CombState<S>,
    pub comb3: CombState<S>,
    pub comb4: CombState<S>,
    pub ap1: AllPassState<S>,
    pub ap2: AllPassState<S>,
}

impl<S: Sample> NetworkState<S> {
    /// The state of a channel that has not taken in anything yet, in a
    /// network that runs at `rate`: the six filters fresh, with their base
    /// delays scaled to the rate and their gains as they are.
    pub open spec fn fresh(rate: nat) -> Self {
        NetworkState {
            comb1: CombState::fresh(
                scaled_delay(COMB1_DELAY as nat, rate),
                S::ratio_spec(COMB1_GAIN, GAIN_SCALE),
            ),
            comb2: CombState::fresh(
                scaled_delay(COMB2_DELAY as nat, rate),
                S::ratio_spec(COMB2_GAIN, GAIN_SCALE),
            ),
            comb3: CombState::fresh(
                scaled_delay(COMB3_DELAY as nat, rate),
                S::ratio_spec(COMB3_GAIN, GAIN_SCALE),
            ),
            comb4: CombState::fresh(
                scaled_delay(COMB4_DELAY as nat, rate),
                S::ratio_spec(COMB4_GAIN, GAIN_SCALE),
            ),
            ap1: AllPassState::fresh(
                scaled_delay(ALLPASS1_DELAY as nat, rate),
                S::ratio_spec(ALLPASS_GAIN, GAIN_SCALE),
            ),
            ap2: AllPassState::fresh(
                scaled_delay(ALLPASS2_DELAY as nat, rate),
                S::ratio_spec(ALLPASS_GAIN, GAIN_SCALE),
            ),
        }
    }

    /// The state has the delays and gains of a network that runs at `rate`.
    pub open spec fn tuned_to(self, rate: nat) -> bool {
        let f = Self::fresh(rate);
        &&& self.comb1.delay == f.comb1.delay && self.comb1.gain == f.comb1.gain
        &&& self.comb2.delay == f.comb2.delay && self.comb2.gain == f.comb2.gain
        &&& self.comb3.delay == f.comb3.delay && self.comb3.gain == f.comb3.gain
        &&& self.comb4.delay == f.comb4.delay && self.comb4.gain == f.comb4.gain
        &&& self.ap1.delay == f.ap1.delay && self.ap1.gain == f.ap1.gain
        &&& self.ap2.delay == f.ap2.delay && self.ap2.gain == f.ap2.gain
    }

    /// The mean of what the four combs answer to `input`.
    pub open spec fn comb_mean(self, input: Seq<S>) -> Seq<S> {
        mix(
            self.comb1.response(input),
            self.comb2.response(input),
            self.comb3.response(input),
            self.comb4.response(input),
        )
    }

    /// The mean of the combs' outputs has one sample for each input sample.
    pub proof fn lemma_comb_mean_len(self, input: Seq<S>)
        ensures
            self.comb_mean(input).len() == input.len(),
    {
        self.comb1.lemma_run_len(input);
    }

    /// The output has one sample for each input sample.
    pub proof fn lemma_response_len(self, input: Seq<S>)
        ensures
            self.response(input).len() == input.len(),
    {
        self.lemma_comb_mean_len(input);
        self.ap1.lemma_run_len(self.comb_mean(input));
        self.ap2.lemma_run_len(self.ap1.response(self.comb_mean(input)));
    }

    /// Bounded memory: after a block none of the six filters retains more
    /// than its delay.
    pub proof fn law_bounded_memory(self, input: Seq<S>)
        requires
            self.valid(),
        ensures
            self.advance(input).comb1.tail.len() <= self.comb1.delay,
            self.advance(input).comb2.tail.len() <= self.comb2.delay,
            self.advance(input).comb3.tail.len() <= self.comb3.delay,
            self.advance(input).comb4.tail.len() <= self.comb4.delay,
            self.advance(input).ap1.heard.len() <= self.ap1.delay,
            self.advance(input).ap1.said.len() <= self.ap1.delay,
            self.advance(input).ap2.heard.len() <= self.ap2.delay,
            self.advance(input).ap2.said.len() <= self.ap2.delay,
    {
        self.law_split(input, Seq::empty());
    }

    /// Nothing audible is retained in any of the six filters.
    pub open spec fn at_rest(self) -> bool {
        &&& silent(self.comb1.tail)
        &&& silent(self.comb2.tail)
        &&& silent(self.comb3.tail)
        &&& silent(self.comb4.tail)
        &&& silent(self.ap1.heard)
        &&& silent(self.ap1.said)
        &&& silent(self.ap2.heard)
        &&& silent(self.ap2.said)
    }

    /// The arithmetic facts that keep a silent network silent: those of its
    /// six filters, and that the mean of four silent samples is silence.
    pub open spec fn quiet(self) -> bool {
        let z = S::zero_spec();
        &&& self.comb1.quiet()
        &&& self.comb2.quiet()
        &&& self.comb3.quiet()
        &&& self.comb4.quiet()
        &&& self.ap1.quiet()
        &&& self.ap2.quiet()
        &&& mean_of_four(z, z, z, z) == z
    }

    /// Silence in, silence out: a network at rest answers silence with
    /// silence and stays at rest, provided the arithmetic is `quiet`.
    pub proof fn law_silence(self, input: Seq<S>)
        requires
            self.valid(),
            self.quiet(),
            self.at_rest(),
            silent(input),
        ensures
            silent(self.response(input)),
            self.advance(input).at_rest(),
    {
        self.comb1.law_silence(input);
        self.comb2.law_silence(input);
        self.comb3.law_silence(input);
        self.comb4.law_silence(input);
        self.comb1.lemma_run_len(input);
        self.comb2.lemma_run_len(input);
        self.comb3.lemma_run_len(input);
        self.comb4.lemma_run_len(input);
        assert(silent(self.comb_mean(input)));
        self.ap1.law_silence(self.comb_mean(input));
        self.ap2.law_silence(self.ap1.response(self.comb_mean(input)));
    }

    /// Silence over any number of calls: a network at rest that is fed
    /// silent blocks, however many, answers each with silence and ends at
    /// rest, provided the arithmetic is `quiet`.
    pub proof fn law_silence_in_blocks(self, blocks: Seq<Seq<S>>)
        requires
            self.valid(),
            self.quiet(),
            self.at_rest(),
            forall|k: int| 0 <= k < blocks.len() ==> silent(#[trigger] blocks[k]),
        ensures
            silent(response_in_blocks(self, blocks)),
            advance_in_blocks(self, blocks).at_rest(),
    {
        lemma_silent_blocks(blocks);
        law_chunk_invariance(self, blocks);
        self.law_silence(concat_blocks(blocks));
    }

    /// No tail after a change of rate: a fresh network, as a change of
    /// sample rate leaves every channel, answers silence with silence,
    /// whatever it had retained before, provided the gains are valid and
    /// the arithmetic is `quiet`.
    pub proof fn law_fresh_answers_silence(rate: nat, input: Seq<S>)
        requires
            gains_valid::<S>(),
            Self::fresh(rate).quiet(),
            silent(input),
        ensures
            Self::fresh(rate).valid(),
            silent(Self::fresh(rate).response(input)),
    {
        Self::fresh(rate).law_silence(input);
    }
}

impl<S: Sample> Streaming<S> for NetworkState<S> {
    open spec fn valid(self) -> bool {
        &&& self.comb1.valid()
        &&& self.comb2.valid()
        &&& self.comb3.valid()
        &&& self.comb4.valid()
        &&& self.ap1.valid()
        &&& self.ap2.valid()
    }

    open spec fn response(self, input: Seq<S>) -> Seq<S> {
        self.ap2.response(self.ap1.response(self.comb_mean(input)))
    }

    open spec fn advance(self, input: Seq<S>) -> Self {
        NetworkState {
            comb1: self.comb1.advance(input),
            comb2: self.comb2.advance(input),
            comb3: self.comb3.advance(input),
            comb4: self.comb4.advance(input),
            ap1: self.ap1.advance(self.comb_mean(input)),
            ap2: self.ap2.advance(self.ap1.response(self.comb_mean(input))),
        }
    }

    proof fn law_split(self, a: Seq<S>, b: Seq<S>) {
        let next = self.advance(a);
        self.comb1.law_split(a, b);
        self.comb2.law_split(a, b);
        self.comb3.law_split(a, b);
        self.comb4.law_split(a, b);
        next.comb1.lemma_run_len(b);
        next.comb2.lemma_run_len(b);
        next.comb3.lemma_run_len(b);
        next.comb4.lemma_run_len(b);
        assert(self.comb_mean(a + b) =~= self.comb_mean(a) + next.comb_mean(b));
        self.ap1.law_split(self.comb_mean(a), next.comb_mean(b));
        self.ap2.law_split(
            self.ap1.response(self.comb_mean(a)),
            next.ap1.response(next.comb_mean(b)),
        );
    }

    proof fn law_idle(self) {
        self.comb1.law_idle();
        self.comb2.law_idle();
        self.comb3.law_idle();
        self.comb4.law_idle();
        assert(self.comb_mean(Seq::empty()) =~= Seq::<S>::empty());
        self.ap1.law_idle();
        self.ap2.law_idle();
    }
}

/// The reverberator.
///
/// It is made for a sample rate and can be moved to another, which scales
/// every delay and discards all that the filters have retained. Channels
/// are told apart by index and come into being on first use, in order from
/// zero; each has a full set of filter state of its own.
pub struct Reverb<S> {
    sample_rate: u32,
    comb1: Comb<S>,
    comb2: Comb<S>,
    comb3: Comb<S>,
    comb4: Comb<S>,
    comb_sum: Vec<S>,
    ap1: AllPass<S>,
    ap2: AllPass<S>,
}

impl<S: Sample> Reverb<S> {
    /// The sample rate that the delays are scaled to, in hertz.
    pub closed spec fn sample_rate_spec(&self) -> nat {
        self.sample_rate as nat
    }

    /// The number of channels that have been used.
    pub closed spec fn channels_spec(&self) -> nat {
        self.comb1.channels_spec()
    }

    /// The state of channel `c`. A channel that has not been used is fresh.
    pub closed spec fn state(&self, c: int) -> NetworkState<S> {
        NetworkState {
            comb1: self.comb1.state(c),
            comb2: self.comb2.state(c),
            comb3: self.comb3.state(c),
            comb4: self.comb4.state(c),
            ap1: self.ap1.state(c),
            ap2: self.ap2.state(c),
        }
    }

    /// The six filters are well-formed, tuned to the sample rate, and agree
    /// on which channels have been used.
    pub closed spec fn wf(&self) -> bool {
        let f = NetworkState::<S>::fresh(self.sample_rate as nat);
        &&& self.comb1.wf() && self.comb1.delay_spec() == f.comb1.delay && self.comb1.gain_spec()
            == f.comb1.gain
        &&& self.comb2.wf() && self.comb2.delay_spec() == f.comb2.delay && self.comb2.gain_spec()
            == f.comb2.gain
        &&& self.comb3.wf() && self.comb3.delay_spec() == f.comb3.delay && self.comb3.gain_spec()
            == f.comb3.gain
        &&& self.comb4.wf() && self.comb4.delay_spec() == f.comb4.delay && self.comb4.gain_spec()
            == f.comb4.gain
        &&& self.ap1.wf() && self.ap1.delay_spec() == f.ap1.delay && self.ap1.gain_spec()
            == f.ap1.gain
        &&& self.ap2.wf() && self.ap2.delay_spec() == f.ap2.delay && self.ap2.gain_spec()
            == f.ap2.gain
        &&& self.comb2.channels_spec() == self.comb1.channels_spec()
        &&& self.comb3.channels_spec() == self.comb1.channels_spec()
        &&& self.comb4.channels_spec() == self.comb1.channels_spec()
        &&& self.ap1.channels_spec() == self.comb1.channels_spec()
        &&& self.ap2.channels_spec() == self.comb1.channels_spec()
    }

    /// Every channel of a well-formed network is in a valid state, tuned to
    /// the network's sample rate; a channel that has not been used is
    /// fresh.
    pub proof fn lemma_state_valid(&self, c: int)
        requires
            self.wf(),
        ensures
            self.state(c).valid(),
            self.state(c).tuned_to(self.sample_rate_spec()),
            c < 0 || c >= self.channels_spec() ==> self.state(c) == NetworkState::<S>::fresh(
                self.sample_rate_spec(),
            ),
    {
        self.comb1.lemma_state_valid(c);
        self.comb2.lemma_state_valid(c);
        self.comb3.lemma_state_valid(c);
        self.comb4.lemma_state_valid(c);
        self.ap1.lemma_state_valid(c);
        self.ap2.lemma_state_valid(c);
    }

    /// A network without channels for a stream at `sample_rate` hertz.
    ///
    /// It is refused with `GainOutOfRange` only if the arithmetic of `S`
    /// does not take the network's gains for gains.
    pub fn new(sample_rate: u32) -> (r: Result<Self, FilterError>)
        ensures
            gains_valid::<S>() <==> r is Ok,
            r is Err ==> r == Err::<Self, FilterError>(FilterError::GainOutOfRange),
            r is Ok ==> {
                let n = r->Ok_0;
                &&& n.wf()
                &&& n.sample_rate_spec() == sample_rate
                &&& n.channels_spec() == 0
                &&& forall|c: int| #[trigger] n.state(c) == NetworkState::<S>::fresh(sample_rate as nat)
            },
    {
        let g1 = S::ratio(COMB1_GAIN, GAIN_SCALE);
        let g2 = S::ratio(COMB2_GAIN, GAIN_SCALE);
        let g3 = S::ratio(COMB3_GAIN, GAIN_SCALE);
        let g4 = S::ratio(COMB4_GAIN, GAIN_SCALE);
        let ga = S::ratio(ALLPASS_GAIN, GAIN_SCALE);
        let comb1 = Comb::new(scale_delay(COMB1_DELAY, sample_rate), g1)?;
        let comb2 = Comb::new(scale_delay(COMB2_DELAY, sample_rate), g2)?;
        let comb3 = Comb::new(scale_delay(COMB3_DELAY, sample_rate), g3)?;
        let comb4 = Comb::new(scale_delay(COMB4_DELAY, sample_rate), g4)?;
        let ap1 = AllPass::new(scale_delay(ALLPASS1_DELAY, sample_rate), ga)?;
        let ap2 = AllPass::new(scale_delay(ALLPASS2_DELAY, sample_rate), ga)?;
        Ok(Reverb { sample_rate, comb1, comb2, comb3, comb4, comb_sum: Vec::new(), ap1, ap2 })
    }

    /// Moves the network to another sample rate: every delay becomes its
    /// base delay scaled to `rate`, and all that was retained is discarded,
    /// so that every channel is fresh again.
    pub fn set_sample_rate(&mut self, rate: u32)
        requires
            old(self).wf(),
        ensures
            final(self).wf(),
            final(self).sample_rate_spec() == rate,
            final(self).channels_spec() == 0,
            forall|c: int| #[trigger] final(self).state(c) == NetworkState::<S>::fresh(rate as nat),
    {
        self.sample_rate = rate;
        let _ = self.comb1.reset(scale_delay(COMB1_DELAY, rate));
        let _ = self.comb2.reset(scale_delay(COMB2_DELAY, rate));
        let _ = self.comb3.reset(scale_delay(COMB3_DELAY, rate));
        let _ = self.comb4.reset(scale_delay(COMB4_DELAY, rate));
        let _ = self.ap1.reset(scale_delay(ALLPASS1_DELAY, rate));
        let _ = self.ap2.reset(scale_delay(ALLPASS2_DELAY, rate));
        self.comb_sum.clear();
        proof {
            assert forall|c: int| #[trigger] self.state(c) == NetworkState::<S>::fresh(
                rate as nat,
            ) by {
                self.lemma_state_valid(c);
            }
        }
    }

    /// The sample rate that the delays are scaled to, in hertz.
    pub fn sample_rate(&self) -> (r: u32)
        ensures
            r == self.sample_rate_spec(),
    {
        self.sample_rate
    }

    /// The number of channels that have been used.
    pub fn channels(&self) -> (r: usize)
        ensures
            r == self.channels_spec(),
    {
        self.comb1.channels()
    }

    /// The delays in force, in samples: the four combs', then the two
    /// allpasses'.
    pub fn delays(&self) -> (r: [usize; 6])
        requires
            self.wf(),
        ensures
            r@ == seq![
                scaled_delay(COMB1_DELAY as nat, self.sample_rate_spec()) as usize,
                scaled_delay(COMB2_DELAY as nat, self.sample_rate_spec()) as usize,
                scaled_delay(COMB3_DELAY as nat, self.sample_rate_spec()) as usize,
                scaled_delay(COMB4_DELAY as nat, self.sample_rate_spec()) as usize,
                scaled_delay(ALLPASS1_DELAY as nat, self.sample_rate_spec()) as usize,
                scaled_delay(ALLPASS2_DELAY as nat, self.sample_rate_spec()) as usize,
            ],
    {
        let r = [
            self.comb1.delay(),
            self.comb2.delay(),
            self.comb3.delay(),
            self.comb4.delay(),
            self.ap1.delay(),
            self.ap2.delay(),
        ];
        assert(r@ =~= seq![
            scaled_delay(COMB1_DELAY as nat, self.sample_rate_spec()) as usize,
            scaled_delay(COMB2_DELAY as nat, self.sample_rate_spec()) as usize,
            scaled_delay(COMB3_DELAY as nat, self.sample_rate_spec()) as usize,
            scaled_delay(COMB4_DELAY as nat, self.sample_rate_spec()) as usize,
            scaled_delay(ALLPASS1_DELAY as nat, self.sample_rate_spec()) as usize,
            scaled_delay(ALLPASS2_DELAY as nat, self.sample_rate_spec()) as usize,
        ]);
        r
    }

    /// Reverberates one block of channel `chan` into `output`, which is
    /// overwritten and ends as long as `input`.
    ///
    /// The four combs filter the block, their mean goes through the first
    /// allpass and the result through the second. `chan` must be a channel
    /// already used or the next unused one; anything above is refused with
    /// `ChannelGap` and changes nothing.
    pub fn process(&mut self, input: &[S], chan: u8, output: &mut Vec<S>) -> (r: Result<
        (),
        FilterError,
    >)
        requires
            old(self).wf(),
        ensures
            final(self).wf(),
            final(self).sample_rate_spec() == old(self).sample_rate_spec(),
            chan > old(self).channels_spec() ==> {
                &&& r == Err::<(), FilterError>(FilterError::ChannelGap)
                &&& *final(self) == *old(self)
                &&& *final(output) == *old(output)
            },
            chan <= old(self).channels_spec() ==> {
                &&& r is Ok
                &&& final(output)@ == old(self).state(chan as int).response(input@)
                &&& final(output)@.len() == input@.len()
                &&& final(self).state(chan as int) == old(self).state(chan as int).advance(input@)
                &&& final(self).channels_spec() == if chan == old(self).channels_spec() {
                    old(self).channels_spec() + 1
                } else {
                    old(self).channels_spec()
                }
                &&& forall|c: int| c != chan ==> #[trigger] final(self).state(c) == old(self).state(c)
            },
    {
        if chan as usize > self.comb1.channels() {
            return Err(FilterError::ChannelGap);
        }
        let ghost start = old(self).state(chan as int);
        self.comb1.process(input, chan)?;
        self.comb2.process(input, chan)?;
        self.comb3.process(input, chan)?;
        self.comb4.process(input, chan)?;
        proof {
            start.comb1.lemma_run_len(input@);
            start.comb2.lemma_run_len(input@);
            start.comb3.lemma_run_len(input@);
            start.comb4.lemma_run_len(input@);
        }
        let quarter = S::ratio(1, 4);
        let n: usize = input.len();
        self.comb_sum.clear();
        let ghost combed = *self;
        let mut i: usize = 0;
        while i < n
            invariant
                n == input@.len(),
                i <= n,
                quarter == S::ratio_spec(1, 4),
                self.sample_rate == combed.sample_rate,
                self.comb1 == combed.comb1,
                self.comb2 == combed.comb2,
                self.comb3 == combed.comb3,
                self.comb4 == combed.comb4,
                self.ap1 == combed.ap1,
                self.ap2 == combed.ap2,
                self.comb1.produced() == start.comb1.response(input@),
                self.comb2.produced() == start.comb2.response(input@),
                self.comb3.produced() == start.comb3.response(input@),
                self.comb4.produced() == start.comb4.response(input@),
                self.comb1.produced().len() == n,
                self.comb2.produced().len() == n,
                self.comb3.produced().len() == n,
                self.comb4.produced().len() == n,
                self.comb_sum@ == start.comb_mean(input@).take(i as int),
            decreases n - i,
        {
            let a = self.comb1.output()[i];
            let b = self.comb2.output()[i];
            let c = self.comb3.output()[i];
            let d = self.comb4.output()[i];
            self.comb_sum.push(a.plus(b).plus(c).plus(d).times(quarter));
            i += 1;
            assert(self.comb_sum@ =~= start.comb_mean(input@).take(i as int));
        }
        assert(start.comb_mean(input@).take(n as int) =~= start.comb_mean(input@));
        self.ap1.process(self.comb_sum.as_slice(), chan)?;
        self.ap2.process(self.ap1.output().as_slice(), chan)?;
        output.clear();
        let ghost result = self.ap2.produced();
        proof {
            start.lemma_response_len(input@);
        }
        let ghost done = *self;
        let mut k: usize = 0;
        while k < n
            invariant
                k <= n,
                *self == done,
                self.ap2.produced() == result,
                result.len() == n,
                output@ == result.take(k as int),
            decreases n - k,
        {
            output.push(self.ap2.output()[k]);
            k += 1;
            assert(output@ =~= result.take(k as int));
        }
        assert(result.take(n as int) =~= result);
        Ok(())
    }
}

} // verus!
