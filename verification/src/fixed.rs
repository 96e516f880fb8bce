//! A fixed-point sample.

use vstd::prelude::*;
use crate::comb::{bounded, CombState};
use crate::reverb::{gains_valid, NetworkState};
use crate::sample::{impulse, power, silent, Sample};
use crate::stream::Streaming;

verus! {

/// The raw value of one.
pub const ONE: i32 = 65536;

/// A signed fixed-point number with sixteen fractional bits.
///
/// `raw` counts units of 1/65536. Sums, products and negations that leave
/// the range of `i32` saturate at its ends; products round toward zero.
#[derive(Clone, Copy, Debug, PartialEq, Eq, Structural)]
pub struct Fixed {
    pub raw: i32,
}

/// The nearest value inside the range of `i32`.
pub open spec fn saturate(v: int) -> i32 {
    if v < i32::MIN {
        i32::MIN
    } else if v > i32::MAX {
        i32::MAX
    } else {
        v as i32
    }
}

/// The quotient `n / d` rounded toward zero, for a positive `d`.
pub open spec fn quotient_toward_zero(n: int, d: int) -> int {
    if n >= 0 {
        n / d
    } else {
        -((-n) / d)
    }
}

fn saturate_exec(v: i64) -> (r: i32)
    ensures
        r == saturate(v as int),
{
    if v < -2147483648i64 {
        i32::MIN
    } else if v > 2147483647i64 {
        i32::MAX
    } else {
        v as i32
    }
}

impl Sample for Fixed {
    open spec fn zero_spec() -> Self {
        Fixed { raw: 0 }
    }

    open spec fn ratio_spec(num: u16, den: u16) -> Self {
        Fixed { raw: saturate((num as int * ONE as int) / (den as int)) }
    }

    open spec fn plus_spec(self, rhs: Self) -> Self {
        Fixed { raw: saturate(self.raw as int + rhs.raw as int) }
    }

    open spec fn times_spec(self, rhs: Self) -> Self {
        Fixed { raw: saturate(quotient_toward_zero(self.raw as int * rhs.raw as int, ONE as int)) }
    }

    open spec fn negated_spec(self) -> Self {
        Fixed { raw: saturate(-(self.raw as int)) }
    }

    open spec fn is_gain_spec(self) -> bool {
        0 <= self.raw < ONE
    }

    fn zero() -> (r: Self) {
        Fixed { raw: 0 }
    }

    fn ratio(num: u16, den: u16) -> (r: Self) {
        let scaled: i64 = (num as i64) * (ONE as i64);
        Fixed { raw: saturate_exec(scaled / (den as i64)) }
    }

    fn plus(self, rhs: Self) -> (r: Self) {
        Fixed { raw: saturate_exec(self.raw as i64 + rhs.raw as i64) }
    }

    fn times(self, rhs: Self) -> (r: Self) {
        let a: i64 = self.raw as i64;
        let b: i64 = rhs.raw as i64;
        assert(-0x4000_0000_0000_0000 <= a * b <= 0x4000_0000_0000_0000) by (nonlinear_arith)
            requires
                -0x8000_0000 <= a <= 0x7fff_ffff,
                -0x8000_0000 <= b <= 0x7fff_ffff,
        ;
        let wide: i64 = a * b;
        Fixed { raw: saturate_exec(wide / (ONE as i64)) }
    }

    fn negated(self) -> (r: Self) {
        Fixed { raw: saturate_exec(-(self.raw as i64)) }
    }

    fn is_gain(self) -> (b: bool) {
        0 <= self.raw && self.raw < ONE
    }
}

/// How far a sample is from zero, in raw units.
pub open spec fn magnitude(x: Fixed) -> nat {
    if x.raw < 0 {
        (-(x.raw as int)) as nat
    } else {
        x.raw as nat
    }
}

/// `magnitude` as a measure of loudness.
pub open spec fn loudness() -> spec_fn(Fixed) -> nat {
    |x: Fixed| magnitude(x)
}

/// The least bound that a comb with gain `gain` keeps for input within
/// `peak`: `peak / (1 - gain)`, rounded up, in raw units.
pub open spec fn steady_bound(peak: nat, gain: Fixed) -> nat {
    let room = ONE as int - gain.raw as int;
    ((peak * ONE as int + room - 1) / room) as nat
}

/// In fixed-point arithmetic the network's gains are valid gains.
pub proof fn lemma_gains_valid()
    ensures
        gains_valid::<Fixed>(),
{
}

/// In fixed-point arithmetic every product with zero is zero.
pub proof fn lemma_times_zero(x: Fixed)
    ensures
        x.times_spec(Fixed::zero_spec()) == Fixed::zero_spec(),
{
    assert(x.raw as int * 0 == 0);
}

/// In fixed-point arithmetic every network state is `quiet`, and so is each
/// of its filters: silence stays silence under the sums and products that
/// the filters form.
pub proof fn lemma_quiet(network: NetworkState<Fixed>)
    ensures
        network.comb1.quiet(),
        network.comb2.quiet(),
        network.comb3.quiet(),
        network.comb4.quiet(),
        network.ap1.quiet(),
        network.ap2.quiet(),
        network.quiet(),
{
    lemma_times_zero(network.comb1.gain);
    lemma_times_zero(network.comb2.gain);
    lemma_times_zero(network.comb3.gain);
    lemma_times_zero(network.comb4.gain);
    lemma_times_zero(network.ap1.gain);
    lemma_times_zero(network.ap2.gain);
    lemma_times_zero(network.ap1.gain.negated_spec());
    lemma_times_zero(network.ap2.gain.negated_spec());
}

/// The impulse response in fixed point: a fresh comb answers the unit
/// impulse with `gain` to the power `k` at position `k * delay`, each power
/// rounded toward zero, and with zero everywhere else.
pub proof fn law_impulse_response(delay: nat, gain: Fixed, len: nat)
    requires
        delay >= 1,
    ensures
        CombState::fresh(delay, gain).run(impulse(len)).len() == len,
        forall|i: int|
            0 <= i < len ==> #[trigger] CombState::fresh(delay, gain).run(impulse(len))[i] == if i
                % (delay as int) == 0 {
                power(gain, (i / (delay as int)) as nat)
            } else {
                Fixed::zero_spec()
            },
{
    lemma_times_zero(gain);
    CombState::law_impulse_response(delay, gain, len);
}

/// Silence in, silence out, in fixed point: a network that retains only
/// zeros answers zeros with zeros and retains only zeros afterwards.
pub proof fn law_silence(network: NetworkState<Fixed>, input: Seq<Fixed>)
    requires
        network.valid(),
        network.at_rest(),
        silent(input),
    ensures
        silent(network.response(input)),
        network.advance(input).at_rest(),
{
    lemma_quiet(network);
    network.law_silence(input);
}

/// No tail after a change of rate, in fixed point: a fresh network, as a
/// change of sample rate leaves every channel, answers zeros with zeros.
pub proof fn law_fresh_answers_silence(rate: nat, input: Seq<Fixed>)
    requires
        silent(input),
    ensures
        NetworkState::<Fixed>::fresh(rate).valid(),
        silent(NetworkState::<Fixed>::fresh(rate).response(input)),
{
    lemma_gains_valid();
    lemma_quiet(NetworkState::<Fixed>::fresh(rate));
    NetworkState::<Fixed>::law_fresh_answers_silence(rate, input);
}

/// A saturating sum is no farther from zero than the two terms together.
pub proof fn lemma_plus_magnitude(a: Fixed, b: Fixed)
    ensures
        magnitude(a.plus_spec(b)) <= magnitude(a) + magnitude(b),
{
}

/// A product by a gain is no farther from zero than the gain's share of
/// the other factor.
pub proof fn lemma_times_magnitude(gain: Fixed, x: Fixed)
    requires
        gain.is_gain_spec(),
    ensures
        magnitude(gain.times_spec(x)) * ONE <= gain.raw * magnitude(x),
{
    let g = gain.raw as int;
    let m = magnitude(x) as int;
    let one = ONE as int;
    assert(0 <= g * m) by (nonlinear_arith)
        requires
            0 <= g,
            0 <= m,
    ;
    vstd::arithmetic::div_mod::lemma_fundamental_div_mod(g * m, one);
    vstd::arithmetic::div_mod::lemma_mod_bound(g * m, one);
    vstd::arithmetic::div_mod::lemma_div_pos_is_pos(g * m, one);
    assert(g * m <= one * m) by (nonlinear_arith)
        requires
            0 <= g < one,
            0 <= m,
    ;
    if x.raw >= 0 {
        assert(g * x.raw == g * m);
    } else {
        assert(-(g * x.raw) == g * m) by (nonlinear_arith)
            requires
                m == -(x.raw as int),
        ;
    }
    let q = (g * m) / one;
    assert(q * one <= g * m) by (nonlinear_arith)
        requires
            g * m == one * q + (g * m) % one,
            0 <= (g * m) % one,
    ;
    assert(q <= m) by (nonlinear_arith)
        requires
            q * one <= g * m,
            g * m <= one * m,
            one > 0,
    ;
}

/// In fixed-point arithmetic the feedback of every comb with a valid gain
/// `damps` by that gain.
pub proof fn lemma_damps(state: CombState<Fixed>)
    requires
        state.gain.is_gain_spec(),
    ensures
        state.damps(loudness(), state.gain.raw as nat, ONE as nat),
{
    assert forall|a: Fixed, b: Fixed| #[trigger]
        loudness()(a.plus_spec(b)) <= loudness()(a) + loudness()(b) by {
        lemma_plus_magnitude(a, b);
    }
    assert forall|x: Fixed| #[trigger]
        loudness()(state.gain.times_spec(x)) * (ONE as nat) <= (state.gain.raw as nat) * loudness()(
            x,
        ) by {
        lemma_times_magnitude(state.gain, x);
    }
}

/// Stability in fixed point: a comb that starts fresh, with any valid
/// gain, and takes in a signal within `peak`, never puts out a sample
/// beyond `steady_bound(peak, gain)`, however long the signal and however
/// it is cut into blocks.
pub proof fn law_comb_output_bounded(delay: nat, gain: Fixed, input: Seq<Fixed>, peak: nat)
    requires
        delay >= 1,
        gain.is_gain_spec(),
        bounded(input, loudness(), peak),
    ensures
        bounded(CombState::fresh(delay, gain).run(input), loudness(), steady_bound(peak, gain)),
{
    let room = ONE as int - gain.raw as int;
    let n = peak * ONE as int + room - 1;
    let bound = steady_bound(peak, gain);
    vstd::arithmetic::div_mod::lemma_fundamental_div_mod(n, room);
    vstd::arithmetic::div_mod::lemma_mod_bound(n, room);
    vstd::arithmetic::div_mod::lemma_div_pos_is_pos(n, room);
    assert(peak * ONE + gain.raw * bound <= bound * ONE) by (nonlinear_arith)
        requires
            n == room * (n / room) + n % room,
            0 <= n % room < room,
            n == peak * ONE as int + room - 1,
            room == ONE as int - gain.raw as int,
            bound == n / room,
    ;
    let fresh = CombState::fresh(delay, gain);
    lemma_damps(fresh);
    fresh.law_stability(input, loudness(), gain.raw as nat, ONE as nat, peak, bound);
}

} // verus!
