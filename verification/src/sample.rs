//! The arithmetic that the filters need from a sample.

use vstd::prelude::*;

verus! {

/// A sample value together with the handful of operations the filters apply
/// to it.
///
/// Every operation is a function of its operands alone: the executable
/// method returns exactly what its `_spec` companion names. The filters are
/// proved against the companions, so their results hold for any arithmetic,
/// rounding or saturating, that is deterministic in this sense. No algebraic
/// identity (associativity, a neutral zero, ...) is assumed.
pub trait Sample: Copy {
    /// The silent sample.
    spec fn zero_spec() -> Self;

    /// The sample that stands for the fraction `num / den`.
    spec fn ratio_spec(num: u16, den: u16) -> Self;

    /// The sum of two samples.
    spec fn plus_spec(self, rhs: Self) -> Self;

    /// The product of two samples.
    spec fn times_spec(self, rhs: Self) -> Self;

    /// The sample with the opposite sign.
    spec fn negated_spec(self) -> Self;

    /// Whether the sample is a feedback gain that keeps a filter stable:
    /// at least zero and below one.
    spec fn is_gain_spec(self) -> bool;

    /// The silent sample.
    fn zero() -> (r: Self)
        ensures
            r == Self::zero_spec(),
    ;

    /// The sample that stands for the fraction `num / den`.
    fn ratio(num: u16, den: u16) -> (r: Self)
        requires
            den > 0,
        ensures
            r == Self::ratio_spec(num, den),
    ;

    /// The sum of two samples.
    fn plus(self, rhs: Self) -> (r: Self)
        ensures
            r == self.plus_spec(rhs),
    ;

    /// The product of two samples.
    fn times(self, rhs: Self) -> (r: Self)
        ensures
            r == self.times_spec(rhs),
    ;

    /// The sample with the opposite sign.
    fn negated(self) -> (r: Self)
        ensures
            r == self.negated_spec(),
    ;

    /// Whether the sample is at least zero and below one.
    fn is_gain(self) -> (b: bool)
        ensures
            b == self.is_gain_spec(),
    ;
}

/// Every sample of the block is the silent sample.
pub open spec fn silent<S: Sample>(block: Seq<S>) -> bool {
    forall|i: int| 0 <= i < block.len() ==> #[trigger] block[i] == S::zero_spec()
}

/// The sample that stands for one.
pub open spec fn unit<S: Sample>() -> S {
    S::ratio_spec(1, 1)
}

/// The unit impulse of `len` samples: one, then silence.
pub open spec fn impulse<S: Sample>(len: nat) -> Seq<S> {
    Seq::new(
        len,
        |i: int|
            if i == 0 {
                unit::<S>()
            } else {
                S::zero_spec()
            },
    )
}

/// `gain` to the power `k` in the arithmetic of `S`: one, multiplied `k`
/// times by `gain`.
pub open spec fn power<S: Sample>(gain: S, k: nat) -> S
    decreases k,
{
    if k == 0 {
        unit::<S>()
    } else {
        gain.times_spec(power(gain, (k - 1) as nat))
    }
}

} // verus!
