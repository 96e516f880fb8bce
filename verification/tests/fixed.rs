use reverb::fixed::ONE;
use reverb::{AllPass, Comb, Fixed, FilterError, Reverb, Sample};

fn fx(raw: i32) -> Fixed {
    Fixed { raw }
}

fn block(raws: &[i32]) -> Vec<Fixed> {
    raws.iter().map(|r| fx(*r)).collect()
}

#[test]
fn one_is_two_to_the_sixteenth() {
    assert_eq!(ONE, 65536);
    assert_eq!(Fixed::ratio(1, 1), fx(65536));
    assert_eq!(Fixed::zero(), fx(0));
}

#[test]
fn ratio_rounds_down_and_saturates() {
    assert_eq!(Fixed::ratio(1, 2), fx(32768));
    assert_eq!(Fixed::ratio(1, 4), fx(16384));
    assert_eq!(Fixed::ratio(1, 3), fx(21845));
    assert_eq!(Fixed::ratio(876, 1000), fx(57409));
    assert_eq!(Fixed::ratio(900, 1000), fx(58982));
    assert_eq!(Fixed::ratio(852, 1000), fx(55836));
    assert_eq!(Fixed::ratio(831, 1000), fx(54460));
    assert_eq!(Fixed::ratio(700, 1000), fx(45875));
    assert_eq!(Fixed::ratio(0, 7), fx(0));
    assert_eq!(Fixed::ratio(32767, 1), fx(32767 * 65536));
    assert_eq!(Fixed::ratio(32768, 1), fx(i32::MAX));
    assert_eq!(Fixed::ratio(65535, 1), fx(i32::MAX));
}

#[test]
fn plus_saturates() {
    assert_eq!(fx(3).plus(fx(4)), fx(7));
    assert_eq!(fx(-3).plus(fx(4)), fx(1));
    assert_eq!(fx(i32::MAX).plus(fx(1)), fx(i32::MAX));
    assert_eq!(fx(i32::MAX).plus(fx(i32::MAX)), fx(i32::MAX));
    assert_eq!(fx(i32::MIN).plus(fx(-1)), fx(i32::MIN));
    assert_eq!(fx(i32::MIN).plus(fx(i32::MAX)), fx(-1));
}

#[test]
fn times_rounds_toward_zero_and_saturates() {
    let half = fx(ONE / 2);
    assert_eq!(half.times(half), fx(ONE / 4));
    assert_eq!(fx(ONE).times(fx(12345)), fx(12345));
    assert_eq!(half.times(fx(3)), fx(1));
    assert_eq!(half.times(fx(-3)), fx(-1));
    assert_eq!(half.times(fx(1)), fx(0));
    assert_eq!(half.times(fx(-1)), fx(0));
    assert_eq!(fx(-ONE).times(fx(-ONE)), fx(ONE));
    assert_eq!(fx(i32::MAX).times(fx(i32::MAX)), fx(i32::MAX));
    assert_eq!(fx(i32::MIN).times(fx(i32::MAX)), fx(i32::MIN));
    assert_eq!(fx(i32::MIN).times(fx(i32::MIN)), fx(i32::MAX));
    assert_eq!(fx(7).times(fx(0)), fx(0));
}

#[test]
fn negated_saturates() {
    assert_eq!(fx(5).negated(), fx(-5));
    assert_eq!(fx(-5).negated(), fx(5));
    assert_eq!(fx(0).negated(), fx(0));
    assert_eq!(fx(i32::MAX).negated(), fx(-i32::MAX));
    assert_eq!(fx(i32::MIN).negated(), fx(i32::MAX));
}

#[test]
fn gains_lie_between_zero_and_one() {
    assert!(fx(0).is_gain());
    assert!(fx(1).is_gain());
    assert!(fx(ONE - 1).is_gain());
    assert!(!fx(ONE).is_gain());
    assert!(!fx(-1).is_gain());
    assert!(!fx(i32::MAX).is_gain());
}

#[test]
fn fixed_comb_impulse() {
    let mut comb = Comb::new(3, Fixed::ratio(1, 2)).unwrap();
    let mut input = vec![fx(0); 10];
    input[0] = fx(ONE);
    comb.process(&input, 0).unwrap();
    let expected = block(&[65536, 0, 0, 32768, 0, 0, 16384, 0, 0, 8192]);
    assert_eq!(comb.output(), &expected);
}

#[test]
fn fixed_comb_impulse_response_is_geometric() {
    // A gain whose powers are not exact: each power is rounded toward zero.
    let gain = Fixed::ratio(1, 3);
    let mut comb = Comb::new(4, gain).unwrap();
    let mut input = vec![fx(0); 21];
    input[0] = Fixed::ratio(1, 1);
    comb.process(&input, 0).unwrap();
    let mut power = Fixed::ratio(1, 1);
    for (i, v) in comb.output().iter().enumerate() {
        if i % 4 == 0 {
            assert_eq!(*v, power, "at {}", i);
            power = gain.times(power);
        } else {
            assert_eq!(*v, fx(0), "at {}", i);
        }
    }
    assert_eq!(comb.output()[4], fx(21845));
    assert_eq!(comb.output()[8], fx(7281));
    assert_eq!(comb.output()[12], fx(2426));
}

#[test]
fn fixed_allpass_impulse() {
    let mut allpass = AllPass::new(3, Fixed::ratio(1, 2)).unwrap();
    let mut input = vec![fx(0); 10];
    input[0] = fx(ONE);
    allpass.process(&input, 0).unwrap();
    let expected = block(&[-32768, 0, 0, 49152, 0, 0, 24576, 0, 0, 12288]);
    assert_eq!(allpass.output(), &expected);
}

#[test]
fn fixed_filters_reject_bad_parameters() {
    assert_eq!(Comb::new(0, fx(1)).err(), Some(FilterError::ZeroDelay));
    assert_eq!(Comb::new(1, fx(ONE)).err(), Some(FilterError::GainOutOfRange));
    assert_eq!(AllPass::new(0, fx(1)).err(), Some(FilterError::ZeroDelay));
    assert_eq!(AllPass::new(1, fx(-1)).err(), Some(FilterError::GainOutOfRange));
}

#[test]
fn fixed_comb_stays_within_its_steady_bound() {
    // Gain 0.9 and input of magnitude one: the bound is one over a tenth,
    // rounded up in raw units.
    let gain = Fixed::ratio(900, 1000);
    let room = (ONE - gain.raw) as i64;
    let peak = ONE as i64;
    let bound = (peak * ONE as i64 + room - 1) / room;
    assert_eq!(bound, 655321);

    let mut comb = Comb::new(2, gain).unwrap();
    let mut top: i64 = 0;
    for round in 0..400 {
        let sign = if round % 7 < 4 { 1 } else { -1 };
        let input = vec![fx(sign * ONE); 5];
        comb.process(&input, 0).unwrap();
        for v in comb.output() {
            let m = (v.raw as i64).abs();
            assert!(m <= bound);
            top = top.max(m);
        }
    }
    // The feedback does build up well beyond the input.
    assert!(top > 3 * peak);

    // A constant input comes as close to the bound as rounding allows.
    let mut comb = Comb::new(1, gain).unwrap();
    comb.process(&vec![fx(ONE); 2000], 0).unwrap();
    let last = comb.output()[1999].raw as i64;
    assert!(last <= bound);
    assert!(last > bound - 16);
}

#[test]
fn fixed_network_always_builds() {
    let reverb: Reverb<Fixed> = Reverb::new(44100).unwrap();
    assert_eq!(reverb.delays(), [1621, 1400, 1819, 1843, 451, 199]);
    assert_eq!(reverb.channels(), 0);
}

#[test]
fn fixed_network_first_echoes() {
    let mut reverb: Reverb<Fixed> = Reverb::new(44100).unwrap();
    let mut input = vec![fx(0); 200];
    input[0] = fx(ONE);
    let mut out = Vec::new();
    reverb.process(&input, 0, &mut out).unwrap();
    // Mean of the combs: 4 * 65536 / 4. First allpass: -45875. Second:
    // 45875 * 45875 / 65536, rounded toward zero.
    assert_eq!(out[0], fx(32112));
    for v in &out[1..199] {
        assert_eq!(*v, fx(0));
    }
    // -45875 + 45875 * 32112 / 65536
    assert_eq!(out[199], fx(-45875 + 22478));
}

#[test]
fn fixed_network_is_silent_after_a_rate_change() {
    let mut reverb: Reverb<Fixed> = Reverb::new(44100).unwrap();
    let mut out = Vec::new();
    reverb.process(&vec![fx(ONE / 3); 5000], 0, &mut out).unwrap();
    reverb.process(&vec![fx(-ONE / 5); 5000], 1, &mut out).unwrap();
    assert!(out.iter().any(|v| *v != fx(0)));
    reverb.set_sample_rate(32000);
    assert_eq!(reverb.delays(), [1176, 1016, 1320, 1337, 327, 144]);
    let quiet = vec![fx(0); 5000];
    reverb.process(&quiet, 0, &mut out).unwrap();
    assert_eq!(out, quiet);
    reverb.process(&quiet, 1, &mut out).unwrap();
    assert_eq!(out, quiet);
}
