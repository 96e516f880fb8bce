use reverb::{Comb, FilterError, Sample};

/// Single-precision samples with the processor's own arithmetic.
#[derive(Clone, Copy, Debug, PartialEq)]
struct F(f32);

impl Sample for F {
    fn zero_spec() -> Self {
        F(0.0)
    }

    fn ratio_spec(num: u16, den: u16) -> Self {
        F(f32::from(num) / f32::from(den))
    }

    fn plus_spec(self, rhs: Self) -> Self {
        F(self.0 + rhs.0)
    }

    fn times_spec(self, rhs: Self) -> Self {
        F(self.0 * rhs.0)
    }

    fn negated_spec(self) -> Self {
        F(-self.0)
    }

    fn is_gain_spec(self) -> bool {
        0.0 <= self.0 && self.0 < 1.0
    }

    fn zero() -> Self {
        Self::zero_spec()
    }

    fn ratio(num: u16, den: u16) -> Self {
        Self::ratio_spec(num, den)
    }

    fn plus(self, rhs: Self) -> Self {
        self.plus_spec(rhs)
    }

    fn times(self, rhs: Self) -> Self {
        self.times_spec(rhs)
    }

    fn negated(self) -> Self {
        self.negated_spec()
    }

    fn is_gain(self) -> bool {
        self.is_gain_spec()
    }
}

fn samples(values: &[f32]) -> Vec<F> {
    values.iter().map(|v| F(*v)).collect()
}

#[test]
fn test_comb() {
    let mut comb = Comb::new(3, F(0.5)).unwrap();

    const SIZE: usize = 10;
    let mut in1 = vec![F(0.0); SIZE];
    in1[0] = F(1.0);

    comb.process(&in1, 0).unwrap();

    let expected = samples(&[1.0, 0.0, 0.0, 0.5, 0.0, 0.0, 0.25, 0.0, 0.0, 0.125]);

    assert_eq!(&expected, comb.output());
}

#[test]
fn test_comb_multiple_inputs() {
    let mut comb = Comb::new(3, F(0.5)).unwrap();

    const SIZE: usize = 5;
    let mut in1 = vec![F(0.0); SIZE];
    let in2 = vec![F(0.0); SIZE];
    in1[0] = F(1.0);

    comb.process(&in1, 0).unwrap();
    let out1 = comb.output().clone();
    comb.process(&in2, 0).unwrap();
    let out2 = comb.output().clone();

    let expected1 = samples(&[1.0, 0.0, 0.0, 0.5, 0.0]);
    let expected2 = samples(&[0.0, 0.25, 0.0, 0.0, 0.125]);

    assert_eq!(expected1, out1);
    assert_eq!(expected2, out2);
}

#[test]
fn test_comb_multiple_inputs_2() {
    let mut comb = Comb::new(6, F(0.5)).unwrap();

    const SIZE: usize = 5;
    let mut in1 = vec![F(0.0); SIZE];
    let in2 = vec![F(0.0); SIZE];
    in1[0] = F(1.0);

    comb.process(&in1, 0).unwrap();
    let out1 = comb.output().clone();
    comb.process(&in2, 0).unwrap();
    let out2 = comb.output().clone();

    let expected1 = samples(&[1.0, 0.0, 0.0, 0.0, 0.0]);
    let expected2 = samples(&[0.0, 0.5, 0.0, 0.0, 0.0]);

    assert_eq!(expected1, out1);
    assert_eq!(expected2, out2);
}

fn compare_comb_outputs(size: usize, sample_size: usize, delay: usize) {
    let mut input = vec![F(0.0); size];
    input[0] = F(1.0);

    // Single input
    let mut comb = Comb::new(delay, F(0.5)).unwrap();
    comb.process(&input, 0).unwrap();
    let out_single = comb.output().clone();

    // Sampled inputs
    let mut comb = Comb::new(delay, F(0.5)).unwrap();

    let mut i = 0;
    let mut output_sampled = Vec::new();
    while i < size {
        let in_sampled = if i + sample_size < size {
            &input[i..i + sample_size]
        } else {
            &input[i..]
        };
        i += sample_size;
        comb.process(in_sampled, 0).unwrap();
        output_sampled.extend_from_slice(comb.output());
    }
    for i in 0..size {
        if out_single[i] != output_sampled[i] {
            println!("{}: {:?} != {:?}", i, out_single[i], output_sampled[i]);
        }
    }
    assert_eq!(out_single, output_sampled);
}

#[test]
fn compare_comb_outputs_delay_lt_sample() {
    const SIZE: usize = 100;
    const SAMPLE_SIZE: usize = 10;
    const DELAY: usize = 4;
    compare_comb_outputs(SIZE, SAMPLE_SIZE, DELAY);
}

#[test]
fn compare_comb_outputs_delay_eq_sample() {
    const SIZE: usize = 100;
    const SAMPLE_SIZE: usize = 10;
    const DELAY: usize = 10;
    compare_comb_outputs(SIZE, SAMPLE_SIZE, DELAY);
}

#[test]
fn compare_comb_outputs_delay_gt_sample() {
    const SIZE: usize = 100;
    const SAMPLE_SIZE: usize = 10;
    const DELAY: usize = 21;
    compare_comb_outputs(SIZE, SAMPLE_SIZE, DELAY);
}

#[test]
fn comb_impulse_response_is_geometric() {
    // Gain 0.75 and delay 5: 0.75^k at position 5k, silence elsewhere.
    let mut comb = Comb::new(5, F(0.75)).unwrap();
    let mut input = vec![F(0.0); 16];
    input[0] = F(1.0);
    comb.process(&input, 0).unwrap();
    let out = comb.output();
    assert_eq!(out.len(), 16);
    for (i, v) in out.iter().enumerate() {
        let want = match i {
            0 => 1.0,
            5 => 0.75,
            10 => 0.5625,
            15 => 0.421875,
            _ => 0.0,
        };
        assert_eq!(*v, F(want), "at {}", i);
    }
}

#[test]
fn comb_rejects_zero_delay() {
    assert_eq!(Comb::new(0, F(0.5)).err(), Some(FilterError::ZeroDelay));
    // The delay is looked at first.
    assert_eq!(Comb::new(0, F(2.0)).err(), Some(FilterError::ZeroDelay));
}

#[test]
fn comb_rejects_gain_out_of_range() {
    assert_eq!(Comb::new(3, F(1.0)).err(), Some(FilterError::GainOutOfRange));
    assert_eq!(Comb::new(3, F(-0.25)).err(), Some(FilterError::GainOutOfRange));
    assert_eq!(Comb::new(3, F(f32::NAN)).err(), Some(FilterError::GainOutOfRange));
    assert!(Comb::new(3, F(0.0)).is_ok());
    assert!(Comb::new(3, F(0.999)).is_ok());
}

#[test]
fn comb_rejects_channel_gap_and_keeps_state() {
    let mut comb = Comb::new(2, F(0.5)).unwrap();
    comb.process(&samples(&[1.0, 2.0, 3.0]), 0).unwrap();
    let before = comb.output().clone();
    assert_eq!(comb.process(&samples(&[9.0]), 2), Err(FilterError::ChannelGap));
    assert_eq!(comb.channels(), 1);
    assert_eq!(comb.output(), &before);
    assert_eq!(comb.retained(0), 2);
    assert_eq!(before, samples(&[1.0, 2.0, 3.5]));
    // Channel 0 goes on as if nothing had happened: 4 + 0.5 * 2, 5 + 0.5 * 3.5.
    comb.process(&samples(&[4.0, 5.0]), 0).unwrap();
    assert_eq!(comb.output(), &samples(&[5.0, 6.75]));
}

#[test]
fn comb_channels_do_not_mix() {
    let mut both = Comb::new(3, F(0.5)).unwrap();
    let mut alone = Comb::new(3, F(0.5)).unwrap();
    let mut impulse = vec![F(0.0); 4];
    impulse[0] = F(1.0);
    let rest = vec![F(0.0); 4];
    let quiet = vec![F(0.0); 4];

    both.process(&impulse, 0).unwrap();
    let first = both.output().clone();
    both.process(&quiet, 1).unwrap();
    assert_eq!(both.output(), &quiet);
    both.process(&rest, 0).unwrap();
    let second = both.output().clone();
    both.process(&quiet, 1).unwrap();
    assert_eq!(both.output(), &quiet);

    alone.process(&impulse, 0).unwrap();
    assert_eq!(alone.output(), &first);
    alone.process(&rest, 0).unwrap();
    assert_eq!(alone.output(), &second);
    assert_eq!(second, samples(&[0.0, 0.0, 0.25, 0.0]));
}

#[test]
fn comb_retains_at_most_delay() {
    let mut comb = Comb::new(7, F(0.5)).unwrap();
    assert_eq!(comb.retained(0), 0);
    comb.process(&vec![F(1.0); 3], 0).unwrap();
    assert_eq!(comb.retained(0), 3);
    comb.process(&vec![F(1.0); 3], 0).unwrap();
    assert_eq!(comb.retained(0), 6);
    comb.process(&vec![F(1.0); 3], 0).unwrap();
    assert_eq!(comb.retained(0), 7);
    for _ in 0..50 {
        comb.process(&vec![F(1.0); 100], 0).unwrap();
        assert_eq!(comb.retained(0), 7);
    }
    assert_eq!(comb.retained(1), 0);
}

#[test]
fn comb_empty_block_only_registers_the_channel() {
    let mut comb = Comb::new(2, F(0.5)).unwrap();
    comb.process(&samples(&[1.0, 1.0]), 0).unwrap();
    comb.process(&[], 0).unwrap();
    assert!(comb.output().is_empty());
    assert_eq!(comb.retained(0), 2);
    assert_eq!(comb.channels(), 1);
    comb.process(&[], 1).unwrap();
    assert_eq!(comb.channels(), 2);
    assert_eq!(comb.retained(1), 0);
    comb.process(&samples(&[0.0, 0.0]), 0).unwrap();
    assert_eq!(comb.output(), &samples(&[0.5, 0.5]));
}

#[test]
fn comb_reset_forgets_everything() {
    let mut comb = Comb::new(2, F(0.5)).unwrap();
    comb.process(&samples(&[1.0, 1.0]), 0).unwrap();
    assert_eq!(comb.reset(0), Err(FilterError::ZeroDelay));
    assert_eq!(comb.delay(), 2);
    assert_eq!(comb.channels(), 1);
    assert_eq!(comb.reset(3), Ok(()));
    assert_eq!(comb.delay(), 3);
    assert_eq!(comb.gain(), F(0.5));
    assert_eq!(comb.channels(), 0);
    assert!(comb.output().is_empty());
    comb.process(&samples(&[0.0, 0.0, 0.0, 0.0]), 0).unwrap();
    assert_eq!(comb.output(), &samples(&[0.0, 0.0, 0.0, 0.0]));
}
