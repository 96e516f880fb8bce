use reverb::{AllPass, FilterError, Sample};

/// Single-precision samples with the processor's own arithmetic.
#[derive(Clone, Copy, Debug, PartialEq)]
struct F(f32);

impl Sample for F {
    fn zero_spec() -> Self {
        F(0.0)
    }

    fn ratio_spec(num: u16, den: u16) -> Self {
        F(f32::from(num) / f32::from(den))
    }

    fn plus_spec(self, rhs: Self) -> Self {
        F(self.0 + rhs.0)
    }

    fn times_spec(self, rhs: Self) -> Self {
        F(self.0 * rhs.0)
    }

    fn negated_spec(self) -> Self {
        F(-self.0)
    }

    fn is_gain_spec(self) -> bool {
        0.0 <= self.0 && self.0 < 1.0
    }

    fn zero() -> Self {
        Self::zero_spec()
    }

    fn ratio(num: u16, den: u16) -> Self {
        Self::ratio_spec(num, den)
    }

    fn plus(self, rhs: Self) -> Self {
        self.plus_spec(rhs)
    }

    fn times(self, rhs: Self) -> Self {
        self.times_spec(rhs)
    }

    fn negated(self) -> Self {
        self.negated_spec()
    }

    fn is_gain(self) -> bool {
        self.is_gain_spec()
    }
}

fn samples(values: &[f32]) -> Vec<F> {
    values.iter().map(|v| F(*v)).collect()
}

#[test]
fn test_allpass() {
    let mut allpass = AllPass::new(3, F(0.5)).unwrap();

    const SIZE: usize = 10;
    let mut in1 = vec![F(0.0); SIZE];
    in1[0] = F(1.0);

    allpass.process(&in1, 0).unwrap();

    let expected = samples(&[-0.5, 0.0, 0.0, 0.75, 0.0, 0.0, 0.375, 0.0, 0.0, 0.1875]);

    assert_eq!(&expected, allpass.output());
}

#[test]
fn test_allpass_multiple_inputs() {
    let mut allpass = AllPass::new(3, F(0.5)).unwrap();

    const SIZE: usize = 5;
    let mut in1 = vec![F(0.0); SIZE];
    let in2 = vec![F(0.0); SIZE];
    in1[0] = F(1.0);

    allpass.process(&in1, 0).unwrap();
    let out1 = allpass.output().clone();
    allpass.process(&in2, 0).unwrap();
    let out2 = allpass.output().clone();

    let expected1 = samples(&[-0.5, 0.0, 0.0, 0.75, 0.0]);
    let expected2 = samples(&[0.0, 0.375, 0.0, 0.0, 0.1875]);

    assert_eq!(expected1, out1);
    assert_eq!(expected2, out2);
}

fn compare_allpass_outputs(size: usize, sample_size: usize, delay: usize) {
    let mut input = vec![F(0.0); size];
    input[0] = F(1.0);

    // Single input
    let mut allpass = AllPass::new(delay, F(0.5)).unwrap();
    allpass.process(&input, 0).unwrap();
    let out_single = allpass.output().clone();

    // Multiple inputs
    let mut allpass = AllPass::new(delay, F(0.5)).unwrap();

    let mut i = 0;
    let mut output_sampled = Vec::new();
    while i < size {
        let in_sampled = if i + sample_size < size {
            &input[i..i + sample_size]
        } else {
            &input[i..]
        };
        i += sample_size;
        allpass.process(in_sampled, 0).unwrap();
        output_sampled.extend_from_slice(allpass.output());
    }
    for i in 0..size {
        if out_single[i] != output_sampled[i] {
            println!("{}: {:?} != {:?}", i, out_single[i], output_sampled[i]);
        }
    }
    assert_eq!(out_single, output_sampled);
}

#[test]
fn compare_allpass_outputs_delay_lt_sample() {
    const SIZE: usize = 100;
    const SAMPLE_SIZE: usize = 10;
    const DELAY: usize = 4;
    compare_allpass_outputs(SIZE, SAMPLE_SIZE, DELAY);
}

#[test]
fn compare_allpass_outputs_delay_eq_sample() {
    const SIZE: usize = 100;
    const SAMPLE_SIZE: usize = 10;
    const DELAY: usize = 10;
    compare_allpass_outputs(SIZE, SAMPLE_SIZE, DELAY);
}

#[test]
fn compare_allpass_outputs_delay_gt_sample() {
    const SIZE: usize = 100;
    const SAMPLE_SIZE: usize = 10;
    const DELAY: usize = 21;
    compare_allpass_outputs(SIZE, SAMPLE_SIZE, DELAY);
}

#[test]
fn allpass_formula_on_a_ramp() {
    // delay 2, gain 0.5, input 1 2 3 4:
    //   y0 = -0.5
    //   y1 = -1
    //   y2 = -1.5 + 1 + 0.5 * -0.5 = -0.75
    //   y3 = -2 + 2 + 0.5 * -1 = -0.5
    let mut allpass = AllPass::new(2, F(0.5)).unwrap();
    allpass.process(&samples(&[1.0, 2.0, 3.0, 4.0]), 0).unwrap();
    assert_eq!(allpass.output(), &samples(&[-0.5, -1.0, -0.75, -0.5]));
    // Next block, all zero: y4 = 3 + 0.5 * -0.75, y5 = 4 + 0.5 * -0.5.
    allpass.process(&samples(&[0.0, 0.0]), 0).unwrap();
    assert_eq!(allpass.output(), &samples(&[2.625, 3.75]));
}

#[test]
fn allpass_rejects_bad_parameters() {
    assert_eq!(AllPass::new(0, F(0.5)).err(), Some(FilterError::ZeroDelay));
    assert_eq!(AllPass::new(0, F(1.5)).err(), Some(FilterError::ZeroDelay));
    assert_eq!(AllPass::new(1, F(1.0)).err(), Some(FilterError::GainOutOfRange));
    assert_eq!(AllPass::new(1, F(-0.1)).err(), Some(FilterError::GainOutOfRange));
    assert!(AllPass::new(1, F(0.0)).is_ok());
}

#[test]
fn allpass_rejects_channel_gap_and_keeps_state() {
    let mut allpass = AllPass::new(2, F(0.5)).unwrap();
    assert_eq!(allpass.process(&samples(&[1.0]), 1), Err(FilterError::ChannelGap));
    assert_eq!(allpass.channels(), 0);
    allpass.process(&samples(&[1.0, 2.0, 3.0]), 0).unwrap();
    let before = allpass.output().clone();
    assert_eq!(allpass.process(&samples(&[1.0]), 5), Err(FilterError::ChannelGap));
    assert_eq!(allpass.output(), &before);
    assert_eq!(allpass.channels(), 1);
    assert_eq!(allpass.retained(0), 2);
    allpass.process(&samples(&[1.0]), 1).unwrap();
    assert_eq!(allpass.channels(), 2);
}

#[test]
fn allpass_channels_do_not_mix() {
    let mut both = AllPass::new(3, F(0.5)).unwrap();
    let mut alone = AllPass::new(3, F(0.5)).unwrap();
    let mut impulse = vec![F(0.0); 5];
    impulse[0] = F(1.0);
    let quiet = vec![F(0.0); 5];

    both.process(&impulse, 0).unwrap();
    let first = both.output().clone();
    both.process(&quiet, 1).unwrap();
    assert_eq!(both.output(), &quiet);
    both.process(&quiet, 0).unwrap();
    let second = both.output().clone();
    both.process(&quiet, 1).unwrap();
    assert_eq!(both.output(), &quiet);

    alone.process(&impulse, 0).unwrap();
    assert_eq!(alone.output(), &first);
    alone.process(&quiet, 0).unwrap();
    assert_eq!(alone.output(), &second);
}

#[test]
fn allpass_retains_at_most_delay() {
    let mut allpass = AllPass::new(4, F(0.5)).unwrap();
    allpass.process(&vec![F(1.0); 3], 0).unwrap();
    assert_eq!(allpass.retained(0), 3);
    for _ in 0..20 {
        allpass.process(&vec![F(1.0); 9], 0).unwrap();
        assert_eq!(allpass.retained(0), 4);
    }
}

#[test]
fn allpass_reset_forgets_everything() {
    let mut allpass = AllPass::new(2, F(0.5)).unwrap();
    allpass.process(&samples(&[1.0, 1.0, 1.0]), 0).unwrap();
    assert_eq!(allpass.reset(0), Err(FilterError::ZeroDelay));
    assert_eq!(allpass.delay(), 2);
    assert_eq!(allpass.reset(5), Ok(()));
    assert_eq!(allpass.delay(), 5);
    assert_eq!(allpass.gain(), F(0.5));
    assert_eq!(allpass.channels(), 0);
    allpass.process(&samples(&[0.0, 0.0, 0.0]), 0).unwrap();
    assert_eq!(allpass.output(), &samples(&[0.0, 0.0, 0.0]));
}
