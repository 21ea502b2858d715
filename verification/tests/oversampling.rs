use nih_faust_jit::gui::dsp_settings::{dsp_sample_rate, Oversampling};
use nih_faust_jit::oversampling::{
    downsample, downsample_pairs, last_pairs, spread_pairs, upsample, OversamplingFactor,
    StereoOversampler,
};

#[test]
fn factors_come_back() {
    for factor in OversamplingFactor::all() {
        assert_eq!(OversamplingFactor::from_factor(factor.factor() as u8), factor);
    }
    assert_eq!(OversamplingFactor::X1.factor(), 1);
    assert_eq!(OversamplingFactor::X2.factor(), 2);
    assert_eq!(OversamplingFactor::X4.factor(), 4);
    for other in [0, 1, 3, 5, 8, 255] {
        assert_eq!(OversamplingFactor::from_factor(other), OversamplingFactor::X1);
    }
    assert_eq!(OversamplingFactor::default(), OversamplingFactor::X1);
}

#[test]
fn factors_have_names() {
    let names: Vec<&str> = OversamplingFactor::all().iter().map(|f| f.name()).collect();
    assert_eq!(names, vec!["1x (Off)", "2x", "4x"]);
}

#[test]
fn one_stage_doubles_the_rate() {
    let mut output = vec![9; 6];
    let n = upsample(OversamplingFactor::X2, &vec![1, 2], &vec![(10, 11), (20, 21)], &mut output);
    assert_eq!(n, 4);
    assert_eq!(output, vec![10, 11, 20, 21, 9, 9]);
}

#[test]
fn two_stages_double_the_rate_twice() {
    // A filter that holds its sample stands in for both stages.
    let input = vec![1, 2];
    let first: Vec<(u32, u32)> = input.iter().map(|&s| (s, s + 10)).collect();
    let between = spread_pairs(&first);
    assert_eq!(between, vec![1, 11, 2, 12]);
    let second: Vec<(u32, u32)> = between.iter().map(|&s| (s, s + 100)).collect();
    let mut output = vec![0; 8];
    let n = upsample(OversamplingFactor::X4, &input, &second, &mut output);
    assert_eq!(n, 8);
    assert_eq!(output, vec![1, 101, 11, 111, 2, 102, 12, 112]);
}

#[test]
fn no_oversampling_copies() {
    let mut output = vec![9; 3];
    assert_eq!(upsample(OversamplingFactor::X1, &vec![1, 2], &vec![], &mut output), 2);
    assert_eq!(output, vec![1, 2, 9]);
    assert_eq!(downsample(OversamplingFactor::X1, &vec![5], &vec![], &mut output), 1);
    assert_eq!(output, vec![5, 2, 9]);
}

#[test]
fn downsampling_takes_pairs_in_order() {
    let input = vec![1, 2, 3, 4, 5];
    assert_eq!(downsample_pairs(OversamplingFactor::X2, &input), vec![(1, 2), (3, 4)]);
    let mut output = vec![9; 3];
    assert_eq!(downsample(OversamplingFactor::X2, &input, &vec![30, 40], &mut output), 2);
    assert_eq!(output, vec![30, 40, 9]);
    // Of seven samples, three make no whole output sample at a quarter of the rate.
    let input = vec![1, 2, 3, 4, 5, 6, 7];
    let pairs = downsample_pairs(OversamplingFactor::X4, &input);
    assert_eq!(pairs, vec![(1, 2), (3, 4)]);
    let halved: Vec<u32> = pairs.iter().map(|p| p.0 + p.1).collect();
    assert_eq!(last_pairs(&halved), vec![(3, 7)]);
    assert_eq!(downsample(OversamplingFactor::X4, &input, &vec![10], &mut output), 1);
    assert_eq!(output, vec![10, 40, 9]);
    assert!(downsample_pairs(OversamplingFactor::X1, &input).is_empty());
}

#[test]
fn gathering_undoes_spreading() {
    let pairs = vec![(1, 2), (3, 4), (5, 6)];
    assert_eq!(last_pairs(&spread_pairs(&pairs)), pairs);
}

#[test]
fn buffers_hold_the_highest_rate() {
    let mut stereo = StereoOversampler::new(2);
    assert_eq!(stereo.buffer_left, vec![0; 8]);
    assert_eq!(stereo.buffer_right, vec![0; 8]);
    stereo.buffer_left[7] = 5;
    stereo.ensure_buffer_size(1);
    assert_eq!((stereo.max_block_size, stereo.buffer_left.len()), (2, 8));
    stereo.ensure_buffer_size(3);
    assert_eq!((stereo.max_block_size, stereo.buffer_left.len()), (3, 12));
    assert_eq!(stereo.buffer_left[7], 5);
    assert_eq!(&stereo.buffer_left[8..], &[0; 4]);
    {
        let (left, right) = stereo.get_oversampled_buffers(OversamplingFactor::X2, 2);
        assert_eq!((left.len(), right.len()), (4, 4));
        left[0] = 1;
        right[3] = 2;
    }
    assert_eq!(stereo.buffer_left[0], 1);
    assert_eq!(stereo.buffer_right[3], 2);
    assert_eq!(stereo.buffer_left[7], 5);
    assert_eq!(stereo.get_oversampled_buffers(OversamplingFactor::X4, 3).0.len(), 12);
    assert_eq!(stereo.get_oversampled_buffers(OversamplingFactor::X1, 3).1.len(), 3);
}

#[test]
fn selected_factor_waits_for_the_reload() {
    let mut os = Oversampling::new();
    assert!(!os.select(OversamplingFactor::X1));
    assert!(!os.is_waiting());
    assert!(os.select(OversamplingFactor::X4));
    assert_eq!(os, Oversampling { actual: 1, pending: 4 });
    assert!(os.is_waiting());
    assert!(!os.select(OversamplingFactor::X4));
    os.reloaded();
    assert_eq!(os, Oversampling { actual: 4, pending: 4 });
    assert_eq!(os.selection(), OversamplingFactor::X4);
    assert!(!os.is_waiting());
}

#[test]
fn scripts_run_at_the_oversampled_rate() {
    assert_eq!(dsp_sample_rate(48000, OversamplingFactor::X1), 48000);
    assert_eq!(dsp_sample_rate(48000, OversamplingFactor::X2), 96000);
    assert_eq!(dsp_sample_rate(u32::MAX, OversamplingFactor::X4), 4 * u32::MAX as u64);
}

/// A filter that gives its sample and the sum of all samples so far.
fn summed(state: &mut u32, samples: &[u32]) -> Vec<(u32, u32)> {
    samples
        .iter()
        .map(|s| {
            *state += s;
            (*s, *state)
        })
        .collect()
}

#[test]
fn block_boundaries_do_not_show() {
    for factor in OversamplingFactor::all() {
        let run = |blocks: &[Vec<u32>]| {
            let (mut first, mut second) = (0, 0);
            let mut written: Vec<u32> = vec![];
            for block in blocks {
                let pairs = match factor {
                    OversamplingFactor::X1 => vec![],
                    OversamplingFactor::X2 => summed(&mut first, block),
                    OversamplingFactor::X4 => {
                        let pairs = summed(&mut first, block);
                        summed(&mut second, &spread_pairs(&pairs))
                    }
                };
                let mut output = vec![0; block.len() * 4 + 1];
                let n = upsample(factor, block, &pairs, &mut output);
                written.extend(&output[..n]);
            }
            (written, first, second)
        };
        let (a, b) = (vec![1, 2, 3], vec![4, 5]);
        assert_eq!(run(&[a.clone(), b.clone()]), run(&[[a, b].concat()]));
    }
}
