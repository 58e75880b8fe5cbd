use chromaprint::resampler::clip;
use chromaprint::resampler::Resampler;

#[test]
fn clip_limits_to_the_interval() {
    assert_eq!(clip(5, -10, 10), 5);
    assert_eq!(clip(-11, -10, 10), -10);
    assert_eq!(clip(11, -10, 10), 10);
    assert_eq!(clip(-10, -10, 10), -10);
    assert_eq!(clip(10, -10, 10), 10);
    assert_eq!(clip(40000, -32768, 32767), 32767);
    assert_eq!(clip(-40000, -32768, 32767), -32768);
}

#[test]
fn averages_neighbours_at_equal_rates() {
    let mut resampler = Resampler::new(1, 1, 0, 2, vec![16384, 16384]);
    let mut dst = [0i16; 6];
    let result = resampler.resample(&[100, 200, 400, -100], &mut dst);
    assert_eq!(result, (3, 2));
    assert_eq!(dst, [150, 300, 150, 0, 0, 0]);
}

#[test]
fn stops_when_the_output_is_full() {
    let mut resampler = Resampler::new(1, 1, 0, 2, vec![16384, 16384]);
    let mut dst = [7i16; 2];
    let result = resampler.resample(&[100, 200, 400, -100], &mut dst);
    assert_eq!(result, (2, 1));
    assert_eq!(dst, [150, 300]);
}

#[test]
fn leaves_the_output_alone_without_a_whole_window() {
    let mut resampler = Resampler::new(1, 1, 0, 2, vec![16384, 16384]);
    let mut dst = [7i16; 3];
    assert_eq!(resampler.resample(&[100], &mut dst), (0, 0));
    assert_eq!(dst, [7, 7, 7]);
    assert_eq!(resampler.resample(&[], &mut dst), (0, 0));
    assert_eq!(dst, [7, 7, 7]);
}

#[test]
fn reflects_the_input_left_of_the_first_sample() {
    let mut resampler = Resampler::new(1, 1, 0, 3, vec![8192, 16384, 8192]);
    let mut dst = [0i16; 6];
    let result = resampler.resample(&[100, 200, 400, -100, 8], &mut dst);
    assert_eq!(result, (3, 3));
    assert_eq!(dst, [225, 225, 225, 52, 0, 0]);
}

#[test]
fn carries_the_position_over_to_the_next_block() {
    let mut resampler = Resampler::new(1, 1, 0, 3, vec![8192, 16384, 8192]);
    let mut dst = [0i16; 6];
    let (consumed, _) = resampler.resample(&[100, 200, 400, -100, 8], &mut dst);
    assert_eq!(consumed, 3);
    let mut dst = [0i16; 6];
    let result = resampler.resample(&[8, 16, 24], &mut dst);
    assert_eq!(result, (1, 0));
    assert_eq!(dst, [16, 0, 0, 0, 0, 0]);
}

#[test]
fn saturates_to_sixteen_bits() {
    let mut resampler = Resampler::new(1, 1, 0, 2, vec![32767, 32767]);
    let mut dst = [0i16; 3];
    let result = resampler.resample(&[32767, 32767, -32768, -32768], &mut dst);
    assert_eq!(result, (3, 2));
    assert_eq!(dst, [32767, -1, -32768]);
}

#[test]
fn rounds_halves_up() {
    let mut resampler = Resampler::new(1, 1, 0, 2, vec![16384, 0]);
    let mut dst = [0i16; 4];
    let result = resampler.resample(&[-1, -3, 3, 1, 5], &mut dst);
    assert_eq!(result, (4, 3));
    assert_eq!(dst, [0, -1, 2, 1]);
}

#[test]
fn halves_the_rate_with_two_phases() {
    let taps = vec![0, 32767, 0, 0, 0, 16384, 16384, 0];
    let mut resampler = Resampler::new(1, 2, 1, 4, taps);
    let mut dst = [0i16; 8];
    let src = [10, 20, 30, 40, 50, 60, 70, 80, 90, 100];
    let result = resampler.resample(&src, &mut dst);
    assert_eq!(result, (7, 3));
    assert_eq!(dst, [20, 30, 50, 70, 0, 0, 0, 0]);
}

#[test]
fn raises_the_rate_through_the_phases() {
    let taps = vec![32767, 0, 16384, 16384];
    let mut resampler = Resampler::new(3, 2, 1, 2, taps);
    let src = [1000i16, 2000, 3000, 4000];
    let mut dst = [0i16; 4];
    let result = resampler.resample(&src, &mut dst);
    assert_eq!(result, (2, 3));
    assert_eq!(dst, [1000, 1500, 2000, 3000]);
    let mut dst = [0i16; 4];
    let result = resampler.resample(&src[2..], &mut dst);
    assert_eq!(result, (1, 0));
    assert_eq!(dst, [3500, 0, 0, 0]);
}

#[test]
fn steps_over_samples_when_the_filter_is_shorter_than_a_step() {
    let mut resampler = Resampler::new(1, 4, 0, 1, vec![16384]);
    let mut dst = [0i16; 4];
    let result = resampler.resample(&[10, 20, 30, 40, 50, 60], &mut dst);
    // The position ends two samples past the end of the block.
    assert_eq!(result, (8, 1));
    assert_eq!(dst, [5, 25, 0, 0]);
}
