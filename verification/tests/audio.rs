use jukebox::audio::{adapt, scale_sample, AudioFormat, DecodedAudio};

fn mono(rate: u32, samples: Vec<i32>) -> DecodedAudio {
    DecodedAudio { channels: 1, sample_rate: rate, samples }
}

#[test]
fn adapt_identity_format() {
    let src = mono(4, vec![3, -1, 7, 0]);
    let fmt = AudioFormat { channels: 1, sample_rate: 4 };
    assert_eq!(adapt(&src, &fmt), vec![3, -1, 7, 0]);
}

#[test]
fn adapt_upsamples_with_linear_interpolation() {
    let src = mono(1, vec![0, 10]);
    let fmt = AudioFormat { channels: 1, sample_rate: 2 };
    // positions 0, 1/2, 1, 3/2: the last holds the final frame
    assert_eq!(adapt(&src, &fmt), vec![0, 5, 10, 10]);
}

#[test]
fn adapt_downsamples() {
    let src = mono(4, vec![0, 2, 4, 6]);
    let fmt = AudioFormat { channels: 1, sample_rate: 2 };
    // every other input frame
    assert_eq!(adapt(&src, &fmt), vec![0, 4]);
}

#[test]
fn adapt_duplicates_mono_to_stereo() {
    let src = mono(8, vec![5, -9]);
    let fmt = AudioFormat { channels: 2, sample_rate: 8 };
    assert_eq!(adapt(&src, &fmt), vec![5, 5, -9, -9]);
}

#[test]
fn adapt_mixes_stereo_down_to_mono() {
    let src = DecodedAudio { channels: 2, sample_rate: 8, samples: vec![4, 6, -3, 2] };
    let fmt = AudioFormat { channels: 1, sample_rate: 8 };
    // (4 + 6) / 2 = 5; (-3 + 2) / 2 rounds toward negative infinity
    assert_eq!(adapt(&src, &fmt), vec![5, -1]);
}

#[test]
fn adapt_empty_source() {
    let src = mono(44100, vec![]);
    let fmt = AudioFormat { channels: 2, sample_rate: 48000 };
    assert_eq!(adapt(&src, &fmt), Vec::<i32>::new());
}

#[test]
fn volume_scaling_is_fixed_point() {
    assert_eq!(scale_sample(100, 500), 50);
    assert_eq!(scale_sample(100, 1000), 100);
    assert_eq!(scale_sample(100, 2000), 200);
    assert_eq!(scale_sample(7, 0), 0);
    // rounding is toward negative infinity
    assert_eq!(scale_sample(-101, 500), -51);
    assert_eq!(scale_sample(101, 500), 50);
}
