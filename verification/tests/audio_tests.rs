use praise_mod::audio::{
    dpo_obfuscate, mix_samples, mix_samples_i32, resample_audio, AudioMeta, AudioReader,
    AudioWriter, ResampledReader,
};

#[test]
fn mixing_saturates_at_both_rails() {
    assert_eq!(mix_samples(100, 200), 300);
    assert_eq!(mix_samples(30000, 30000), i16::MAX);
    assert_eq!(mix_samples(-30000, -30000), i16::MIN);
    assert_eq!(mix_samples_i32(1, 2), 3);
    assert_eq!(mix_samples_i32(i32::MAX, 1), i32::MAX);
    assert_eq!(mix_samples_i32(i32::MIN, -1), i32::MIN);
}

#[test]
fn merge_appends_and_mixes_interleaved() {
    let mut w = AudioWriter::new(44100);
    assert_eq!(w.channels, 2);
    // first merge of a stereo source appends its frames
    w.merge_from(&vec![vec![100, 200], vec![10, 20]]);
    assert_eq!(w.samples, vec![100, 10, 200, 20]);
    // a mono source mixes into the overlap only
    w.merge_from(&vec![vec![5]]);
    assert_eq!(w.samples, vec![105, 10, 200, 20]);
    // a longer stereo source mixes then appends
    w.merge_from(&vec![vec![1, 1, 1], vec![2, 2, 2]]);
    assert_eq!(w.samples, vec![106, 12, 201, 22, 1, 2]);
}

#[test]
fn sources_with_unusable_channel_counts_are_ignored() {
    let mut w = AudioWriter::new(44100);
    w.merge_from(&vec![vec![1], vec![2], vec![3]]);
    assert_eq!(w.samples.len(), 0);
    w.merge_from(&Vec::new());
    assert_eq!(w.samples.len(), 0);
}

#[test]
fn clipping_is_rescaled_to_the_sample_range() {
    let mut w = AudioWriter { channels: 2, sample_rate: 44100, samples: vec![65534, -32767, 100] };
    w.fix_clipping();
    assert_eq!(w.samples[0], 32767);
    assert_eq!(w.samples[1], -16383);
    assert_eq!(w.samples[2], 50);
    // a quiet track is left alone
    let mut q = AudioWriter { channels: 2, sample_rate: 44100, samples: vec![100, -200] };
    q.fix_clipping();
    assert_eq!(q.samples, vec![100, -200]);
}

#[test]
fn silencing_zeroes_every_sample() {
    let mut w = AudioWriter { channels: 2, sample_rate: 44100, samples: vec![4, -5, 6] };
    w.make_silent();
    assert_eq!(w.samples, vec![0, 0, 0]);
    assert_eq!(w.samples_as_i16(), vec![0, 0, 0]);
}

#[test]
fn obfuscation_is_an_involution() {
    let mut data = vec![0u8, 1, 10, 255, 77];
    dpo_obfuscate(&mut data);
    assert_eq!(data, vec![10u8, 11, 0, 245, 71]);
    dpo_obfuscate(&mut data);
    assert_eq!(data, vec![0u8, 1, 10, 255, 77]);
}

#[test]
fn resampling_halves_the_sample_count() {
    let samples = vec![vec![1000i16; 1000]];
    let r = resample_audio(&samples, 48000, 24000).unwrap();
    assert_eq!(r.get_sample_rate(), 24000);
    assert_eq!(r.get_channel_count(), 1);
    let out = r.get_samples();
    assert_eq!(out.len(), 1);
    assert_ne!(out[0].len(), 1000);
    assert!(out[0].len() >= 400 && out[0].len() <= 600);
}

#[test]
fn stereo_resampling_through_the_reader() {
    let reader = ResampledReader { sample_rate: 48000, samples: vec![vec![7i16; 480], vec![7i16; 480]] };
    let again = reader.resample(96000).unwrap();
    assert_eq!(again.sample_rate, 96000);
    assert_eq!(again.samples.len(), 2);
    assert!(again.samples[0].len() >= 900);
}

#[test]
fn too_many_channels_cannot_be_resampled() {
    let samples = vec![vec![0i16; 10], vec![0i16; 10], vec![0i16; 10]];
    assert!(resample_audio(&samples, 48000, 24000).is_none());
}
