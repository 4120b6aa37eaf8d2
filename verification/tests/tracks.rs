use loop_studio::audio::decoder::{
    DecodeError, DecodeOutcome, DecodeStep, Decoding, ReadOutcome, TrackHeader,
};
use loop_studio::audio::output::{fallback_format, mismatch, DeviceDefault, OutputError};
use loop_studio::engine::worker::OutputFormat;
use loop_studio::track::peaks::TrackPeaks;
use loop_studio::track::{LoopRegion, NamedLoop, Track};

#[test]
fn frames_are_whole_ones() {
    let t = Track { samples: vec![0.0f32; 7], sample_rate: 1, channels: 2 };
    assert_eq!(t.frame_count(), 3);
}

#[test]
fn a_named_loop_knows_its_region() {
    let l = NamedLoop { start: 3, end: 9, label: "riff".to_string() };
    assert_eq!(l.region(), LoopRegion { start: 3, end: 9 });
}

#[test]
fn peaks_are_taken_bucket_by_bucket() {
    let mut samples = vec![0.0f32; 1500 * 2];
    samples[5] = -0.5;
    samples[2047] = 0.75;
    samples[2048] = -1.0;
    samples[2999] = 0.25;
    let t = Track { samples, sample_rate: 1, channels: 2 };
    let p = TrackPeaks::compute(&t);
    assert_eq!(p.len(), 2);
    assert_eq!(p.min, vec![-0.5, -1.0]);
    assert_eq!(p.max, vec![0.75, 0.25]);
}

#[test]
fn peaks_are_samples_of_their_bucket() {
    let t = Track { samples: vec![0.5f32, 0.25], sample_rate: 44100, channels: 1 };
    let p = TrackPeaks::compute(&t);
    assert_eq!((p.min, p.max), (vec![0.25], vec![0.5]));
    let mut samples = vec![-0.5f32; 1025];
    samples[1024] = -0.75;
    let t = Track { samples, sample_rate: 44100, channels: 1 };
    let p = TrackPeaks::compute(&t);
    assert_eq!((p.min, p.max), (vec![-0.5, -0.75], vec![-0.5, -0.75]));
    let none = Track { samples: Vec::<f32>::new(), sample_rate: 1, channels: 1 };
    assert_eq!(TrackPeaks::compute(&none).len(), 0);
}

#[test]
fn a_file_needs_a_track_a_rate_and_channels() {
    let h = TrackHeader { track_id: 4, sample_rate: Some(48000), channels: Some(2) };
    assert_eq!(Decoding::<f32>::start(None).err(), Some(DecodeError::NoTrack));
    assert_eq!(
        Decoding::<f32>::start(Some(TrackHeader { sample_rate: None, ..h })).err(),
        Some(DecodeError::NoSampleRate)
    );
    assert_eq!(
        Decoding::<f32>::start(Some(TrackHeader { channels: None, ..h })).err(),
        Some(DecodeError::NoChannelLayout)
    );
}

#[test]
fn packets_are_taken_passed_over_or_fatal() {
    let h = TrackHeader { track_id: 4, sample_rate: Some(48000), channels: Some(2) };
    let mut d = Decoding::<f32>::start(Some(h)).ok().unwrap();
    assert_eq!(d.after_read(ReadOutcome::Packet(4)), DecodeStep::Take);
    assert_eq!(d.after_read(ReadOutcome::Packet(5)), DecodeStep::Skip);
    assert_eq!(d.after_read(ReadOutcome::EndOfFile), DecodeStep::Finish);
    assert_eq!(d.after_read(ReadOutcome::Failed), DecodeStep::Fail);
    assert_eq!(d.after_decode(DecodeOutcome::Decoded, &[1.0, 2.0]), DecodeStep::Take);
    assert_eq!(d.after_decode(DecodeOutcome::Damaged, &[7.0]), DecodeStep::Skip);
    assert_eq!(d.after_decode(DecodeOutcome::Decoded, &[3.0]), DecodeStep::Take);
    assert_eq!(d.after_decode(DecodeOutcome::Failed, &[8.0]), DecodeStep::Fail);
    let t = d.finish();
    assert_eq!(t.samples, vec![1.0, 2.0, 3.0]);
    assert_eq!((t.sample_rate, t.channels), (48000, 2));
}

#[test]
fn the_device_default_must_take_single_precision() {
    let format = OutputFormat { sample_rate: 48000, channels: 2 };
    assert_eq!(fallback_format(DeviceDefault { format, single_precision: true }), Ok(format));
    assert_eq!(
        fallback_format(DeviceDefault { format, single_precision: false }),
        Err(OutputError::UnsupportedSamples)
    );
    let m = mismatch(OutputFormat { sample_rate: 44100, channels: 2 }, format);
    assert_eq!((m.sample_rate, m.channels), (true, false));
}
