//! The parts that need no conversion: frames, samples, rings and formats.

use flexaudio::chunk_ring::ChunkRing;
use flexaudio::frames::{convert_channels, mix_to_stereo, pad_with_silence, resize_with_silence};
use flexaudio::resampler::{block_frames_of, ResamplerState};
use flexaudio::sample::{abs_bits, gain_is_valid, limit, peak};
use flexaudio::tap::{is_countable, OutputTap};
use flexaudio::types::{join, ChunkFlags, Error, OutputFormat, StreamConfig};

fn bits(floats: &[f32]) -> Vec<u32> {
    floats.iter().map(|x| x.to_bits()).collect()
}

#[test]
fn mixing_takes_the_first_two_channels() {
    let mut out = vec![9];
    mix_to_stereo(&[1, 2, 3], 1, 2, &mut out);
    assert_eq!(out, vec![9, 1, 1, 2, 2]);
    let mut out = Vec::new();
    mix_to_stereo(&[1, 2, 3, 4, 5], 2, 2, &mut out);
    assert_eq!(out, vec![1, 2, 3, 4]);
    let mut out = Vec::new();
    mix_to_stereo(&[1, 2, 3, 4, 5, 6], 3, 2, &mut out);
    assert_eq!(out, vec![1, 2, 4, 5]);
    let mut out = Vec::new();
    mix_to_stereo(&[1, 2, 3, 4, 5, 6], 2, 1, &mut out);
    assert_eq!(out, vec![1, 2]);
    mix_to_stereo(&[1, 2, 3, 4, 5, 6], 2, 0, &mut out);
    assert_eq!(out, vec![1, 2]);
}

#[test]
fn channels_are_converted() {
    assert_eq!(convert_channels(&[1, 2, 3, 4], &[7, 8], 1), vec![7, 8]);
    assert_eq!(convert_channels(&[1, 2, 3, 4, 5], &[], 2), vec![1, 2, 3, 4]);
    assert_eq!(convert_channels(&[1, 2, 3, 4], &[], 4), vec![1, 1, 1, 1, 3, 3, 3, 3]);
}

#[test]
fn silence_fills_up() {
    let mut buf = vec![1, 2, 3];
    resize_with_silence(&mut buf, 5);
    assert_eq!(buf, vec![1, 2, 3, 0, 0]);
    resize_with_silence(&mut buf, 2);
    assert_eq!(buf, vec![1, 2]);
    let mut buf = vec![1, 2, 3];
    pad_with_silence(&mut buf, 4);
    assert_eq!(buf, vec![1, 2, 3, 0]);
    pad_with_silence(&mut buf, 4);
    assert_eq!(buf.len(), 4);
}

/// The bit patterns order, limit and negate as the numbers do.
#[test]
fn bit_patterns_agree_with_numbers() {
    let cases = [
        0.0f32,
        -0.0,
        0.5,
        -0.5,
        1.0,
        -1.0,
        1.000_000_1,
        -3.5,
        f32::MAX,
        f32::MIN_POSITIVE,
        f32::INFINITY,
        f32::NEG_INFINITY,
        f32::NAN,
        1.0e-40,
    ];
    for x in cases {
        assert_eq!(abs_bits(x.to_bits()), x.abs().to_bits());
        assert_eq!(gain_is_valid(x.to_bits()), x.is_finite() && !(x < 0.0));
        assert_eq!(limit(vec![x.to_bits()]), bits(&[x.clamp(-1.0, 1.0)]));
    }
    let mut expected = 0.0f32;
    for x in cases {
        if x.abs() > expected {
            expected = x.abs();
        }
    }
    assert_eq!(peak(&bits(&cases)), expected.to_bits());
    assert_eq!(peak(&[]), 0);
    assert_eq!(peak(&bits(&[0.25, -0.75, 0.5])), 0.75f32.to_bits());
    assert_eq!(peak(&bits(&[f32::NAN, -0.1])), 0.1f32.to_bits());
}

#[test]
fn ring_drops_the_oldest() {
    let mut ring = ChunkRing::new(2);
    assert!(!ring.is_full());
    assert_eq!(ring.push('a'), None);
    assert_eq!(ring.push('b'), None);
    assert!(ring.is_full());
    assert_eq!(ring.push('c'), Some(1));
    assert_eq!(ring.push('d'), Some(2));
    assert_eq!(ring.dropped_count(), 2);
    assert_eq!(ring.try_pop(), Some('c'));
    assert_eq!(ring.try_pop(), Some('d'));
    assert_eq!(ring.try_pop(), None);
}

#[test]
fn blocks_are_cut_off_the_front() {
    let mut rs = ResamplerState::new(1_000, 48_000, 1, 20);
    assert_eq!(rs.plan().chunk_in_frames, 64);
    let input: Vec<u32> = (0..130).collect();
    rs.extend(&input);
    let mut out = Vec::new();
    assert!(rs.is_ready());
    assert_eq!(rs.block(), (0..64).collect::<Vec<u32>>());
    assert_eq!(rs.drain_into(&[5, 6, 7], &mut out), 3);
    assert_eq!(rs.block(), (64..128).collect::<Vec<u32>>());
    assert_eq!(rs.drain_into(&[8], &mut out), 1);
    assert!(!rs.is_ready());
    assert_eq!(rs.remaining(), 2);
    rs.square();
    assert_eq!(rs.waiting().len(), 64);
    assert_eq!(&rs.waiting()[..3], &[128, 129, 0]);
    assert_eq!(rs.flush_into(&[9], &mut out), 1);
    assert_eq!(out, vec![5, 6, 7, 8, 9]);
    assert_eq!(rs.remaining(), 0);
    assert_eq!(rs.flush_into(&[9], &mut out), 0);
    assert_eq!(out.len(), 5);
}

#[test]
fn blocks_have_a_least_size() {
    assert_eq!(block_frames_of(48_000, 20), 960);
    assert_eq!(block_frames_of(44_100, 20), 882);
    assert_eq!(block_frames_of(44_100, 1), 64);
    assert_eq!(block_frames_of(0, 20), 64);
}

#[test]
fn formats_are_validated() {
    let cases = [
        (8_000, 1, true),
        (7_999, 1, false),
        (192_000, 2, true),
        (192_001, 2, false),
        (48_000, 0, false),
        (48_000, 3, false),
    ];
    for (sample_rate, channels, ok) in cases {
        assert_eq!(OutputFormat { sample_rate, channels }.validate().is_ok(), ok);
    }
    assert_eq!(OutputFormat { sample_rate: 16_000, channels: 1 }.chunk_frames_for(20), 320);
    assert_eq!(OutputFormat { sample_rate: 44_100, channels: 1 }.chunk_frames_for(10), 441);
    assert_eq!(OutputFormat { sample_rate: 11_025, channels: 1 }.chunk_frames_for(20), 220);
}

#[test]
fn huge_chunks_cannot_be_counted() {
    assert!(is_countable(OutputFormat::default(), 20));
    assert!(is_countable(OutputFormat { sample_rate: u32::MAX, channels: 2 }, 20));
    let huge = OutputFormat { sample_rate: u32::MAX, channels: u16::MAX };
    assert!(!is_countable(huge, u32::MAX));
}

#[test]
fn tap_counts_its_frames() {
    let mut tap = OutputTap::new(OutputFormat { sample_rate: 48_000, channels: 1 }, 1);
    tap.update_pts_anchor(0, 1_000);
    tap.feed_inner(&[1; 200], &[2; 100]);
    assert_eq!(tap.buffered_out_frames(), 100);
    assert_eq!(tap.pop(0), Some((vec![2; 48], 1_000)));
    assert_eq!(tap.pop(0), Some((vec![2; 48], 1_000 + 48 * 20_833)));
    assert_eq!(tap.pop(0), None);
    tap.flush();
    let (last, _) = tap.pop(0).expect("padded chunk");
    assert_eq!(&last[..5], &[2, 2, 2, 2, 0]);
}

/// Frames before and after the anchor lie as far apart in time as in number.
#[test]
fn times_are_linear() {
    let mut tap = OutputTap::new(OutputFormat { sample_rate: 48_000, channels: 2 }, 1);
    tap.feed_inner(&[1; 96 * 4], &[]);
    tap.update_pts_anchor(96, 5_000_000);
    let mut times = Vec::new();
    while let Some((_, pts)) = tap.pop(0) {
        times.push(pts - 5_000_000);
    }
    assert_eq!(times, vec![-96 * 20_833, -48 * 20_833, 0, 48 * 20_833]);
}

#[test]
fn errors_have_texts() {
    assert_eq!(Error::InvalidArg(String::from("x")).text(), "invalid argument: x");
    assert_eq!(Error::InvalidState(String::from("x")).text(), "invalid state: x");
    assert_eq!(Error::UnsupportedFormat(String::from("x")).text(), "unsupported format: x");
    assert_eq!(Error::Backend(String::from("x")).duplicate().text(), "backend error: x");
    assert_eq!(join("a", "bc"), "abc");
}

#[test]
fn defaults() {
    let config = StreamConfig::default();
    assert_eq!(config.output, OutputFormat { sample_rate: 48_000, channels: 2 });
    assert_eq!(config.secondary_output, None);
    assert_eq!(config.chunk_ms, 20);
    assert_eq!(config.gain_bits, 1.0f32.to_bits());
    assert_eq!(ChunkFlags::empty(), ChunkFlags { discontinuity: false, recovered: false });
}
