//! The normalizer with real rate conversions behind its steps.

use std::f32::consts::PI;

use flexaudio::normalizer::{Normalizer, Step, Unit};
use flexaudio::resampler::ResamplerPlan;
use flexaudio::types::{Error, OutputFormat, CHUNK_FRAMES};
use rubato::audioadapter_buffers::direct::InterleavedSlice;
use rubato::{
    Async, FixedAsync, Indexing, Resampler, SincInterpolationParameters, SincInterpolationType,
    WindowFunction,
};

/// One rate conversion.
struct Engine {
    inner: Async<f32>,
    plan: ResamplerPlan,
    scratch: Vec<f32>,
}

impl Engine {
    fn new(plan: ResamplerPlan) -> Result<Engine, Error> {
        let params = SincInterpolationParameters {
            sinc_len: 128,
            f_cutoff: 0.95,
            interpolation: SincInterpolationType::Linear,
            oversampling_factor: 128,
            window: WindowFunction::BlackmanHarris2,
        };
        let inner = Async::<f32>::new_sinc(
            plan.out_rate as f64 / plan.in_rate as f64,
            1.0,
            &params,
            plan.chunk_in_frames,
            plan.channels,
            FixedAsync::Input,
        )
        .map_err(|e| Error::Backend(format!("rubato sinc resampler construction failed: {e}")))?;
        let scratch = vec![0.0; inner.output_frames_max() * plan.channels];
        Ok(Engine { inner, plan, scratch })
    }

    fn convert(&mut self, input: &[u32], partial: Option<usize>) -> Result<Vec<u32>, String> {
        let floats: Vec<f32> = input.iter().map(|&b| f32::from_bits(b)).collect();
        let channels = self.plan.channels;
        let max_out = self.scratch.len() / channels;
        let source = InterleavedSlice::new(&floats[..], channels, self.plan.chunk_in_frames)
            .map_err(|e| format!("rubato interleaved input adapter failed: {e}"))?;
        let mut sink = InterleavedSlice::new_mut(&mut self.scratch[..], channels, max_out)
            .map_err(|e| format!("rubato interleaved output adapter failed: {e}"))?;
        let indexing = Indexing {
            input_offset: 0,
            output_offset: 0,
            partial_len: partial,
            active_channels_mask: None,
        };
        let (_, written) = self
            .inner
            .process_into_buffer(&source, &mut sink, Some(&indexing))
            .map_err(|e| format!("rubato process_into_buffer failed: {e}"))?;
        Ok(self.scratch[..written * channels].iter().map(|x| x.to_bits()).collect())
    }
}

/// Works on the inner form.
trait InnerProcessor {
    fn process(&mut self, samples: &mut [f32]);
    fn flush(&mut self) -> Vec<f32>;
}

/// Answers the steps of a normalizer.
struct Driver {
    n: Normalizer,
    engines: [Option<Engine>; 3],
    processor: Option<Box<dyn InnerProcessor>>,
    /// Number of the next conversion that fails instead, if any.
    fail_at: Option<usize>,
    conversions: usize,
}

fn slot(unit: Unit) -> usize {
    match unit {
        Unit::Inner => 0,
        Unit::Primary => 1,
        Unit::Secondary => 2,
    }
}

fn engine_for(n: &Normalizer, unit: Unit) -> Result<Option<Engine>, Error> {
    match n.plan(unit) {
        None => Ok(None),
        Some(plan) => Ok(Some(Engine::new(plan)?)),
    }
}

impl Driver {
    fn new(in_rate: u32, in_channels: u16, output: OutputFormat) -> Result<Driver, Error> {
        Driver::around(Normalizer::new(in_rate, in_channels, output)?)
    }

    fn new_with_chunk_ms(
        in_rate: u32,
        in_channels: u16,
        output: OutputFormat,
        chunk_ms: u32,
    ) -> Result<Driver, Error> {
        Driver::around(Normalizer::new_with_chunk_ms(in_rate, in_channels, output, chunk_ms)?)
    }

    fn around(n: Normalizer) -> Result<Driver, Error> {
        let engines = [
            engine_for(&n, Unit::Inner)?,
            engine_for(&n, Unit::Primary)?,
            engine_for(&n, Unit::Secondary)?,
        ];
        Ok(Driver { n, engines, processor: None, fail_at: None, conversions: 0 })
    }

    fn with_secondary(self, secondary: OutputFormat) -> Result<Driver, Error> {
        Driver::around(self.n.with_secondary(secondary)?)
    }

    fn with_inner_processor(self, processor: Box<dyn InnerProcessor>) -> Driver {
        Driver {
            n: self.n.with_inner_processor(),
            engines: self.engines,
            processor: Some(processor),
            fail_at: self.fail_at,
            conversions: self.conversions,
        }
    }

    fn run(&mut self, first: Step) -> Result<(), Error> {
        let mut step = first;
        loop {
            let answer: Result<Vec<u32>, String> = match step {
                Step::Done(r) => return r,
                Step::Resample { unit, input, partial } => {
                    self.conversions += 1;
                    if self.fail_at == Some(self.conversions) {
                        Err(String::from("broken"))
                    } else {
                        self.engines[slot(unit)].as_mut().expect("engine").convert(&input, partial)
                    }
                }
                Step::Process { samples } => {
                    let mut floats = to_floats(&samples);
                    self.processor.as_mut().expect("processor").process(&mut floats);
                    Ok(to_bits(&floats))
                }
                Step::Average { samples } => {
                    let floats = to_floats(&samples);
                    let averages: Vec<f32> =
                        floats.chunks_exact(2).map(|f| (f[0] + f[1]) * 0.5).collect();
                    Ok(to_bits(&averages))
                }
                Step::Tail => Ok(to_bits(&self.processor.as_mut().expect("processor").flush())),
            };
            step = self.n.advance(answer);
        }
    }

    fn push(&mut self, samples: &[f32], pts_ns: i64) -> Result<(), Error> {
        let step = self.n.push(&to_bits(samples), pts_ns);
        self.run(step)
    }

    fn flush(&mut self) {
        let step = self.n.flush();
        let _ = self.run(step);
    }

    fn pop_chunk(&mut self) -> Option<(Vec<f32>, i64)> {
        self.n.pop_chunk(7).map(|(c, p)| (to_floats(&c), p))
    }

    fn pop_secondary(&mut self) -> Option<(Vec<f32>, i64)> {
        self.n.pop_secondary(7).map(|(c, p)| (to_floats(&c), p))
    }

    fn is_passthrough(&self) -> bool {
        self.n.is_passthrough()
    }

    fn is_output_passthrough(&self) -> bool {
        self.n.is_output_passthrough()
    }

    fn has_secondary(&self) -> bool {
        self.n.has_secondary()
    }

    fn secondary_output(&self) -> Option<OutputFormat> {
        self.n.secondary_output()
    }

    fn buffered_out_frames(&self) -> usize {
        self.n.buffered_out_frames()
    }
}

fn to_floats(bits: &[u32]) -> Vec<f32> {
    bits.iter().map(|&b| f32::from_bits(b)).collect()
}

fn to_bits(floats: &[f32]) -> Vec<u32> {
    floats.iter().map(|x| x.to_bits()).collect()
}

fn default_out() -> OutputFormat {
    OutputFormat::default()
}

#[test]
fn mono_48k_to_stereo_duplicates_channels() {
    let mut n = Driver::new(48_000, 1, default_out()).expect("normalizer");
    assert!(n.is_passthrough());
    assert!(n.is_output_passthrough());
    let mono: Vec<f32> = (0..CHUNK_FRAMES).map(|i| (i as f32) * 0.001).collect();
    n.push(&mono, 0).expect("push");
    let (chunk, _pts) = n.pop_chunk().expect("one chunk");
    assert_eq!(chunk.len(), CHUNK_FRAMES * 2);
    for f in 0..CHUNK_FRAMES {
        assert_eq!(chunk[f * 2], chunk[f * 2 + 1], "L==R at frame {f}");
        assert_eq!(chunk[f * 2], mono[f]);
    }
}

#[test]
fn passthrough_preserves_frame_count() {
    let mut n = Driver::new(48_000, 2, default_out()).expect("normalizer");
    assert!(n.is_passthrough());
    assert!(n.is_output_passthrough());
    let frames = CHUNK_FRAMES * 2 + 100;
    let stereo: Vec<f32> = (0..frames * 2).map(|i| (i as f32) * 1e-4).collect();
    n.push(&stereo, 0).expect("push");

    let mut got_frames = 0usize;
    while let Some((c, _)) = n.pop_chunk() {
        assert_eq!(c.len(), CHUNK_FRAMES * 2);
        got_frames += CHUNK_FRAMES;
    }
    assert_eq!(got_frames, CHUNK_FRAMES * 2);
    assert_eq!(n.buffered_out_frames(), 100);
}

#[test]
fn custom_chunk_duration_changes_chunk_shape_and_pts() {
    let mut n =
        Driver::new_with_chunk_ms(48_000, 2, default_out(), 10).expect("normalizer");
    let stereo = vec![0.25f32; (48_000 / 100) * 2 * 3];
    n.push(&stereo, 1_000_000_000).expect("push");

    let mut chunks = Vec::new();
    while let Some((chunk, pts)) = n.pop_chunk() {
        chunks.push((chunk, pts));
    }
    assert_eq!(chunks.len(), 3);
    assert!(chunks.iter().all(|(chunk, _)| chunk.len() == 480 * 2));
    assert!((chunks[1].1 - chunks[0].1 - 10_000_000).abs() <= 1_000);
}

#[test]
fn stereo_44100_to_48000_yields_about_50_chunks_per_second() {
    let mut n = Driver::new(44_100, 2, default_out()).expect("normalizer");
    assert!(!n.is_passthrough());

    let in_frames = 44_100;
    let freq = 440.0_f32;
    let mut interleaved = Vec::with_capacity(in_frames * 2);
    for i in 0..in_frames {
        let s = (2.0 * PI * freq * (i as f32) / 44_100.0).sin() * 0.5;
        interleaved.push(s); // L
        interleaved.push(s); // R
    }

    let mut pts = 0i64;
    for block in interleaved.chunks(441 * 2) {
        n.push(block, pts).expect("push");
        pts += (block.len() as i64 / 2) * 1_000_000_000 / 44_100;
    }

    let mut chunks = 0usize;
    while let Some((c, _pts)) = n.pop_chunk() {
        assert_eq!(c.len(), CHUNK_FRAMES * 2);
        chunks += 1;
    }
    assert!(
        (47..=50).contains(&chunks),
        "expected ~50 chunks, got {chunks}"
    );
}

#[test]
fn pts_increases_monotonically_across_chunks() {
    let mut n = Driver::new(48_000, 2, default_out()).expect("normalizer");
    let frames = CHUNK_FRAMES * 3;
    let stereo = vec![0.0f32; frames * 2];
    n.push(&stereo, 100_000_000).expect("push");

    let mut last = i64::MIN;
    let mut count = 0;
    while let Some((_, pts)) = n.pop_chunk() {
        assert!(pts >= last, "pts must be non-decreasing");
        last = pts;
        count += 1;
    }
    assert_eq!(count, 3);
}


#[test]
fn output_16k_mono_yields_320_frame_mono_chunks() {
    let out = OutputFormat {
        sample_rate: 16_000,
        channels: 1,
    };
    let mut n = Driver::new(48_000, 2, out).expect("normalizer");
    assert!(n.is_passthrough());
    assert!(!n.is_output_passthrough());

    let in_frames = 48_000;
    let freq = 440.0_f32;
    let mut pts = 0i64;
    for blk in 0..(in_frames / 480) {
        let mut block = Vec::with_capacity(480 * 2);
        for j in 0..480 {
            let i = blk * 480 + j;
            let s = (2.0 * PI * freq * (i as f32) / 48_000.0).sin() * 0.5;
            block.push(s);
            block.push(s);
        }
        n.push(&block, pts).expect("push");
        pts += 480 * 1_000_000_000 / 48_000;
    }

    let mut chunks = 0usize;
    while let Some((c, _)) = n.pop_chunk() {
        assert_eq!(c.len(), 320, "16k mono 20ms = 320 sample (mono)");
        chunks += 1;
    }
    assert!(
        (47..=50).contains(&chunks),
        "expected ~50 chunks, got {chunks}"
    );
}

#[test]
fn output_16k_stereo_yields_320_frame_640_sample_chunks() {
    let out = OutputFormat {
        sample_rate: 16_000,
        channels: 2,
    };
    let mut n = Driver::new(48_000, 2, out).expect("normalizer");
    let in_frames = 48_000;
    let stereo: Vec<f32> = (0..in_frames * 2)
        .map(|i| ((i / 2) as f32 * 0.0001).sin() * 0.3)
        .collect();
    for block in stereo.chunks(480 * 2) {
        n.push(block, 0).expect("push");
    }
    let mut chunks = 0usize;
    while let Some((c, _)) = n.pop_chunk() {
        assert_eq!(c.len(), 640, "16k stereo 20ms = 320 frame * 2 = 640 sample");
        chunks += 1;
    }
    assert!(
        (47..=50).contains(&chunks),
        "expected ~50 chunks, got {chunks}"
    );
}

#[test]
fn output_8k_stereo_yields_160_frame_chunks() {
    let out = OutputFormat {
        sample_rate: 8_000,
        channels: 2,
    };
    let mut n = Driver::new(48_000, 2, out).expect("normalizer");
    let stereo: Vec<f32> = (0..48_000 * 2)
        .map(|i| (i as f32 * 1e-5).sin() * 0.2)
        .collect();
    for block in stereo.chunks(480 * 2) {
        n.push(block, 0).expect("push");
    }
    let mut chunks = 0usize;
    while let Some((c, _)) = n.pop_chunk() {
        assert_eq!(c.len(), 320, "8k stereo 20ms = 160 frame * 2 = 320 sample");
        chunks += 1;
    }
    assert!(
        (47..=50).contains(&chunks),
        "expected ~50 chunks, got {chunks}"
    );
}

#[test]
fn stereo_to_mono_is_lr_average() {
    let out = OutputFormat {
        sample_rate: 48_000,
        channels: 1,
    };
    let mut n = Driver::new(48_000, 2, out).expect("normalizer");
    let mut stereo = Vec::with_capacity(CHUNK_FRAMES * 2);
    for _ in 0..CHUNK_FRAMES {
        stereo.push(0.5);
        stereo.push(-0.5);
    }
    n.push(&stereo, 0).expect("push");
    let (chunk, _) = n.pop_chunk().expect("one mono chunk");
    assert_eq!(chunk.len(), CHUNK_FRAMES);
    for &s in &chunk {
        assert!(s.abs() < 1e-6, "逆相の平均は 0 付近のはず: {s}");
    }
}


fn rms(samples: &[f32]) -> f32 {
    if samples.is_empty() {
        return 0.0;
    }
    let sum_sq: f64 = samples.iter().map(|&x| (x as f64) * (x as f64)).sum();
    (sum_sq / samples.len() as f64).sqrt() as f32
}

fn zero_crossings(samples: &[f32]) -> usize {
    let mut crossings = 0;
    for w in samples.windows(2) {
        if (w[0] < 0.0 && w[1] >= 0.0) || (w[0] >= 0.0 && w[1] < 0.0) {
            crossings += 1;
        }
    }
    crossings
}

#[test]
fn resample_44100_to_48000_preserves_amplitude_and_frequency() {
    let mut n = Driver::new(44_100, 1, default_out()).expect("normalizer");
    let freq = 440.0_f32;
    let amp = 0.5_f32;
    let in_rate = 44_100usize;
    let total_frames = in_rate * 2;
    let mut pts = 0i64;
    for blk in 0..(total_frames / 441) {
        let mut block = Vec::with_capacity(441);
        for j in 0..441 {
            let i = blk * 441 + j;
            block.push((2.0 * PI * freq * (i as f32) / in_rate as f32).sin() * amp);
        }
        n.push(&block, pts).expect("push");
        pts += 441 * 1_000_000_000 / in_rate as i64;
    }

    let mut left: Vec<f32> = Vec::new();
    while let Some((c, _)) = n.pop_chunk() {
        assert_eq!(c.len(), CHUNK_FRAMES * 2);
        for f in 0..CHUNK_FRAMES {
            assert_eq!(c[f * 2], c[f * 2 + 1], "mono 入力なので L==R");
            left.push(c[f * 2]);
        }
    }
    assert!(left.len() >= 48_000, "1 秒以上の出力が必要: {}", left.len());

    let start = 12_000;
    let mid = &left[start..start + 48_000];

    let got_rms = rms(mid);
    let expect_rms = amp / std::f32::consts::SQRT_2;
    let rms_err = ((got_rms - expect_rms) / expect_rms).abs();
    assert!(
        rms_err < 0.05,
        "RMS 保存誤差が大きい: got={got_rms} expect={expect_rms} err={rms_err}"
    );

    let crossings = zero_crossings(mid);
    let est_freq = crossings as f32 / 2.0;
    let freq_err = ((est_freq - freq) / freq).abs();
    assert!(
        freq_err < 0.02,
        "周波数 保存誤差が大きい: 交差={crossings} 推定={est_freq}Hz err={freq_err}"
    );
}

#[test]
fn output_16k_mono_preserves_values() {
    let out = OutputFormat {
        sample_rate: 16_000,
        channels: 1,
    };
    let mut n = Driver::new(48_000, 2, out).expect("normalizer");
    let freq = 440.0_f32;
    let amp = 0.5_f32;
    let in_rate = 48_000usize;
    let total_frames = in_rate * 2;
    let mut pts = 0i64;
    for blk in 0..(total_frames / 480) {
        let mut block = Vec::with_capacity(480 * 2);
        for j in 0..480 {
            let i = blk * 480 + j;
            let s = (2.0 * PI * freq * (i as f32) / in_rate as f32).sin() * amp;
            block.push(s); // L
            block.push(s); // R
        }
        n.push(&block, pts).expect("push");
        pts += 480 * 1_000_000_000 / in_rate as i64;
    }

    let mut mono: Vec<f32> = Vec::new();
    while let Some((c, _)) = n.pop_chunk() {
        assert_eq!(c.len(), 320, "16k/mono 20ms = 320 sample（1ch）");
        mono.extend_from_slice(&c);
    }
    assert!(mono.len() >= 16_000, "1 秒以上必要: {}", mono.len());

    let start = 4_000;
    let mid = &mono[start..start + 16_000];

    let got_rms = rms(mid);
    let expect_rms = amp / std::f32::consts::SQRT_2;
    let rms_err = ((got_rms - expect_rms) / expect_rms).abs();
    assert!(
        rms_err < 0.05,
        "16k/mono RMS 保存誤差: got={got_rms} expect={expect_rms} err={rms_err}"
    );

    let est_freq = zero_crossings(mid) as f32 / 2.0;
    let freq_err = ((est_freq - freq) / freq).abs();
    assert!(
        freq_err < 0.02,
        "16k/mono 周波数 保存誤差: 推定={est_freq}Hz err={freq_err}"
    );
}

#[test]
fn pts_delta_is_about_20ms_between_chunks() {
    let mut n = Driver::new(48_000, 2, default_out()).expect("normalizer");
    let mut device_pts = 1_000_000_000i64;
    let block_frames = 480usize;
    for _ in 0..20 {
        let stereo = vec![0.1f32; block_frames * 2];
        n.push(&stereo, device_pts).expect("push");
        device_pts += block_frames as i64 * 1_000_000_000 / 48_000;
    }

    let mut pts_list = Vec::new();
    while let Some((_, pts)) = n.pop_chunk() {
        pts_list.push(pts);
    }
    assert!(
        pts_list.len() >= 5,
        "十分なチャンク数が必要: {}",
        pts_list.len()
    );

    for w in pts_list.windows(2) {
        let delta = w[1] - w[0];
        assert!(delta > 0, "PTS は厳密に増加: {} -> {}", w[0], w[1]);
        assert!(
            (delta - 20_000_000).abs() <= 1_000_000,
            "隣接 PTS delta が ~20ms でない: {delta} ns"
        );
    }
}

#[test]
fn push_empty_and_subframe_are_noops() {
    let mut n = Driver::new(48_000, 2, default_out()).expect("normalizer");
    n.push(&[], 0).expect("empty push ok");
    n.push(&[0.5], 0).expect("subframe push ok");
    assert!(n.pop_chunk().is_none(), "端数だけでは 1 チャンクも出ない");
    assert_eq!(n.buffered_out_frames(), 0);
}

#[test]
fn silence_input_yields_zero_output() {
    let mut n = Driver::new(48_000, 2, default_out()).expect("normalizer");
    let stereo = vec![0.0f32; CHUNK_FRAMES * 2];
    n.push(&stereo, 0).expect("push");
    let (chunk, _) = n.pop_chunk().expect("one chunk");
    assert!(chunk.iter().all(|&s| s == 0.0), "無音入力は無音出力");
}


#[test]
fn no_secondary_tap_by_default() {
    let mut n = Driver::new(48_000, 2, default_out()).expect("normalizer");
    assert!(!n.has_secondary());
    assert_eq!(n.secondary_output(), None);
    let stereo = vec![0.1f32; CHUNK_FRAMES * 2];
    n.push(&stereo, 0).expect("push");
    assert!(n.pop_secondary().is_none(), "副タップ無しなら None");
}

#[test]
fn dual_output_primary_and_secondary_shapes() {
    let secondary = OutputFormat {
        sample_rate: 16_000,
        channels: 1,
    };
    let mut n = Driver::new(48_000, 2, default_out())
        .expect("normalizer")
        .with_secondary(secondary)
        .expect("secondary");
    assert!(n.has_secondary());
    assert_eq!(n.secondary_output(), Some(secondary));

    let mut pts = 0i64;
    for _ in 0..100 {
        let block = vec![0.2f32; 480 * 2];
        n.push(&block, pts).expect("push");
        pts += 480 * 1_000_000_000 / 48_000;
    }

    let mut primary_chunks = 0usize;
    while let Some((c, _)) = n.pop_chunk() {
        assert_eq!(c.len(), CHUNK_FRAMES * 2, "主は 48k/stereo = 1920 sample");
        primary_chunks += 1;
    }
    let mut secondary_chunks = 0usize;
    while let Some((c, _)) = n.pop_secondary() {
        assert_eq!(c.len(), 320, "副は 16k/mono = 320 sample");
        secondary_chunks += 1;
    }
    assert!(
        (47..=50).contains(&primary_chunks),
        "主 ~50 チャンク: {primary_chunks}"
    );
    assert!(
        (47..=50).contains(&secondary_chunks),
        "副 ~50 チャンク: {secondary_chunks}"
    );
}

#[test]
fn dual_output_taps_share_pts_axis() {
    let secondary = OutputFormat {
        sample_rate: 16_000,
        channels: 1,
    };
    let mut n = Driver::new(48_000, 2, default_out())
        .expect("normalizer")
        .with_secondary(secondary)
        .expect("secondary");

    let mut device_pts = 1_000_000_000i64;
    for _ in 0..40 {
        let block = vec![0.1f32; 480 * 2];
        n.push(&block, device_pts).expect("push");
        device_pts += 480 * 1_000_000_000 / 48_000;
    }

    let mut primary_pts = Vec::new();
    while let Some((_, p)) = n.pop_chunk() {
        primary_pts.push(p);
    }
    let mut secondary_pts = Vec::new();
    while let Some((_, p)) = n.pop_secondary() {
        secondary_pts.push(p);
    }
    assert!(primary_pts.len() >= 5 && secondary_pts.len() >= 5);
    for w in primary_pts.windows(2) {
        assert!((w[1] - w[0] - 20_000_000).abs() <= 1_000_000);
    }
    for w in secondary_pts.windows(2) {
        assert!((w[1] - w[0] - 20_000_000).abs() <= 1_000_000);
    }
    assert!(
        (primary_pts[0] - secondary_pts[0]).abs() < 100_000_000,
        "主副の開始 PTS は近接するはず: {} vs {}",
        primary_pts[0],
        secondary_pts[0]
    );
}


struct DoubleProcessor;
impl InnerProcessor for DoubleProcessor {
    fn process(&mut self, s: &mut [f32]) {
        for x in s.iter_mut() {
            *x *= 2.0;
        }
    }
    fn flush(&mut self) -> Vec<f32> {
        Vec::new()
    }
}

struct DelayProcessor {
    held: Vec<f32>,
}
impl DelayProcessor {
    fn new(hold: usize) -> Self {
        Self {
            held: vec![0.0; hold],
        }
    }
}
impl InnerProcessor for DelayProcessor {
    fn process(&mut self, s: &mut [f32]) {
        self.held.extend_from_slice(s);
        let n = s.len();
        s.copy_from_slice(&self.held[..n]);
        self.held.drain(..n);
    }
    fn flush(&mut self) -> Vec<f32> {
        std::mem::take(&mut self.held)
    }
}

#[test]
fn inner_processor_applies_before_stage2() {
    let mut n = Driver::new(48_000, 2, default_out())
        .expect("normalizer")
        .with_inner_processor(Box::new(DoubleProcessor));
    let stereo: Vec<f32> = (0..CHUNK_FRAMES * 2).map(|i| (i as f32) * 1e-4).collect();
    n.push(&stereo, 0).expect("push");
    let (chunk, _) = n.pop_chunk().expect("one chunk");
    for (i, &s) in chunk.iter().enumerate() {
        assert!(
            (s - stereo[i] * 2.0).abs() < 1e-6,
            "sample {i} should be doubled"
        );
    }
}

#[test]
fn inner_processor_affects_both_taps() {
    let secondary = OutputFormat {
        sample_rate: 48_000,
        channels: 2,
    };
    let mut n = Driver::new(48_000, 2, default_out())
        .expect("normalizer")
        .with_secondary(secondary)
        .expect("secondary")
        .with_inner_processor(Box::new(DoubleProcessor));
    let stereo = vec![0.25f32; CHUNK_FRAMES * 2];
    n.push(&stereo, 0).expect("push");
    let (p, _) = n.pop_chunk().expect("primary chunk");
    let (s, _) = n.pop_secondary().expect("secondary chunk");
    assert!(p.iter().all(|&x| (x - 0.5).abs() < 1e-6), "主が 2 倍");
    assert!(s.iter().all(|&x| (x - 0.5).abs() < 1e-6), "副も 2 倍");
}

#[test]
fn stop_flush_emits_processor_tail() {
    let mut n = Driver::new(48_000, 2, default_out())
        .expect("normalizer")
        .with_inner_processor(Box::new(DelayProcessor::new(4)));
    let stereo: Vec<f32> = (0..CHUNK_FRAMES * 2)
        .map(|i| (i as f32 + 1.0) * 1e-4)
        .collect();
    n.push(&stereo, 0).expect("push");

    let (c0, _) = n.pop_chunk().expect("first chunk");
    assert_eq!(c0.len(), CHUNK_FRAMES * 2);
    assert!(
        c0[..4].iter().all(|&x| x == 0.0),
        "先頭 4 sample は遅延の無音"
    );
    assert!(n.pop_chunk().is_none(), "flush 前は 1 チャンクだけ");

    n.flush();
    let (c1, _) = n.pop_chunk().expect("flushed tail chunk");
    assert_eq!(
        c1.len(),
        CHUNK_FRAMES * 2,
        "末尾チャンクは 20ms へパディング"
    );
    let last4 = &stereo[stereo.len() - 4..];
    for (i, &x) in c1[..4].iter().enumerate() {
        assert!(
            (x - last4[i]).abs() < 1e-6,
            "flush テールが入力末尾に一致するはず"
        );
    }
}

#[test]
fn stop_flush_drains_secondary_resampler() {
    let secondary = OutputFormat {
        sample_rate: 16_000,
        channels: 1,
    };
    let mut n = Driver::new(48_000, 2, default_out())
        .expect("normalizer")
        .with_secondary(secondary)
        .expect("secondary");
    let stereo = vec![0.3f32; CHUNK_FRAMES * 2];
    n.push(&stereo, 0).expect("push");

    let mut before = 0usize;
    while n.pop_secondary().is_some() {
        before += 1;
    }
    n.flush();
    let mut after = 0usize;
    while let Some((c, _)) = n.pop_secondary() {
        assert_eq!(c.len(), 320, "副は既定の 20ms 境界へ揃う");
        after += 1;
    }
    assert!(after >= 1, "flush で副タップの末尾が吐き出されるはず");
    let _ = before;
}

/// Zero milliseconds make no chunk.
#[test]
fn chunk_duration_must_not_be_zero() {
    let r = Normalizer::new_with_chunk_ms(48_000, 2, default_out(), 0);
    match r {
        Err(Error::InvalidArg(m)) => assert_eq!(m, "chunk_ms must be > 0"),
        _ => panic!("expected InvalidArg"),
    }
}

/// An output needs a rate; the text is that of the converter itself.
#[test]
fn outputs_need_a_rate() {
    let none = OutputFormat { sample_rate: 0, channels: 1 };
    let text = match Normalizer::new(48_000, 2, none) {
        Err(Error::Backend(m)) => m,
        _ => panic!("expected Backend"),
    };
    let plan =
        ResamplerPlan { in_rate: 48_000, out_rate: 0, channels: 1, chunk_in_frames: 960 };
    match Engine::new(plan) {
        Err(Error::Backend(m)) => assert_eq!(m, text),
        _ => panic!("expected Backend"),
    }
    match Normalizer::new(48_000, 2, default_out()).expect("normalizer").with_secondary(none) {
        Err(Error::Backend(m)) => assert_eq!(m, text),
        _ => panic!("expected Backend"),
    }
}

/// Zero channels count as one, and of many channels the first two are taken.
#[test]
fn channel_counts_at_the_edges() {
    let mut none = Driver::new(48_000, 0, default_out()).expect("normalizer");
    none.push(&[0.5; CHUNK_FRAMES], 0).expect("push");
    assert_eq!(none.pop_chunk().expect("chunk").0, vec![0.5; CHUNK_FRAMES * 2]);

    let mut surround = Driver::new(48_000, 6, default_out()).expect("normalizer");
    let frame = [0.1, 0.2, 0.3, 0.4, 0.5, 0.6];
    let input: Vec<f32> = (0..CHUNK_FRAMES * 6).map(|i| frame[i % 6]).collect();
    surround.push(&input, 0).expect("push");
    let chunk = surround.pop_chunk().expect("chunk").0;
    assert!(chunk.chunks(2).all(|f| f[0] == 0.1 && f[1] == 0.2));
}

/// More than two output channels get the left channel throughout.
#[test]
fn three_output_channels_repeat_the_left_one() {
    let out = OutputFormat { sample_rate: 48_000, channels: 3 };
    let mut n = Driver::new(48_000, 2, out).expect("normalizer");
    let input: Vec<f32> = (0..CHUNK_FRAMES * 2).map(|i| i as f32).collect();
    n.push(&input, 0).expect("push");
    let chunk = n.pop_chunk().expect("chunk").0;
    assert_eq!(chunk.len(), CHUNK_FRAMES * 3);
    assert_eq!(&chunk[..6], &[0.0, 0.0, 0.0, 2.0, 2.0, 2.0]);
}

/// Exact times: the origin of the push, and 20833 ns for each frame at 48 kHz.
#[test]
fn chunk_times_are_exact() {
    let mut n = Driver::new(48_000, 2, default_out()).expect("normalizer");
    n.push(&vec![0.0; CHUNK_FRAMES * 2 * 2], 1_000).expect("push");
    assert_eq!(n.pop_chunk().expect("chunk").1, 1_000);
    assert_eq!(n.pop_chunk().expect("chunk").1, 1_000 + 960 * 20_833);
}

/// The second push is tied to the output frame that the inner frames before it
/// correspond to: 480 inner frames are 160 frames at 16 kHz.
#[test]
fn anchor_is_projected_to_the_output_rate() {
    let out = OutputFormat { sample_rate: 16_000, channels: 2 };
    let mut n = Driver::new(48_000, 2, out).expect("normalizer");
    n.push(&vec![0.0; 480 * 2], 0).expect("push");
    n.push(&vec![0.0; 480 * 2 * 5], 5_000_000_000).expect("push");
    let (_, pts) = n.pop_chunk().expect("chunk");
    assert_eq!(pts, 5_000_000_000 - 160 * 62_500);
}

/// Dividing whole frames among pushes changes nothing.
#[test]
fn pushes_can_be_divided() {
    let input: Vec<f32> = (0..CHUNK_FRAMES * 2).map(|i| i as f32 * 1e-4).collect();
    let mut whole = Driver::new(48_000, 2, default_out()).expect("normalizer");
    whole.push(&input, 0).expect("push");
    let mut parts = Driver::new(48_000, 2, default_out()).expect("normalizer");
    parts.push(&input[..500], 0).expect("push");
    parts.push(&input[500..], 0).expect("push");
    assert_eq!(whole.pop_chunk().expect("chunk").0, parts.pop_chunk().expect("chunk").0);
}

/// Drains both outputs.
fn drain(n: &mut Driver) -> (Vec<f32>, Vec<f32>) {
    let mut primary = Vec::new();
    while let Some((c, _)) = n.pop_chunk() {
        primary.extend(c);
    }
    let mut secondary = Vec::new();
    while let Some((c, _)) = n.pop_secondary() {
        secondary.extend(c);
    }
    (primary, secondary)
}

/// Neither does it with conversions on every way, down to parts of less than a
/// block and a rest of less than a frame.
#[test]
fn converted_pushes_can_be_divided() {
    let make = || {
        Driver::new(44_100, 3, OutputFormat { sample_rate: 24_000, channels: 2 })
            .expect("normalizer")
            .with_secondary(OutputFormat { sample_rate: 16_000, channels: 1 })
            .expect("secondary")
    };
    let input: Vec<f32> = (0..3 * 9000 + 2).map(|i| (i as f32 * 0.01).sin() * 0.5).collect();
    let mut whole = make();
    whole.push(&input, 0).expect("push");
    let mut parts = make();
    let mut rest = &input[..];
    for frames in [1, 700, 0, 881, 1764, 3] {
        let (part, behind) = rest.split_at(frames * 3);
        parts.push(part, 17).expect("push");
        rest = behind;
    }
    parts.push(rest, 23).expect("push");
    assert_eq!(whole.conversions, parts.conversions);
    assert_eq!(whole.buffered_out_frames(), parts.buffered_out_frames());
    let (p, s) = drain(&mut whole);
    assert!(!p.is_empty() && !s.is_empty());
    assert_eq!((p, s), drain(&mut parts));
    whole.flush();
    parts.flush();
    assert_eq!(drain(&mut whole), drain(&mut parts));
}

/// A second flush changes nothing, with conversions and a processor on the way.
#[test]
fn second_flush_is_void() {
    let mut n = Driver::new(44_100, 2, OutputFormat { sample_rate: 24_000, channels: 2 })
        .expect("normalizer")
        .with_secondary(OutputFormat { sample_rate: 16_000, channels: 1 })
        .expect("secondary")
        .with_inner_processor(Box::new(DelayProcessor::new(4)));
    n.push(&vec![0.25; 5000], 0).expect("push");
    n.flush();
    let conversions = n.conversions;
    let buffered = n.buffered_out_frames();
    assert!(buffered > 0);
    n.flush();
    assert_eq!(n.conversions, conversions);
    assert_eq!(n.buffered_out_frames(), buffered);
    let _ = drain(&mut n);
    n.flush();
    assert_eq!(drain(&mut n), (Vec::new(), Vec::new()));
}

/// What the processor makes goes to converted outputs too, its tail included.
#[test]
fn processor_feeds_converted_outputs() {
    let mut n = Driver::new(48_000, 2, OutputFormat { sample_rate: 48_000, channels: 1 })
        .expect("normalizer")
        .with_secondary(OutputFormat { sample_rate: 24_000, channels: 2 })
        .expect("secondary")
        .with_inner_processor(Box::new(DelayProcessor::new(4)));
    let input: Vec<f32> = (0..CHUNK_FRAMES * 2).map(|i| (i as f32 + 1.0) * 1e-4).collect();
    n.push(&input, 0).expect("push");
    assert_eq!(n.conversions, 1);
    n.flush();
    assert_eq!(n.conversions, 2);
    let (p, s) = drain(&mut n);
    assert_eq!(&p[..2], &[0.0, 0.0]);
    for i in 0..CHUNK_FRAMES {
        assert_eq!(p[i + 2], (input[2 * i] + input[2 * i + 1]) * 0.5);
    }
    assert_eq!(s.len() % (480 * 2), 0);
    assert!(s.iter().any(|&x| x != 0.0));
}

/// Two outputs of one format stay equal, mono as well as stereo.
#[test]
fn equal_outputs_get_equal_chunks() {
    for channels in [1, 2] {
        let out = OutputFormat { sample_rate: 48_000, channels };
        let mut n = Driver::new(48_000, 2, out)
            .expect("normalizer")
            .with_secondary(out)
            .expect("secondary");
        let input: Vec<f32> = (0..3000).map(|i| (i as f32 * 0.01).sin()).collect();
        n.push(&input, 5).expect("push");
        n.flush();
        for _ in 0..2 {
            let a = n.pop_chunk().expect("primary");
            let b = n.pop_secondary().expect("secondary");
            assert_eq!(a, b);
        }
        assert!(n.pop_chunk().is_none());
        assert!(n.pop_secondary().is_none());
    }
}

/// A flush leaves whole chunks, the last one filled with silence.
#[test]
fn flush_fills_the_last_chunk() {
    let mut n = Driver::new(48_000, 2, default_out()).expect("normalizer");
    n.push(&[0.5; 10], 0).expect("push");
    assert!(n.pop_chunk().is_none());
    n.flush();
    let chunk = n.pop_chunk().expect("chunk").0;
    assert_eq!(&chunk[..10], &[0.5; 10]);
    assert!(chunk[10..].iter().all(|&x| x == 0.0));
    assert_eq!(n.buffered_out_frames(), 0);
    n.flush();
    assert!(n.pop_chunk().is_none());
}

/// Without any push the time of a chunk is the time at hand.
#[test]
fn tail_without_a_push_is_timed_now() {
    let mut n = Driver::new(48_000, 2, default_out())
        .expect("normalizer")
        .with_inner_processor(Box::new(DelayProcessor::new(4)));
    n.flush();
    assert_eq!(n.pop_chunk().expect("chunk").1, 7);
}

/// A conversion that fails in the first stage ends the push and nothing of it
/// arrives.
#[test]
fn failure_in_the_first_stage_ends_the_push() {
    let mut n = Driver::new(44_100, 2, default_out()).expect("normalizer");
    n.fail_at = Some(2);
    match n.push(&vec![0.1; 882 * 2 * 3], 0) {
        Err(Error::Backend(m)) => assert_eq!(m, "broken"),
        _ => panic!("expected Backend"),
    }
    assert_eq!(n.buffered_out_frames(), 0);
    n.push(&[0.1; 2], 0).expect("push");
    assert!(n.buffered_out_frames() > 0);
}

/// A conversion that fails for the primary output does not keep the secondary
/// one from its samples, and is what the push reports.
#[test]
fn failure_of_one_output_spares_the_other() {
    let out = OutputFormat { sample_rate: 16_000, channels: 2 };
    let mut n = Driver::new(48_000, 2, out)
        .expect("normalizer")
        .with_secondary(default_out())
        .expect("secondary");
    n.fail_at = Some(1);
    assert!(n.push(&vec![0.1; CHUNK_FRAMES * 2], 0).is_err());
    assert!(n.pop_chunk().is_none());
    assert!(n.pop_secondary().is_some());
}

/// A flush passes over a conversion that fails.
#[test]
fn flush_passes_over_failures() {
    let out = OutputFormat { sample_rate: 16_000, channels: 1 };
    let mut n = Driver::new(48_000, 2, out).expect("normalizer");
    n.push(&vec![0.1; 100], 0).expect("push");
    n.fail_at = Some(1);
    let step = n.n.flush();
    assert!(n.run(step).is_ok());
    assert_eq!(n.buffered_out_frames(), 0);
}

/// What waits for a whole block waits across pushes, and a flush converts it.
#[test]
fn incomplete_blocks_wait() {
    let out = OutputFormat { sample_rate: 24_000, channels: 2 };
    let mut n = Driver::new(48_000, 2, out).expect("normalizer");
    n.push(&vec![0.1; 959 * 2], 0).expect("push");
    assert_eq!(n.conversions, 0);
    n.push(&[0.1; 2], 0).expect("push");
    assert_eq!(n.conversions, 1);
    n.push(&[0.1; 2], 0).expect("push");
    n.flush();
    assert_eq!(n.conversions, 2);
}

/// The setup can be read back.
#[test]
fn setup_can_be_read() {
    let out = OutputFormat { sample_rate: 16_000, channels: 1 };
    let n = Normalizer::new(44_100, 1, out).expect("normalizer");
    assert_eq!(n.in_sample_rate(), 44_100);
    assert_eq!(n.output(), out);
    assert!(!n.has_inner_processor());
    assert_eq!(
        n.plan(Unit::Inner),
        Some(ResamplerPlan {
            in_rate: 44_100,
            out_rate: 48_000,
            channels: 2,
            chunk_in_frames: 882
        })
    );
    assert_eq!(
        n.plan(Unit::Primary),
        Some(ResamplerPlan {
            in_rate: 48_000,
            out_rate: 16_000,
            channels: 1,
            chunk_in_frames: 960
        })
    );
    assert_eq!(n.plan(Unit::Secondary), None);
    assert!(n.with_inner_processor().has_inner_processor());
    let slow = Normalizer::new(1_000, 1, default_out()).expect("normalizer");
    assert_eq!(slow.plan(Unit::Inner).expect("plan").chunk_in_frames, 64);
}
