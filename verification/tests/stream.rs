//! A stream with its intake and its watchdog, run in virtual time against a
//! simulated device.

use flexaudio::intake::{Intake, IntakeStep};
use flexaudio::normalizer::{Step, Unit};
use flexaudio::resampler::ResamplerPlan;
use flexaudio::stream::{
    start_backend_catching, StartStep, Stream, SwitchStep, RAW_RING_SAMPLES,
};
use flexaudio::types::{
    AudioChunk, Error, Event, OutputFormat, ProcessMode, SecondaryChunk, SourceKind, StreamConfig,
};
use flexaudio::watchdog::{sleep_interruptible, Watchdog, WatchdogAction, WATCHDOG_TICK_NS};
use rubato::audioadapter_buffers::direct::InterleavedSlice;
use rubato::{
    Async, FixedAsync, Indexing, Resampler, SincInterpolationParameters, SincInterpolationType,
    WindowFunction,
};

const MS: i64 = 1_000_000;
const UNITY: u32 = 0x3f80_0000;

/// One rate conversion.
struct Engine {
    inner: Async<f32>,
    plan: ResamplerPlan,
    scratch: Vec<f32>,
}

impl Engine {
    fn new(plan: ResamplerPlan) -> Result<Engine, Error> {
        let params = SincInterpolationParameters {
            sinc_len: 128,
            f_cutoff: 0.95,
            interpolation: SincInterpolationType::Linear,
            oversampling_factor: 128,
            window: WindowFunction::BlackmanHarris2,
        };
        let inner = Async::<f32>::new_sinc(
            plan.out_rate as f64 / plan.in_rate as f64,
            1.0,
            &params,
            plan.chunk_in_frames,
            plan.channels,
            FixedAsync::Input,
        )
        .map_err(|e| Error::Backend(format!("rubato sinc resampler construction failed: {e}")))?;
        let scratch = vec![0.0; inner.output_frames_max() * plan.channels];
        Ok(Engine { inner, plan, scratch })
    }

    fn convert(&mut self, input: &[u32], partial: Option<usize>) -> Result<Vec<u32>, String> {
        let floats: Vec<f32> = input.iter().map(|&b| f32::from_bits(b)).collect();
        let channels = self.plan.channels;
        let max_out = self.scratch.len() / channels;
        let source = InterleavedSlice::new(&floats[..], channels, self.plan.chunk_in_frames)
            .map_err(|e| format!("rubato interleaved input adapter failed: {e}"))?;
        let mut sink = InterleavedSlice::new_mut(&mut self.scratch[..], channels, max_out)
            .map_err(|e| format!("rubato interleaved output adapter failed: {e}"))?;
        let indexing = Indexing {
            input_offset: 0,
            output_offset: 0,
            partial_len: partial,
            active_channels_mask: None,
        };
        let (_, written) = self
            .inner
            .process_into_buffer(&source, &mut sink, Some(&indexing))
            .map_err(|e| format!("rubato process_into_buffer failed: {e}"))?;
        Ok(self.scratch[..written * channels].iter().map(|x| x.to_bits()).collect())
    }
}

/// A simulated device: a sine of amplitude one half, ten milliseconds at a time.
struct Mock {
    rate: u32,
    channels: u16,
    freq: f32,
    frame: u64,
    running: bool,
    sessions: u32,
    fed_ns: i64,
    /// Length of the first session before the device falls silent.
    stall_after_ns: Option<i64>,
    /// Session whose start panics.
    panics_at: Option<u32>,
    /// Session whose start fails.
    fails_at: Option<u32>,
    /// Samples delivered at once instead of the sine.
    flood: Option<usize>,
}

impl Mock {
    fn new(rate: u32, channels: u16, freq: f32) -> Mock {
        Mock {
            rate,
            channels,
            freq,
            frame: 0,
            running: false,
            sessions: 0,
            fed_ns: 0,
            stall_after_ns: None,
            panics_at: None,
            fails_at: None,
            flood: None,
        }
    }

    fn native_format(&self) -> (u32, u16) {
        (self.rate, self.channels)
    }

    /// `None` stands for a panic.
    fn start(&mut self) -> Option<Result<(), Error>> {
        self.sessions += 1;
        self.fed_ns = 0;
        if self.panics_at == Some(self.sessions) {
            return None;
        }
        if self.fails_at == Some(self.sessions) {
            return Some(Err(Error::Backend(String::from("no device"))));
        }
        self.running = true;
        Some(Ok(()))
    }

    fn stop(&mut self) {
        self.running = false;
    }

    fn feed(&mut self, ns: i64) -> Vec<u32> {
        if !self.running {
            return Vec::new();
        }
        if let Some(n) = self.flood {
            return vec![0.1f32.to_bits(); n];
        }
        self.fed_ns += ns;
        if self.sessions == 1 {
            if let Some(limit) = self.stall_after_ns {
                if self.fed_ns > limit {
                    return Vec::new();
                }
            }
        }
        let frames = self.rate as i64 * ns / 1_000_000_000;
        let mut out = Vec::new();
        for _ in 0..frames {
            let t = self.frame as f32 / self.rate as f32;
            let s = (2.0 * std::f32::consts::PI * self.freq * t).sin() * 0.5;
            for _ in 0..self.channels {
                out.push(s.to_bits());
            }
            self.frame += 1;
        }
        out
    }
}

/// A delay line, in the place of noise suppression.
struct Delay {
    held: Vec<u32>,
}

impl Delay {
    fn process(&mut self, samples: &[u32]) -> Vec<u32> {
        self.held.extend_from_slice(samples);
        self.held.drain(..samples.len()).collect()
    }
}

/// Everything around a stream.
struct Sim {
    stream: Stream,
    device: Mock,
    intake: Option<Intake>,
    engines: Vec<Option<Engine>>,
    delay: Option<Delay>,
    watchdog: Watchdog,
    watch_at: i64,
    raw: Vec<u32>,
    overflow: u64,
    now: i64,
    engine_failures: u32,
    conversion_failures: u32,
    spawn_failures: u32,
    intake_over: bool,
}

fn open_stream(config: StreamConfig, native_format: (u32, u16)) -> Result<Stream, Error> {
    let gain = f32::from_bits(config.gain_bits).to_string();
    Stream::open(config, native_format, &gain)
}

fn open(config: StreamConfig, device: Mock) -> Result<Sim, Error> {
    let stream = open_stream(config, device.native_format())?;
    Ok(Sim {
        stream,
        device,
        intake: None,
        engines: Vec::new(),
        delay: None,
        watchdog: Watchdog::new(),
        watch_at: 0,
        raw: Vec::new(),
        overflow: 0,
        now: 1_000_000_000,
        engine_failures: 0,
        conversion_failures: 0,
        spawn_failures: 0,
        intake_over: false,
    })
}

fn slot(unit: Unit) -> usize {
    match unit {
        Unit::Inner => 0,
        Unit::Primary => 1,
        Unit::Secondary => 2,
    }
}

fn floats(bits: &[u32]) -> Vec<f32> {
    bits.iter().map(|&b| f32::from_bits(b)).collect()
}

fn rms(bits: &[u32]) -> u32 {
    let sum: f64 = floats(bits).iter().map(|&x| (x as f64) * (x as f64)).sum();
    ((sum / bits.len() as f64).sqrt() as f32).to_bits()
}

impl Sim {
    fn start_device(&mut self) -> Result<(), Error> {
        let outcome = start_backend_catching(self.device.start());
        if outcome.is_ok() {
            self.raw.clear();
            self.overflow = 0;
        }
        outcome
    }

    fn open_backend(&mut self) -> Result<(), Error> {
        let outcome = self.start_device();
        let native = self.device.native_format();
        Stream::open_backend_once(&mut self.stream.shared, native, outcome, self.now)
    }

    fn start(&mut self) -> Result<(), Error> {
        let mut step = self.stream.start();
        loop {
            step = match step {
                StartStep::Done(r) => return r,
                StartStep::StartBackend => {
                    let outcome = self.start_device();
                    let native = self.device.native_format();
                    self.stream.backend_started(native, outcome, self.now)
                }
                StartStep::SpawnIntake(setup) => {
                    if self.spawn_failures > 0 {
                        self.spawn_failures -= 1;
                        self.stream.intake_spawned(Err(String::from("no more threads")))
                    } else {
                        self.intake = Some(Intake::new(&self.stream.shared, setup));
                        self.drive(IntakeStep::Build);
                        self.stream.intake_spawned(Ok(()))
                    }
                }
                StartStep::SpawnWatchdog => {
                    self.watch_at = self.now + WATCHDOG_TICK_NS as i64;
                    self.stream.watchdog_spawned(Ok(()))
                }
            };
        }
    }

    fn set_gain(&mut self, gain: f32) -> Result<(), Error> {
        self.stream.set_gain(gain.to_bits(), &gain.to_string())
    }

    fn stop(&mut self) {
        self.stream.stop();
        self.device.stop();
        self.intake_rounds();
    }

    fn build(&mut self) -> Result<(), Error> {
        if self.engine_failures > 0 {
            self.engine_failures -= 1;
            return Err(Error::Backend(String::from("no engine")));
        }
        let intake = self.intake.as_ref().expect("intake");
        self.engines.clear();
        for unit in [Unit::Inner, Unit::Primary, Unit::Secondary] {
            self.engines.push(match intake.plan(unit) {
                None => None,
                Some(plan) => Some(Engine::new(plan)?),
            });
        }
        self.delay = if intake.has_processor() {
            Some(Delay { held: vec![0; 960] })
        } else {
            None
        };
        Ok(())
    }

    fn answer(&mut self, step: Step) -> Result<Vec<u32>, String> {
        match step {
            Step::Done(_) => unreachable!(),
            Step::Resample { unit, input, partial } => {
                if self.conversion_failures > 0 {
                    self.conversion_failures -= 1;
                    Err(String::from("broken"))
                } else {
                    self.engines[slot(unit)].as_mut().expect("engine").convert(&input, partial)
                }
            }
            Step::Process { samples } => {
                Ok(self.delay.as_mut().expect("delay").process(&samples))
            }
            Step::Average { samples } => Ok(floats(&samples)
                .chunks_exact(2)
                .map(|f| ((f[0] + f[1]) * 0.5).to_bits())
                .collect()),
            Step::Tail => Ok(std::mem::take(&mut self.delay.as_mut().expect("delay").held)),
        }
    }

    /// Follows the steps of the intake to the end of a round; true where the
    /// round moved something.
    fn drive(&mut self, first: IntakeStep) -> bool {
        let mut step = first;
        loop {
            let now = self.now;
            match step {
                IntakeStep::Build => {
                    let outcome = self.build();
                    let intake = self.intake.as_mut().expect("intake");
                    step = intake.built(&mut self.stream.shared, outcome);
                }
                IntakeStep::Pop => {
                    let samples = std::mem::take(&mut self.raw);
                    let overflow = Some(self.overflow);
                    let intake = self.intake.as_mut().expect("intake");
                    step = intake.popped(&mut self.stream.shared, &samples, overflow, now, now);
                }
                IntakeStep::Normalize(inner) => {
                    let outcome = self.answer(inner);
                    let intake = self.intake.as_mut().expect("intake");
                    step = intake.normalized(&mut self.stream.shared, outcome, now);
                }
                IntakeStep::Scale { samples, gain } => {
                    let g = f32::from_bits(gain);
                    let product = floats(&samples).iter().map(|x| (x * g).to_bits()).collect();
                    step = self.intake.as_mut().expect("intake").scaled(product);
                }
                IntakeStep::Measure { samples } => {
                    let r = rms(&samples);
                    let intake = self.intake.as_mut().expect("intake");
                    step = intake.measured(&mut self.stream.shared, r, now);
                }
                IntakeStep::Sleep => return false,
                IntakeStep::Again => return true,
                IntakeStep::Exit => {
                    self.intake_over = true;
                    return false;
                }
            }
        }
    }

    fn intake_rounds(&mut self) {
        while !self.intake_over && self.intake.is_some() {
            let intake = self.intake.as_mut().expect("intake");
            let step = intake.tick(&mut self.stream.shared);
            if !self.drive(step) {
                return;
            }
        }
    }

    fn watch(&mut self) {
        let mut action = self.watchdog.tick(&mut self.stream.shared, self.now);
        loop {
            action = match action {
                WatchdogAction::Wait => {
                    self.watch_at = self.now + WATCHDOG_TICK_NS as i64;
                    return;
                }
                WatchdogAction::StopBackend => {
                    self.device.stop();
                    self.watchdog.stopped(&self.stream.shared)
                }
                WatchdogAction::StartBackend => {
                    let outcome = self.open_backend();
                    let entropy = self.now as u64;
                    self.watchdog.reopened(&mut self.stream.shared, outcome, entropy)
                }
                WatchdogAction::Sleep { ns } => {
                    let mut left = ns;
                    let mut total: u64 = 0;
                    while let Some((part, rest)) = sleep_interruptible(left, false) {
                        total += part;
                        left = rest;
                    }
                    self.watch_at = self.now + total as i64 + WATCHDOG_TICK_NS as i64;
                    return;
                }
                WatchdogAction::Exit => {
                    self.watch_at = i64::MAX;
                    return;
                }
            };
        }
    }

    /// Lets ten milliseconds pass.
    fn pass(&mut self) {
        self.now += 10 * MS;
        let samples = self.device.feed(10 * MS);
        let room = RAW_RING_SAMPLES - self.raw.len();
        if samples.len() > room {
            self.overflow += (samples.len() - room) as u64;
            self.raw.extend_from_slice(&samples[..room]);
        } else {
            self.raw.extend_from_slice(&samples);
        }
        if self.intake.is_some() {
            self.intake_rounds();
            if self.now >= self.watch_at {
                self.watch();
            }
        }
    }

    fn collect_for(&mut self, ms: i64) -> Vec<AudioChunk> {
        let mut chunks = Vec::new();
        let end = self.now + ms * MS;
        while self.now < end {
            self.pass();
            while let Some(c) = self.stream.poll_chunk() {
                chunks.push(c);
            }
        }
        chunks
    }

    fn wait_for_chunk(&mut self, ms: i64) -> Option<AudioChunk> {
        let end = self.now + ms * MS;
        while self.now < end {
            if let Some(c) = self.stream.poll_chunk() {
                return Some(c);
            }
            self.pass();
        }
        self.stream.poll_chunk()
    }
}

fn open_err(result: Result<Sim, Error>, ctx: &str) -> Error {
    match result {
        Ok(_) => panic!("{ctx}: expected an error"),
        Err(e) => e,
    }
}

#[test]
fn open_rejects_zero_ring_capacity() {
    let backend = Mock::new(48_000, 2, 440.0);
    let config = StreamConfig { ring_capacity_chunks: 0, ..Default::default() };
    let err = open_err(open(config, backend), "容量 0");
    assert!(matches!(err, Error::InvalidArg(_)), "InvalidArg のはず: {err:?}");
}

#[test]
fn open_rejects_invalid_output_channels() {
    let backend = Mock::new(48_000, 2, 440.0);
    let config = StreamConfig {
        output: OutputFormat { sample_rate: 48_000, channels: 3 },
        ..Default::default()
    };
    let err = open_err(open(config, backend), "ch=3");
    assert!(matches!(err, Error::UnsupportedFormat(_)), "UnsupportedFormat のはず: {err:?}");
}

#[test]
fn open_rejects_out_of_range_output_rate() {
    let backend = Mock::new(48_000, 2, 440.0);
    let config = StreamConfig {
        output: OutputFormat { sample_rate: 1_000_000, channels: 2 },
        ..Default::default()
    };
    let err = open_err(open(config, backend), "極端なレート");
    assert!(matches!(err, Error::UnsupportedFormat(_)), "UnsupportedFormat のはず: {err:?}");
}

#[test]
fn open_rejects_zero_native_format() {
    let err = open_err(open(StreamConfig::default(), Mock::new(0, 0, 440.0)), "native_format 0");
    assert!(matches!(err, Error::InvalidArg(_)), "InvalidArg のはず: {err:?}");
}

#[test]
fn poll_event_yields_chunk_dropped() {
    let backend = Mock::new(48_000, 2, 440.0);
    let config = StreamConfig { ring_capacity_chunks: 1, ..Default::default() };
    let mut sim = open(config, backend).expect("open");
    sim.start().expect("start");
    let mut got_drop = false;
    let end = sim.now + 3_000 * MS;
    while sim.now < end && !got_drop {
        sim.pass();
        while let Some(ev) = sim.stream.poll_event() {
            if matches!(ev, Event::ChunkDropped { .. }) {
                got_drop = true;
            }
        }
    }
    sim.stop();
    assert!(got_drop, "poll_event で ChunkDropped を取得できるはず");
}

#[test]
fn poll_event_is_none_when_empty() {
    let backend = Mock::new(48_000, 2, 440.0);
    let mut sim = open(StreamConfig::default(), backend).expect("open");
    assert!(sim.stream.poll_event().is_none());
}

#[test]
fn watchdog_detects_stall_and_flags_recovered() {
    let mut backend = Mock::new(48_000, 2, 440.0);
    backend.stall_after_ns = Some(300 * MS);
    let mut sim = open(StreamConfig::default(), backend).expect("open");
    sim.start().expect("start");

    let mut chunks: Vec<AudioChunk> = Vec::new();
    let mut saw_stalled = false;
    let mut saw_recovered = false;
    let deadline = sim.now + 8_000 * MS;
    let mut recovered_chunk_seen = false;
    while sim.now < deadline && !recovered_chunk_seen {
        sim.pass();
        while let Some(c) = sim.stream.poll_chunk() {
            if c.flags.recovered {
                recovered_chunk_seen = true;
            }
            chunks.push(c);
        }
        while let Some(ev) = sim.stream.poll_event() {
            match ev {
                Event::StreamStalled => saw_stalled = true,
                Event::StreamRecovered => saw_recovered = true,
                _ => {}
            }
        }
    }
    sim.stop();
    while let Some(c) = sim.stream.poll_chunk() {
        chunks.push(c);
    }

    assert!(saw_stalled, "Event::StreamStalled が発火するはず");
    assert!(saw_recovered, "Event::StreamRecovered が発火するはず");
    assert!(recovered_chunk_seen, "復帰後の最初のチャンクに RECOVERED が立つはず");
    let recovered: Vec<&AudioChunk> = chunks.iter().filter(|c| c.flags.recovered).collect();
    assert!(!recovered.is_empty());
    for c in &recovered {
        assert!(
            c.flags.discontinuity,
            "RECOVERED には DISCONTINUITY が伴うはず: flags={:?}",
            c.flags
        );
    }
    for w in chunks.windows(2) {
        assert!(
            w[1].seq > w[0].seq,
            "seq は復帰をまたいでも単調増加: {} -> {}",
            w[0].seq,
            w[1].seq
        );
    }
}

#[test]
fn no_recovered_flag_under_steady_feed() {
    let backend = Mock::new(48_000, 2, 440.0);
    let mut sim = open(StreamConfig::default(), backend).expect("open");
    sim.start().expect("start");
    let chunks = sim.collect_for(500);
    let mut saw_stalled = false;
    while let Some(ev) = sim.stream.poll_event() {
        if matches!(ev, Event::StreamStalled) {
            saw_stalled = true;
        }
    }
    sim.stop();
    assert!(!chunks.is_empty(), "安定給餌でチャンクが来るはず");
    assert!(!saw_stalled, "安定給餌では失速判定されないはず");
    for c in &chunks {
        assert!(
            !c.flags.recovered,
            "安定給餌では RECOVERED は立たない: flags={:?}",
            c.flags
        );
    }
}

#[test]
fn pause_stops_delivering_chunks() {
    let backend = Mock::new(48_000, 2, 440.0);
    let mut sim = open(StreamConfig::default(), backend).expect("open");
    sim.start().expect("start");
    assert!(sim.wait_for_chunk(2_000).is_some(), "ポーズ前にチャンクが届くはず");
    sim.stream.pause();
    while sim.stream.poll_chunk().is_some() {}
    let after = sim.collect_for(300);
    sim.stop();
    assert!(
        after.is_empty(),
        "ポーズ中は新しいチャンクが届かないはず: {} 個届いた",
        after.len()
    );
}

#[test]
fn long_pause_does_not_trigger_stall() {
    let backend = Mock::new(48_000, 2, 440.0);
    let mut sim = open(StreamConfig::default(), backend).expect("open");
    sim.start().expect("start");
    assert!(sim.wait_for_chunk(2_000).is_some(), "ポーズ前にチャンクが届くはず");
    sim.stream.pause();
    while sim.stream.poll_chunk().is_some() {}

    let mut saw_stalled = false;
    let mut saw_recovered = false;
    let deadline = sim.now + 2800 * MS;
    while sim.now < deadline {
        sim.pass();
        while let Some(ev) = sim.stream.poll_event() {
            match ev {
                Event::StreamStalled => saw_stalled = true,
                Event::StreamRecovered => saw_recovered = true,
                _ => {}
            }
        }
        assert!(sim.stream.is_paused(), "ポーズ窓の間は is_paused が true のはず");
    }
    assert!(!saw_stalled, "長いポーズでも StreamStalled は発火しないはず");
    assert!(!saw_recovered, "失速していないので StreamRecovered も発火しないはず");
    sim.stream.resume();
    let resumed = sim.wait_for_chunk(2_000).is_some();
    sim.stop();
    assert!(resumed, "resume 後にチャンク配信が再開するはず");
}

#[test]
fn resume_flags_discontinuity_and_keeps_seq_continuous() {
    let backend = Mock::new(48_000, 2, 440.0);
    let mut sim = open(StreamConfig::default(), backend).expect("open");
    sim.start().expect("start");
    let before = sim.collect_for(200);
    assert!(!before.is_empty(), "ポーズ前にチャンクが届くはず");
    let mut last_seq = before.last().unwrap().seq;
    sim.stream.pause();
    while let Some(c) = sim.stream.poll_chunk() {
        last_seq = c.seq;
    }
    assert!(sim.collect_for(150).is_empty());
    sim.stream.resume();
    let first = sim.wait_for_chunk(2_000);
    sim.stop();
    let first = first.expect("resume 後にチャンクが届くはず");
    assert!(
        first.flags.discontinuity,
        "resume 後の最初のチャンクに DISCONTINUITY が立つはず: flags={:?}",
        first.flags
    );
    assert_eq!(
        first.seq,
        last_seq + 1,
        "seq はポーズ前後で連続するはず（{last_seq} -> {}）",
        first.seq
    );
    assert_eq!(first.dropped_before, 0, "ポーズで取りこぼしは出ないはず");
}

#[test]
fn resume_without_pause_is_noop() {
    let backend = Mock::new(48_000, 2, 440.0);
    let mut sim = open(StreamConfig::default(), backend).expect("open");
    sim.start().expect("start");
    let _ = sim.collect_for(200);
    sim.stream.resume();
    let after = sim.collect_for(200);
    sim.stop();
    assert!(!after.is_empty(), "チャンクが届くはず");
    for c in &after {
        assert!(
            !c.flags.discontinuity,
            "ポーズなしの resume では DISCONTINUITY は立たない: flags={:?}",
            c.flags
        );
    }
}

#[test]
fn double_pause_then_single_resume_recovers() {
    let backend = Mock::new(48_000, 2, 440.0);
    let mut sim = open(StreamConfig::default(), backend).expect("open");
    sim.start().expect("start");
    let before = sim.collect_for(200);
    assert!(!before.is_empty(), "ポーズ前にチャンクが届くはず");
    sim.stream.pause();
    sim.stream.pause();
    assert!(sim.stream.is_paused());
    while sim.stream.poll_chunk().is_some() {}
    assert!(sim.collect_for(150).is_empty());
    sim.stream.resume();
    assert!(!sim.stream.is_paused());
    let got = sim.wait_for_chunk(2_000).is_some();
    sim.stop();
    assert!(got, "resume 一回で配信が再開するはず");
}

#[test]
fn gain_scales_samples_and_meters() {
    for (gain, lo, hi) in [(2.0f32, 0.95f32, 1.0f32), (0.5, 0.2, 0.3)] {
        let backend = Mock::new(48_000, 2, 440.0);
        let config = StreamConfig { gain_bits: gain.to_bits(), ..Default::default() };
        let mut sim = open(config, backend).expect("open");
        sim.start().expect("start");
        let chunks = sim.collect_for(300);
        sim.stop();
        assert!(!chunks.is_empty(), "gain={gain} でチャンクが届くはず");
        let mut max_peak = 0.0f32;
        for c in &chunks {
            let recomputed = floats(&c.data).iter().fold(0.0f32, |m, &x| m.max(x.abs()));
            let peak = f32::from_bits(c.peak);
            assert_eq!(peak, recomputed, "peak はゲイン適用後の data から算出されるはず");
            assert_eq!(c.rms, rms(&c.data));
            max_peak = max_peak.max(peak);
        }
        assert!(
            (lo..=hi).contains(&max_peak),
            "gain={gain} のピークは {lo}..={hi} のはず: {max_peak}"
        );
    }
}

#[test]
fn set_gain_takes_effect_mid_stream() {
    let backend = Mock::new(48_000, 2, 440.0);
    let mut sim = open(StreamConfig::default(), backend).expect("open");
    sim.start().expect("start");
    assert_eq!(f32::from_bits(sim.stream.gain()), 1.0, "既定ゲインは 1.0");
    assert!(sim.wait_for_chunk(2_000).is_some(), "set_gain 前にチャンクが届くはず");

    sim.set_gain(0.0f32).expect("set_gain(0.0)");
    assert_eq!(f32::from_bits(sim.stream.gain()), 0.0);
    let mut got_silent = false;
    let end = sim.now + 2_000 * MS;
    while sim.now < end && !got_silent {
        match sim.stream.poll_chunk() {
            Some(c) => got_silent = f32::from_bits(c.peak) == 0.0,
            None => sim.pass(),
        }
    }
    assert!(got_silent, "set_gain(0.0) 後に無音チャンクが届くはず");

    let after = sim.collect_for(300);
    sim.stop();
    assert!(!after.is_empty(), "無音でもチャンクは流れ続けるはず");
    for c in &after {
        assert!(
            floats(&c.data).iter().all(|&x| x == 0.0),
            "gain 0.0 では全サンプル 0 のはず"
        );
        assert_eq!(f32::from_bits(c.peak), 0.0);
        assert_eq!(f32::from_bits(c.rms), 0.0);
    }
}

#[test]
fn gain_clamps_to_unit_range() {
    let backend = Mock::new(48_000, 2, 440.0);
    let config = StreamConfig { gain_bits: 100.0f32.to_bits(), ..Default::default() };
    let mut sim = open(config, backend).expect("open");
    sim.start().expect("start");
    let chunks = sim.collect_for(300);
    sim.stop();
    assert!(!chunks.is_empty(), "チャンクが届くはず");
    let mut max_peak = 0.0f32;
    for c in &chunks {
        assert!(
            floats(&c.data).iter().all(|&x| (-1.0..=1.0).contains(&x)),
            "サンプルは ±1.0 を超えないはず"
        );
        max_peak = max_peak.max(f32::from_bits(c.peak));
    }
    assert_eq!(max_peak, 1.0, "クランプによりピークはちょうど 1.0 のはず");
}

#[test]
fn invalid_gain_rejected() {
    let backend = Mock::new(48_000, 2, 440.0);
    let config = StreamConfig { gain_bits: (-1.0f32).to_bits(), ..Default::default() };
    let err = open_err(open(config, backend), "gain=-1.0");
    assert!(matches!(err, Error::InvalidArg(_)), "InvalidArg のはず: {err:?}");

    let backend = Mock::new(48_000, 2, 440.0);
    let config = StreamConfig { gain_bits: f32::NAN.to_bits(), ..Default::default() };
    let err = open_err(open(config, backend), "gain=NaN");
    assert!(matches!(err, Error::InvalidArg(_)), "InvalidArg のはず: {err:?}");

    let backend = Mock::new(48_000, 2, 440.0);
    let mut sim = open(StreamConfig::default(), backend).expect("open");
    assert!(matches!(sim.set_gain(-1.0f32), Err(Error::InvalidArg(_))));
    assert!(matches!(sim.set_gain(f32::NAN), Err(Error::InvalidArg(_))));
    assert_eq!(
        f32::from_bits(sim.stream.gain()),
        1.0,
        "失敗した set_gain は現在値を変えないはず"
    );
}

#[test]
fn backend_panic_in_start_returns_err_not_silent_death() {
    let mut backend = Mock::new(48_000, 2, 440.0);
    backend.panics_at = Some(1);
    let mut sim = open(StreamConfig::default(), backend).expect("open");
    match sim.start() {
        Ok(()) => panic!("backend が start で panic したのに start() が Ok を返した"),
        Err(Error::Backend(msg)) => {
            assert!(
                msg.contains("panicked"),
                "Error::Backend は panic 由来と分かるメッセージのはず: {msg}"
            );
        }
        Err(other) => panic!("Error::Backend を期待したが別のエラー: {other:?}"),
    }
    sim.stop();
}

#[test]
fn backend_panic_on_watchdog_reopen_surfaces_event_error() {
    let mut backend = Mock::new(48_000, 2, 440.0);
    backend.stall_after_ns = Some(300 * MS);
    backend.panics_at = Some(2);
    let mut sim = open(StreamConfig::default(), backend).expect("open");
    sim.start().expect("start");
    let mut saw_stalled = false;
    let mut saw_reopen_error = false;
    let deadline = sim.now + 8_000 * MS;
    while sim.now < deadline && !saw_reopen_error {
        sim.pass();
        while sim.stream.poll_chunk().is_some() {}
        while let Some(ev) = sim.stream.poll_event() {
            match ev {
                Event::StreamStalled => saw_stalled = true,
                Event::Error(msg) if msg.contains("reopen failed") => saw_reopen_error = true,
                _ => {}
            }
        }
    }
    sim.stop();
    assert!(saw_stalled, "失速は検知されるはず（Event::StreamStalled）");
    assert!(saw_reopen_error);
}

#[test]
fn recording_clock_is_zero_based() {
    let backend = Mock::new(48_000, 2, 440.0);
    let mut sim = open(StreamConfig::default(), backend).expect("open");
    sim.start().expect("start");
    let first = sim.wait_for_chunk(2_000);
    sim.stop();
    let first = first.expect("最初のチャンクが届くはず");
    assert_eq!(
        first.pts_ns, 0,
        "最初に配信されるチャンクは録音 0 起点（pts_ns == 0）のはず: {}",
        first.pts_ns
    );
}

#[test]
fn pause_preserves_absolute_clock() {
    let backend = Mock::new(48_000, 2, 440.0);
    let mut sim = open(StreamConfig::default(), backend).expect("open");
    sim.start().expect("start");
    let mut before = sim.collect_for(250);
    assert!(!before.is_empty(), "pause 前にチャンクが届くはず");
    let mut last = before.pop().unwrap();
    sim.stream.pause();
    while let Some(c) = sim.stream.poll_chunk() {
        last = c;
    }
    let d_ns = 600 * MS;
    let _ = sim.collect_for(600);
    sim.stream.resume();
    let first = sim.wait_for_chunk(2_000);
    sim.stop();
    let first = first.expect("resume 後にチャンクが届くはず");
    assert!(
        first.flags.discontinuity,
        "resume 後の最初のチャンクに DISCONTINUITY が立つはず: {:?}",
        first.flags
    );
    assert_eq!(first.seq, last.seq + 1, "seq は pause 前後で連続するはず");
    assert_eq!(first.dropped_before, 0, "pause で取りこぼしは出ない");
    let delta = first.pts_ns - last.pts_ns;
    assert!(
        delta >= d_ns * 4 / 5,
        "pts は pause ぶん（>= {} ns）前進するはず: delta={delta} ns",
        d_ns * 4 / 5
    );
    assert!(
        delta <= d_ns + 500_000_000,
        "pts の前進が過大でない（<= D + 500ms）: delta={delta} ns"
    );
}

#[test]
fn dual_output_delivers_primary_and_secondary() {
    let config = StreamConfig {
        secondary_output: Some(OutputFormat { sample_rate: 16_000, channels: 1 }),
        ring_capacity_chunks: 200,
        ..Default::default()
    };
    let backend = Mock::new(48_000, 2, 440.0);
    let mut sim = open(config, backend).expect("open");
    sim.start().expect("start");
    let mut primary: Vec<AudioChunk> = sim.collect_for(500);
    let mut secondary: Vec<SecondaryChunk> = Vec::new();
    sim.stop();
    while let Some(c) = sim.stream.poll_chunk() {
        primary.push(c);
    }
    while let Some(c) = sim.stream.poll_secondary() {
        secondary.push(c);
    }
    assert!(!primary.is_empty(), "主チャンクが届くはず");
    assert!(!secondary.is_empty(), "副チャンクが届くはず");
    for c in &primary {
        assert_eq!(c.data.len(), 960 * 2, "主は 48k/stereo = 1920 sample");
        assert_eq!(c.frames, 960);
    }
    for c in &secondary {
        assert_eq!(c.samples.len(), 320, "副は 16k/mono = 320 sample");
        assert_eq!(c.frames, 320);
    }
    assert_eq!(primary[0].pts_ns, 0, "主先頭は 0 起点");
    for w in secondary.windows(2) {
        assert!(w[1].pts_ns >= w[0].pts_ns, "副 pts は非減少");
    }
    assert!(secondary[0].pts_ns >= 0, "副 pts は非負（主エポック基準）");
    assert_eq!(secondary[0].seq, 0);
    for w in secondary.windows(2) {
        assert_eq!(w[1].seq, w[0].seq + 1, "副 seq は単調連番");
    }
}

#[test]
fn secondary_output_cannot_change_on_switch() {
    let config = StreamConfig {
        secondary_output: Some(OutputFormat { sample_rate: 16_000, channels: 1 }),
        ..Default::default()
    };
    let backend = Mock::new(48_000, 2, 440.0);
    let mut sim = open(config, backend).expect("open");
    sim.start().expect("start");
    let new_config = StreamConfig {
        secondary_output: Some(OutputFormat { sample_rate: 8_000, channels: 1 }),
        ..Default::default()
    };
    let err = sim.stream.switch_source(&new_config);
    sim.stop();
    assert!(
        matches!(err, Err(Error::InvalidArg(_))),
        "副フォーマット変更は InvalidArg のはず: {err:?}"
    );
}

#[test]
fn ring_overflow_marks_discontinuity() {
    let mut backend = Mock::new(48_000, 2, 440.0);
    backend.flood = Some(RAW_RING_SAMPLES * 2);
    let config = StreamConfig { ring_capacity_chunks: 200, ..Default::default() };
    let mut sim = open(config, backend).expect("open");
    sim.start().expect("start");
    let mut saw_discontinuity = false;
    let deadline = sim.now + 2_000 * MS;
    while sim.now < deadline && !saw_discontinuity {
        sim.pass();
        while let Some(c) = sim.stream.poll_chunk() {
            if c.flags.discontinuity {
                saw_discontinuity = true;
            }
        }
    }
    sim.stop();
    assert!(saw_discontinuity, "RawRing オーバーフローで DISCONTINUITY が立つはず");
}

#[test]
fn denoise_enabled_still_delivers_both_taps() {
    let config = StreamConfig {
        secondary_output: Some(OutputFormat { sample_rate: 16_000, channels: 1 }),
        ..Default::default()
    };
    let backend = Mock::new(48_000, 2, 440.0);
    let mut sim = open(config, backend).expect("open");
    sim.stream.set_denoise(true);
    sim.start().expect("start");
    assert!(sim.delay.is_some());
    let primary = sim.collect_for(500).len();
    let mut secondary = 0usize;
    while let Some(c) = sim.stream.poll_secondary() {
        assert_eq!(c.samples.len(), 320, "副は 16k/mono = 320 sample");
        secondary += 1;
    }
    sim.stop();
    assert!(primary > 0, "denoise 有効でも主チャンクが届くはず");
    assert!(secondary > 0, "denoise 有効でも副チャンクが届くはず");
}

// --- further behaviour ---

fn text_of(r: Result<(), Error>) -> String {
    match r {
        Ok(()) => String::from("ok"),
        Err(e) => e.text(),
    }
}

/// The first reason counts, and each has its message.
#[test]
fn open_reports_the_first_reason() {
    let bad = OutputFormat { sample_rate: 48_000, channels: 0 };
    let cases = [
        (0, f32::NAN, OutputFormat::default(), None, "invalid argument: ring_capacity_chunks must be > 0"),
        (1, f32::NAN, bad, None, "invalid argument: gain must be finite and >= 0.0, got NaN"),
        (1, f32::INFINITY, bad, None, "invalid argument: gain must be finite and >= 0.0, got inf"),
        (1, -1.5, bad, None, "invalid argument: gain must be finite and >= 0.0, got -1.5"),
        (1, 1.0, bad, None, "unsupported format: output must have one or two channels"),
        (
            1,
            1.0,
            OutputFormat { sample_rate: 7_999, channels: 1 },
            None,
            "unsupported format: output sample rate is out of range",
        ),
        (
            1,
            1.0,
            OutputFormat::default(),
            Some(bad),
            "unsupported format: output must have one or two channels",
        ),
        (
            1,
            1.0,
            OutputFormat::default(),
            None,
            "invalid argument: backend native_format must have non-zero rate and channels",
        ),
    ];
    for (capacity, gain, output, secondary_output, text) in cases {
        let config = StreamConfig {
            ring_capacity_chunks: capacity,
            gain_bits: gain.to_bits(),
            output,
            secondary_output,
            ..Default::default()
        };
        match open_stream(config, (48_000, 0)) {
            Ok(_) => panic!("expected an error"),
            Err(e) => assert_eq!(e.text(), text),
        }
    }
    assert!(matches!(open_stream(StreamConfig::default(), (0, 2)), Err(Error::InvalidArg(_))));
}

/// Negative zero is not below zero.
#[test]
fn negative_zero_is_a_gain() {
    let mut sim = open(StreamConfig::default(), Mock::new(48_000, 2, 440.0)).expect("open");
    assert!(sim.set_gain(-0.0f32).is_ok());
    assert!(sim.set_gain(f32::MAX).is_ok());
    assert!(sim.set_gain(f32::INFINITY).is_err());
    assert!(sim.set_gain(-f32::MIN_POSITIVE).is_err());
    assert_eq!(sim.stream.gain(), f32::MAX.to_bits());
    assert_eq!(
        text_of(sim.set_gain(-0.25)),
        "invalid argument: gain must be finite and >= 0.0, got -0.25"
    );
}

/// Starting twice does nothing, and after a stop the chunk producer is gone.
#[test]
fn start_is_possible_once() {
    let mut sim = open(StreamConfig::default(), Mock::new(48_000, 2, 440.0)).expect("open");
    sim.start().expect("start");
    assert!(matches!(sim.stream.start(), StartStep::Done(Ok(()))));
    sim.stop();
    assert_eq!(text_of(sim.start()), "invalid state: chunk producer already taken");
    assert!(!sim.stream.started);
}

/// A pause made during a recording does not reach into the next start, and one
/// made before a start that finds no backend is kept for the next.
#[test]
fn pause_does_not_outlive_its_recording() {
    let mut sim = open(StreamConfig::default(), Mock::new(48_000, 2, 440.0)).expect("open");
    sim.start().expect("start");
    sim.stream.pause();
    assert!(matches!(sim.stream.start(), StartStep::Done(Ok(()))));
    assert!(sim.stream.is_paused());
    sim.stop();
    assert!(sim.stream.is_paused());
    assert!(matches!(sim.stream.start(), StartStep::StartBackend));
    assert!(!sim.stream.is_paused());

    let mut device = Mock::new(48_000, 2, 440.0);
    device.fails_at = Some(1);
    let mut sim = open(StreamConfig::default(), device).expect("open");
    sim.stream.pause();
    assert_eq!(text_of(sim.start()), "backend error: no device");
    sim.start().expect("start");
    assert!(sim.stream.is_paused());
}

/// A pause before the start takes effect: nothing is delivered until it ends.
#[test]
fn pause_before_start_is_kept() {
    let mut sim = open(StreamConfig::default(), Mock::new(48_000, 2, 440.0)).expect("open");
    sim.stream.pause();
    sim.start().expect("start");
    assert!(sim.stream.is_paused());
    assert!(sim.collect_for(500).is_empty());
    sim.stream.resume();
    let chunks = sim.collect_for(100);
    assert!(chunks[0].flags.discontinuity);
    assert_eq!((chunks[0].seq, chunks[0].pts_ns), (0, 0));
}

fn done_text(step: StartStep) -> String {
    match step {
        StartStep::Done(r) => text_of(r),
        other => panic!("expected an end, got {other:?}"),
    }
}

/// Threads that cannot be spawned are reported, and leave the stream stopped. A
/// later start finds the chunk producer gone.
#[test]
fn spawn_failures_are_reported() {
    let mut sim = open(StreamConfig::default(), Mock::new(48_000, 2, 440.0)).expect("open");
    sim.spawn_failures = 1;
    assert_eq!(text_of(sim.start()), "backend error: spawn intake thread: no more threads");
    assert!(!sim.stream.started);
    assert_eq!(text_of(sim.start()), "invalid state: chunk producer already taken");
    assert!(!sim.stream.started);
    let why = || Err(String::from("no more threads"));
    assert_eq!(
        done_text(sim.stream.watchdog_spawned(why())),
        "backend error: spawn watchdog thread: no more threads"
    );
    assert!(!sim.stream.started);
}

/// A backend that fails to start ends the start, which can be tried again.
#[test]
fn failed_start_can_be_repeated() {
    let mut device = Mock::new(48_000, 2, 440.0);
    device.fails_at = Some(1);
    let mut sim = open(StreamConfig::default(), device).expect("open");
    assert_eq!(text_of(sim.start()), "backend error: no device");
    assert_eq!(sim.stream.shared.raw_generation, 0);
    sim.start().expect("start");
    assert!(sim.stream.started);
    assert_eq!(sim.stream.shared.raw_generation, 1);
}

/// The first primary chunk stands at zero although a secondary chunk, which the
/// conversion does not delay, comes before it.
#[test]
fn primary_output_starts_the_clock() {
    let config = StreamConfig {
        output: OutputFormat { sample_rate: 16_000, channels: 1 },
        secondary_output: Some(OutputFormat { sample_rate: 48_000, channels: 2 }),
        ..Default::default()
    };
    let mut sim = open(config, Mock::new(48_000, 2, 440.0)).expect("open");
    sim.start().expect("start");
    let mut primary = Vec::new();
    let mut secondary = Vec::new();
    let mut secondary_first = false;
    for _ in 0..30 {
        sim.pass();
        while let Some(c) = sim.stream.poll_secondary() {
            secondary.push(c);
        }
        secondary_first |= primary.is_empty() && !secondary.is_empty();
        while let Some(c) = sim.stream.poll_chunk() {
            primary.push(c);
        }
    }
    assert!(secondary_first);
    assert_eq!(primary[0].pts_ns, 0);
    assert_eq!(primary[1].pts_ns - primary[0].pts_ns, 20 * MS);
}

/// A resume in the middle of a round marks the chunk that the round delivers.
#[test]
fn resume_within_a_round_marks_its_chunk() {
    let mut sim = open(StreamConfig::default(), Mock::new(48_000, 2, 440.0)).expect("open");
    sim.start().expect("start");
    let intake = sim.intake.as_mut().expect("intake");
    assert!(matches!(intake.tick(&mut sim.stream.shared), IntakeStep::Pop));
    let mut step = intake.popped(&mut sim.stream.shared, &[UNITY; 3840], Some(0), 0, 0);
    let mut delivered = 0;
    while let IntakeStep::Measure { .. } = step {
        if delivered == 0 {
            sim.stream.pause();
            sim.stream.resume();
        }
        delivered += 1;
        step = intake.measured(&mut sim.stream.shared, 0, 0);
    }
    assert_eq!(delivered, 2);
    let flags: Vec<bool> = std::iter::from_fn(|| sim.stream.poll_chunk())
        .map(|c| c.flags.discontinuity)
        .collect();
    assert_eq!(flags, vec![true, false]);
}

/// A pause in the middle of a round takes effect at once: the chunk in work and
/// all others are thrown away, and the numbers and the clock wait.
#[test]
fn pause_within_a_round_stops_its_chunks() {
    let mut sim = open(StreamConfig::default(), Mock::new(48_000, 2, 440.0)).expect("open");
    sim.start().expect("start");
    let intake = sim.intake.as_mut().expect("intake");
    assert!(matches!(intake.tick(&mut sim.stream.shared), IntakeStep::Pop));
    let step = intake.popped(&mut sim.stream.shared, &[UNITY; 5760], Some(0), 0, 0);
    assert!(matches!(step, IntakeStep::Measure { .. }));
    sim.stream.pause();
    assert!(matches!(intake.measured(&mut sim.stream.shared, 0, 0), IntakeStep::Again));
    assert!(sim.stream.poll_chunk().is_none());
    sim.stream.resume();
    let chunk = sim.wait_for_chunk(200).expect("chunk");
    assert_eq!((chunk.seq, chunk.pts_ns), (0, 0));
    assert!(chunk.flags.discontinuity);
}

/// A gain that is set in the middle of a round takes effect with the next chunk.
#[test]
fn gain_within_a_round_scales_the_next_chunk() {
    let mut sim = open(StreamConfig::default(), Mock::new(48_000, 2, 440.0)).expect("open");
    sim.start().expect("start");
    let intake = sim.intake.as_mut().expect("intake");
    assert!(matches!(intake.tick(&mut sim.stream.shared), IntakeStep::Pop));
    let step = intake.popped(&mut sim.stream.shared, &[UNITY; 3840], Some(0), 0, 0);
    assert!(matches!(step, IntakeStep::Measure { .. }));
    let half = 0.5f32.to_bits();
    sim.stream.set_gain(half, "0.5").expect("gain");
    match intake.measured(&mut sim.stream.shared, 0, 0) {
        IntakeStep::Scale { samples, gain } => {
            assert_eq!((samples, gain), (vec![UNITY; 1920], half));
        }
        _ => panic!("expected a product"),
    }
}

/// After a stop the rings hold their chunks in rising number, nothing is added,
/// and no switch is possible.
#[test]
fn stop_leaves_the_chunks() {
    let config = StreamConfig {
        secondary_output: Some(OutputFormat::default()),
        ..Default::default()
    };
    let mut sim = open(config, Mock::new(48_000, 2, 440.0)).expect("open");
    sim.start().expect("start");
    for _ in 0..10 {
        sim.pass();
    }
    sim.stop();
    sim.stop();
    for _ in 0..10 {
        sim.pass();
    }
    let primary: Vec<u64> = std::iter::from_fn(|| sim.stream.poll_chunk()).map(|c| c.seq).collect();
    let secondary: Vec<u64> =
        std::iter::from_fn(|| sim.stream.poll_secondary()).map(|c| c.seq).collect();
    assert_eq!(primary, vec![0, 1, 2, 3, 4]);
    assert_eq!(secondary, vec![0, 1, 2, 3, 4]);
    assert!(sim.stream.poll_chunk().is_none());
    assert!(matches!(sim.stream.switch_backend(), Err(Error::InvalidState(_))));
    assert!(matches!(
        sim.stream.switch_source(&StreamConfig::default()),
        Err(Error::InvalidState(_))
    ));
}

/// A gain of zero leaves silence, with silent meters, on both outputs.
#[test]
fn zero_gain_is_silent() {
    let config = StreamConfig {
        gain_bits: 0,
        secondary_output: Some(OutputFormat { sample_rate: 16_000, channels: 1 }),
        ..Default::default()
    };
    let mut sim = open(config, Mock::new(48_000, 2, 440.0)).expect("open");
    sim.start().expect("start");
    let primary = sim.collect_for(200);
    assert!(!primary.is_empty());
    for c in &primary {
        assert_eq!(c.frames * 2, c.data.len());
        assert!(floats(&c.data).iter().all(|&x| x == 0.0));
        assert_eq!((c.peak, c.rms), (0, 0));
    }
    let secondary = sim.stream.poll_secondary().expect("chunk");
    assert_eq!(secondary.frames, secondary.samples.len());
    assert_eq!((secondary.peak, secondary.rms), (0, 0));
}

/// At a gain of one the samples come out bit for bit.
#[test]
fn unity_gain_keeps_every_bit() {
    let mut sim = open(StreamConfig::default(), Mock::new(48_000, 2, 440.0)).expect("open");
    sim.start().expect("start");
    let odd: Vec<u32> = (0..1920u32).map(|i| i.wrapping_mul(0x9e37_79b9)).collect();
    sim.raw = odd.clone();
    sim.intake_rounds();
    let chunk = sim.stream.poll_chunk().expect("chunk");
    assert_eq!(chunk.data, odd);
    assert_eq!(sim.stream.gain(), UNITY);
}

/// A full ring gives up its oldest chunk; numbers, notes and totals agree.
#[test]
fn full_ring_gives_up_the_oldest() {
    let config = StreamConfig { ring_capacity_chunks: 2, ..Default::default() };
    let mut sim = open(config, Mock::new(48_000, 2, 440.0)).expect("open");
    sim.start().expect("start");
    for _ in 0..10 {
        sim.pass();
    }
    assert_eq!(sim.stream.dropped_chunks(), 3);
    let a = sim.stream.poll_chunk().expect("chunk");
    let b = sim.stream.poll_chunk().expect("chunk");
    assert!(sim.stream.poll_chunk().is_none());
    assert_eq!((a.seq, a.dropped_before), (3, 1));
    assert_eq!((b.seq, b.dropped_before), (4, 1));
    let mut counts = Vec::new();
    while let Some(ev) = sim.stream.poll_event() {
        if let Event::ChunkDropped { count } = ev {
            counts.push(count);
        }
    }
    assert_eq!(counts, vec![1, 2, 3]);
}

/// A switch goes on in numbers and time, marks the next chunk as a mere
/// discontinuity and keeps what belongs to the stream.
#[test]
fn switch_keeps_the_recording_going() {
    let mut sim = open(StreamConfig::default(), Mock::new(48_000, 2, 440.0)).expect("open");
    assert!(matches!(sim.stream.switch_backend(), Err(Error::InvalidState(_))));
    assert!(matches!(
        sim.stream.switch_source(&StreamConfig::default()),
        Err(Error::InvalidState(_))
    ));
    sim.start().expect("start");
    let before = sim.collect_for(200);
    let last = before.last().expect("chunk");

    let new_config = StreamConfig {
        kind: SourceKind::Process,
        target_pid: Some(7),
        mode: ProcessMode::Except,
        device_id: Some(String::from("speakers")),
        exclude_self: true,
        mute_playback: true,
        chunk_ms: 40,
        ring_capacity_chunks: 3,
        gain_bits: 0,
        ..Default::default()
    };
    sim.stream.switch_source(&new_config).expect("allowed");
    sim.stream.switch_backend().expect("started");
    assert!(sim.stream.shared.switching);
    sim.device.stop();
    sim.device = Mock::new(44_100, 1, 440.0);
    let outcome = start_backend_catching(sim.device.start());
    sim.raw.clear();
    sim.overflow = 0;
    match sim.stream.backend_switched((44_100, 1), outcome, sim.now) {
        SwitchStep::Switched => {}
        SwitchStep::Restore(_) => panic!("expected a switch"),
    }
    sim.stream.source_switched(new_config);
    assert!(!sim.stream.shared.switching);
    assert_eq!(sim.stream.native_format(), (44_100, 1));
    let config = sim.stream.config();
    assert_eq!(config.kind, SourceKind::Process);
    assert_eq!(config.target_pid, Some(7));
    assert_eq!(config.device_id.as_deref(), Some("speakers"));
    assert_eq!(config.chunk_ms, 20);
    assert_eq!(config.ring_capacity_chunks, 50);
    assert_eq!(config.gain_bits, UNITY);
    assert!(!config.mute_playback);
    let copy = config.clone();
    assert_eq!((copy.kind, copy.device_id), (config.kind, config.device_id.clone()));

    let after = sim.collect_for(300);
    assert_eq!(after[0].seq, last.seq + 1);
    assert!(after[0].pts_ns >= last.pts_ns);
    assert!(after[0].flags.discontinuity && !after[0].flags.recovered);
    assert!(!after[1].flags.discontinuity);
}

/// A switch whose new device does not start leaves the old one running.
#[test]
fn failed_switch_restores_the_old_source() {
    let mut sim = open(StreamConfig::default(), Mock::new(48_000, 2, 440.0)).expect("open");
    sim.start().expect("start");
    let _ = sim.collect_for(100);
    let generation = sim.stream.shared.raw_generation;
    sim.stream.switch_backend().expect("started");
    sim.device.stop();
    let failed = Err(Error::Backend(String::from("busy")));
    let failure = match sim.stream.backend_switched((44_100, 1), failed, sim.now) {
        SwitchStep::Restore(e) => e,
        SwitchStep::Switched => panic!("expected a failure"),
    };
    assert!(sim.stream.shared.switching);
    let outcome = start_backend_catching(sim.device.start());
    let r = sim.stream.source_restored((48_000, 2), outcome, sim.now, failure);
    assert_eq!(text_of(r), "backend error: busy");
    assert!(!sim.stream.shared.switching);
    assert_eq!(sim.stream.native_format(), (48_000, 2));
    assert_eq!(sim.stream.shared.raw_generation, generation + 1);
    let after = sim.collect_for(100);
    assert!(after[0].flags.discontinuity && !after[0].flags.recovered);
}

/// The primary output cannot change on a switch either.
#[test]
fn output_cannot_change_on_switch() {
    let mut sim = open(StreamConfig::default(), Mock::new(48_000, 2, 440.0)).expect("open");
    sim.start().expect("start");
    let other = StreamConfig {
        output: OutputFormat { sample_rate: 16_000, channels: 2 },
        ..Default::default()
    };
    assert_eq!(
        text_of(sim.stream.switch_source(&other)),
        "invalid argument: output format cannot change during switch_source"
    );
    let more = StreamConfig {
        secondary_output: Some(OutputFormat::default()),
        ..Default::default()
    };
    assert_eq!(
        text_of(sim.stream.switch_source(&more)),
        "invalid argument: secondary output format cannot change during switch_source"
    );
}

/// Noise suppression that is asked for later comes with the next generation.
#[test]
fn denoise_comes_with_the_next_generation() {
    let mut sim = open(StreamConfig::default(), Mock::new(48_000, 2, 440.0)).expect("open");
    sim.start().expect("start");
    let _ = sim.collect_for(50);
    sim.stream.set_denoise(true);
    let _ = sim.collect_for(50);
    assert!(sim.delay.is_none());
    sim.open_backend().expect("open");
    let _ = sim.collect_for(50);
    assert!(sim.delay.is_some());
}

/// The last round delivers everything, the tail of the processor included.
#[test]
fn stop_delivers_the_tail() {
    let mut sim = open(StreamConfig::default(), Mock::new(48_000, 2, 440.0)).expect("open");
    sim.stream.set_denoise(true);
    sim.start().expect("start");
    for _ in 0..4 {
        sim.pass();
    }
    let mut chunks = Vec::new();
    while let Some(c) = sim.stream.poll_chunk() {
        chunks.push(c);
    }
    assert_eq!(chunks.len(), 2);
    sim.stop();
    assert!(sim.intake_over);
    while let Some(c) = sim.stream.poll_chunk() {
        chunks.push(c);
    }
    assert_eq!(chunks.len(), 3);
    assert_eq!(&chunks[0].data[..960], &vec![0u32; 960][..]);
    assert_eq!(&chunks[2].data[960..], &vec![0u32; 960][..]);
    assert!(chunks[2].data[..960].iter().any(|&b| b != 0));
}

fn error_text(sim: &mut Sim) -> String {
    while let Some(ev) = sim.stream.poll_event() {
        if let Event::Error(m) = ev {
            return m;
        }
    }
    String::new()
}

/// An intake that cannot be set up says so and ends.
#[test]
fn intake_reports_a_failed_build() {
    let mut sim = open(StreamConfig::default(), Mock::new(48_000, 2, 440.0)).expect("open");
    sim.engine_failures = 1;
    sim.start().expect("start");
    assert!(sim.intake_over);
    assert_eq!(error_text(&mut sim), "normalizer init failed: backend error: no engine");
}

/// So does one that cannot be set up again.
#[test]
fn intake_reports_a_failed_rebuild() {
    let mut sim = open(StreamConfig::default(), Mock::new(48_000, 2, 440.0)).expect("open");
    sim.start().expect("start");
    let _ = sim.collect_for(50);
    sim.engine_failures = 1;
    sim.open_backend().expect("open");
    sim.pass();
    assert!(sim.intake_over);
    assert_eq!(
        error_text(&mut sim),
        "normalizer rebuild failed after source change: backend error: no engine"
    );
}

/// And one whose conversion fails.
#[test]
fn intake_reports_a_failed_push() {
    let mut sim = open(StreamConfig::default(), Mock::new(44_100, 2, 440.0)).expect("open");
    sim.start().expect("start");
    sim.conversion_failures = 1;
    let _ = sim.collect_for(100);
    assert!(sim.intake_over);
    assert_eq!(error_text(&mut sim), "normalizer push failed: backend error: broken");
}

/// Without a raw ring a round does nothing, and sleeps.
#[test]
fn round_without_a_ring_sleeps() {
    let mut sim = open(StreamConfig::default(), Mock::new(48_000, 2, 440.0)).expect("open");
    sim.start().expect("start");
    let intake = sim.intake.as_mut().expect("intake");
    let step = intake.tick(&mut sim.stream.shared);
    assert!(matches!(step, IntakeStep::Pop));
    let step = intake.popped(&mut sim.stream.shared, &[], None, 0, 0);
    assert!(matches!(step, IntakeStep::Sleep));
}

/// A loss marks both outputs once; the count starts anew with a generation.
#[test]
fn loss_marks_both_outputs_once() {
    let config = StreamConfig {
        secondary_output: Some(OutputFormat::default()),
        ..Default::default()
    };
    let mut sim = open(config, Mock::new(48_000, 2, 440.0)).expect("open");
    sim.start().expect("start");
    let _ = sim.collect_for(100);
    while sim.stream.poll_secondary().is_some() {}
    sim.overflow = 5;
    let primary = sim.collect_for(100);
    assert!(primary[0].flags.discontinuity);
    assert!(primary[1..].iter().all(|c| !c.flags.discontinuity));
    let first = sim.stream.poll_secondary().expect("chunk");
    assert!(first.flags.discontinuity);
    while let Some(c) = sim.stream.poll_secondary() {
        assert!(!c.flags.discontinuity);
    }
    let primary = sim.collect_for(100);
    assert!(primary.iter().all(|c| !c.flags.discontinuity));
    sim.open_backend().expect("open");
    let primary = sim.collect_for(100);
    assert!(primary.iter().all(|c| !c.flags.discontinuity));
}

/// The watchdog finds a stall at the threshold, keeps still during a switch and
/// waits longer after each failure.
#[test]
fn watchdog_paces_its_attempts() {
    let mut sim = open(StreamConfig::default(), Mock::new(48_000, 2, 440.0)).expect("open");
    let shared = &mut sim.stream.shared;
    let mut dog = Watchdog::new();
    shared.last_sample_ns = 0;
    assert_eq!(dog.tick(shared, 1_999_999_999), WatchdogAction::Wait);
    assert!(!dog.stalled);
    shared.switching = true;
    assert_eq!(dog.tick(shared, 2_000_000_000), WatchdogAction::Wait);
    assert!(!dog.stalled);
    shared.switching = false;
    assert_eq!(dog.tick(shared, 2_000_000_000), WatchdogAction::Wait);
    assert!(dog.stalled);
    assert!(matches!(shared.pop_event(), Some(Event::StreamStalled)));
    assert_eq!(dog.tick(shared, 2_250_000_000), WatchdogAction::StopBackend);
    assert_eq!(dog.stopped(shared), WatchdogAction::StartBackend);
    let mut waits = Vec::new();
    for _ in 0..7 {
        let failed = Err(Error::Backend(String::from("gone")));
        match dog.reopened(shared, failed, 0) {
            WatchdogAction::Sleep { ns } => waits.push(ns * 8 / 7),
            other => panic!("expected a wait, got {other:?}"),
        }
        match shared.pop_event() {
            Some(Event::Error(m)) => assert_eq!(m, "reopen failed: backend error: gone"),
            _ => panic!("expected an error event"),
        }
    }
    let expected: Vec<u64> = [250, 500, 1000, 2000, 4000, 5000, 5000]
        .iter()
        .map(|ms| ms * 1_000_000)
        .collect();
    assert_eq!(waits, expected);
    assert_eq!(dog.reopened(shared, Ok(()), 0), WatchdogAction::Wait);
    assert!(matches!(shared.pop_event(), Some(Event::StreamRecovered)));
    assert!(shared.recovered_pending);
    assert_eq!(dog, Watchdog::new());
    shared.stopping = true;
    assert_eq!(dog.tick(shared, i64::MAX), WatchdogAction::Exit);
    assert_eq!(dog.stopped(shared), WatchdogAction::Exit);
}

/// Stalls and recoveries are reported in turn, and a new stall begins with the
/// shortest wait again.
#[test]
fn stalls_and_recoveries_alternate() {
    let mut sim = open(StreamConfig::default(), Mock::new(48_000, 2, 440.0)).expect("open");
    let shared = &mut sim.stream.shared;
    let mut dog = Watchdog::new();
    for round in 0..3 {
        let now = (round + 1) * 10_000_000_000;
        assert_eq!(dog.tick(shared, now), WatchdogAction::Wait);
        assert!(matches!(shared.pop_event(), Some(Event::StreamStalled)));
        assert_eq!(dog.tick(shared, now), WatchdogAction::StopBackend);
        assert_eq!(dog.stopped(shared), WatchdogAction::StartBackend);
        let failed = Err(Error::Backend(String::from("gone")));
        let wait = WatchdogAction::Sleep { ns: 250_000_000 - 31_250_000 };
        assert_eq!(dog.reopened(shared, failed, 0), wait);
        assert!(matches!(shared.pop_event(), Some(Event::Error(_))));
        assert_eq!(dog.tick(shared, now), WatchdogAction::StopBackend);
        assert!(shared.pop_event().is_none());
        assert_eq!(dog.stopped(shared), WatchdogAction::StartBackend);
        shared.last_sample_ns = now;
        assert_eq!(dog.reopened(shared, Ok(()), 0), WatchdogAction::Wait);
        assert!(matches!(shared.pop_event(), Some(Event::StreamRecovered)));
        assert_eq!(dog.tick(shared, now), WatchdogAction::Wait);
        assert!(shared.pop_event().is_none());
    }
}

/// Times at the ends of the range do not overflow.
#[test]
fn extreme_times_are_brought_into_range() {
    let mut sim = open(StreamConfig::default(), Mock::new(48_000, 2, 440.0)).expect("open");
    let shared = &mut sim.stream.shared;
    let mut dog = Watchdog::new();
    shared.last_sample_ns = i64::MIN;
    assert_eq!(dog.tick(shared, i64::MAX), WatchdogAction::Wait);
    assert!(dog.stalled);
    shared.recording_epoch_ns = i64::MIN + 1;
    assert_eq!(flexaudio::shared::apply_epoch(shared, i64::MAX), i64::MAX);
    assert_eq!(flexaudio::shared::apply_epoch(shared, i64::MIN + 3), 2);
}
