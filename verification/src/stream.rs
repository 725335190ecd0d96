//! A capture stream as its owner sees it.
//!
//! Opening and starting backends and spawning threads are acts of the caller.
//! What they mean for the stream is decided here: each function takes the
//! outcome of the act as an argument.

use vstd::prelude::*;

use crate::sample::{gain_is_valid, valid_gain};
use crate::shared::{RingModel, SharedModel, SharedState, NO_EPOCH};
use crate::types::{
    join, AudioChunk, Error, ErrorView, Event, OutputFormat, SecondaryChunk, StreamConfig,
};

verus! {

/// Capacity in samples of the ring between a device and the intake.
pub const RAW_RING_SAMPLES: usize = 48_000;

/// One source, captured into chunks.
#[derive(Debug)]
pub struct Stream {
    /// How the stream is set up.
    pub config: StreamConfig,
    /// What the threads of the stream share.
    pub shared: SharedState,
    /// Whether the stream is capturing.
    pub started: bool,
}

/// What an intake needs to know at its start.
#[derive(Clone, Copy, Debug)]
pub struct IntakeSetup {
    /// Rate and channel count of the backend.
    pub native_format: (u32, u16),
    /// Primary output.
    pub output: OutputFormat,
    /// Secondary output, if any.
    pub secondary_output: Option<OutputFormat>,
}

/// What comes next on the way to a started stream.
#[derive(Debug)]
pub enum StartStep {
    /// The start is over.
    Done(Result<(), Error>),
    /// Start the backend, and report that to [`Stream::backend_started`].
    StartBackend,
    /// Spawn the intake, and report that to [`Stream::intake_spawned`].
    SpawnIntake(IntakeSetup),
    /// Spawn the watchdog, and report that to [`Stream::watchdog_spawned`].
    SpawnWatchdog,
}

/// What follows the attempt to start a new backend.
#[derive(Debug)]
pub enum SwitchStep {
    /// The new backend is in charge.
    Switched,
    /// The new backend failed so: start the old one again, and report that to
    /// [`Stream::source_restored`].
    Restore(Error),
}

/// Why a stream cannot be opened, if so. The first reason counts. `gain_text` is
/// the gain written out as a number.
pub open spec fn open_error(
    config: StreamConfig,
    native_format: (u32, u16),
    gain_text: Seq<char>,
) -> Option<ErrorView> {
    if config.ring_capacity_chunks == 0 {
        Some(ErrorView::InvalidArg("ring_capacity_chunks must be > 0"@))
    } else if !valid_gain(config.gain_bits) {
        Some(gain_error(gain_text))
    } else if !config.output.supported() {
        Some(config.output.unsupported())
    } else if config.secondary_output matches Some(sec) && !sec.supported() {
        Some(config.secondary_output->0.unsupported())
    } else if native_format.0 == 0 || native_format.1 == 0 {
        Some(
            ErrorView::InvalidArg("backend native_format must have non-zero rate and channels"@),
        )
    } else {
        None
    }
}

/// Why a gain is refused that reads `gain_text` as a number.
pub open spec fn gain_error(gain_text: Seq<char>) -> ErrorView {
    ErrorView::InvalidArg("gain must be finite and >= 0.0, got "@ + gain_text)
}

/// The error for a gain that is refused.
fn refused_gain(gain_text: &str) -> (r: Error)
    ensures
        r@ == gain_error(gain_text@),
{
    Error::InvalidArg(join("gain must be finite and >= 0.0, got ", gain_text))
}

/// Why a switch to another configuration is refused, if so.
pub open spec fn switch_error(stream: Stream, new_config: StreamConfig) -> Option<ErrorView> {
    if !stream.started {
        Some(ErrorView::InvalidState("switch_source は start 済みのストリームでのみ可能"@))
    } else if new_config.output != stream.config.output {
        Some(ErrorView::InvalidArg("output format cannot change during switch_source"@))
    } else if new_config.secondary_output != stream.config.secondary_output {
        Some(
            ErrorView::InvalidArg("secondary output format cannot change during switch_source"@),
        )
    } else {
        None
    }
}

/// The shared state once a backend has been started: its format is known, and
/// where the start succeeded a new generation begins at `now_ns`.
pub open spec fn backend_opened(
    m: SharedModel,
    native: (u32, u16),
    succeeded: bool,
    now_ns: i64,
) -> SharedModel {
    if succeeded {
        SharedModel {
            native,
            generation: vstd::wrapping::u64_specs::wrapping_add(m.generation, 1),
            last_sample_ns: now_ns,
            ..m
        }
    } else {
        SharedModel { native, ..m }
    }
}

/// Compares two optional formats.
fn same_secondary(a: Option<OutputFormat>, b: Option<OutputFormat>) -> (r: bool)
    ensures
        r == (a == b),
{
    match (a, b) {
        (None, None) => true,
        (Some(x), Some(y)) => x.sample_rate == y.sample_rate && x.channels == y.channels,
        _ => false,
    }
}

/// The outcome of starting a backend, where `None` says that it panicked.
pub fn start_backend_catching(outcome: Option<Result<(), Error>>) -> (r: Result<(), Error>)
    ensures
        outcome matches Some(o) ==> r == o,
        outcome is None ==> (r matches Err(e) && e@ == ErrorView::Backend(
            "backend panicked during start()"@,
        )),
{
    match outcome {
        Some(r) => r,
        None => Err(Error::Backend("backend panicked during start()".to_owned())),
    }
}

impl Stream {
    /// The rings keep to their capacity, the outputs are supported, and there
    /// is a secondary ring for a secondary output.
    pub open spec fn wf(&self) -> bool {
        &&& self.shared.wf()
        &&& valid_gain(self.shared@.gain)
        &&& self.config.output.supported()
        &&& self.config.secondary_output matches Some(sec) ==> sec.supported()
        &&& self.shared@.secondary is Some <==> self.config.secondary_output is Some
    }

    /// Opens a stream on a backend with the given native format. Nothing is
    /// captured yet. `gain_text` is the gain of the configuration written out as
    /// a number, for the message where it is refused.
    pub fn open(config: StreamConfig, native_format: (u32, u16), gain_text: &str) -> (r: Result<
        Stream,
        Error,
    >)
        ensures
            r is Ok <==> open_error(config, native_format, gain_text@) is None,
            r matches Err(e) ==> Some(e@) == open_error(config, native_format, gain_text@),
            r matches Ok(s) ==> {
                &&& s.wf()
                &&& s.config == config
                &&& !s.started
                &&& s.shared@ == (SharedModel {
                    generation: 0,
                    last_sample_ns: 0,
                    stopping: false,
                    recovered_pending: false,
                    discontinuity_pending: false,
                    paused: false,
                    switching: false,
                    denoise: false,
                    native: native_format,
                    gain: config.gain_bits,
                    epoch: NO_EPOCH,
                    events: Seq::empty(),
                    chunks: RingModel::empty(config.ring_capacity_chunks as nat),
                    secondary: match config.secondary_output {
                        None => None,
                        Some(_) => Some(RingModel::empty(config.ring_capacity_chunks as nat)),
                    },
                    producer_taken: false,
                })
            },
    {
        if config.ring_capacity_chunks == 0 {
            return Err(Error::InvalidArg("ring_capacity_chunks must be > 0".to_owned()));
        }
        if !gain_is_valid(config.gain_bits) {
            return Err(refused_gain(gain_text));
        }
        match config.output.validate() {
            Ok(_) => {},
            Err(e) => {
                return Err(e);
            },
        }
        if let Some(sec) = config.secondary_output {
            match sec.validate() {
                Ok(_) => {},
                Err(e) => {
                    return Err(e);
                },
            }
        }
        if native_format.0 == 0 || native_format.1 == 0 {
            return Err(
                Error::InvalidArg(
                    "backend native_format must have non-zero rate and channels".to_owned(),
                ),
            );
        }
        let shared = SharedState::new(
            native_format,
            config.gain_bits,
            config.ring_capacity_chunks,
            config.secondary_output.is_some(),
        );
        Ok(Stream { config, shared, started: false })
    }

    /// Begins to start the stream. Nothing is to be done where it is started
    /// already; else a new recording begins. A pause that was asked for before
    /// the first recording stays in force; one from an earlier recording is over.
    pub fn start(&mut self) -> (step: StartStep)
        requires
            old(self).wf(),
        ensures
            final(self).wf(),
            old(self).started ==> (step matches StartStep::Done(r) && r is Ok),
            !old(self).started ==> step is StartBackend,
            final(self).config == old(self).config,
            final(self).started == old(self).started,
            final(self).shared@ == (if old(self).started {
                old(self).shared@
            } else {
                SharedModel {
                    stopping: false,
                    epoch: NO_EPOCH,
                    paused: old(self).shared@.paused && !old(self).shared@.producer_taken,
                    ..old(self).shared@
                }
            }),
    {
        if self.started {
            return StartStep::Done(Ok(()));
        }
        self.shared.stopping = false;
        self.shared.recording_epoch_ns = NO_EPOCH;
        if self.shared.producer_taken {
            self.shared.paused = false;
        }
        StartStep::StartBackend
    }

    /// Goes on once the backend has been started, or that has failed. An intake
    /// can be set up once in the life of a stream.
    pub fn backend_started(
        &mut self,
        native_format: (u32, u16),
        outcome: Result<(), Error>,
        now_ns: i64,
    ) -> (step: StartStep)
        requires
            old(self).wf(),
        ensures
            final(self).wf(),
            final(self).config == old(self).config,
            final(self).started == old(self).started,
            match outcome {
                Err(e) => {
                    &&& step == StartStep::Done(Err(e))
                    &&& final(self).shared@ == backend_opened(
                        old(self).shared@,
                        native_format,
                        false,
                        now_ns,
                    )
                },
                Ok(_) => {
                    &&& final(self).shared@ == (SharedModel {
                        producer_taken: true,
                        ..backend_opened(old(self).shared@, native_format, true, now_ns)
                    })
                    &&& old(self).shared@.producer_taken ==> (step matches StartStep::Done(Err(e))
                        && e@ == ErrorView::InvalidState("chunk producer already taken"@))
                    &&& !old(self).shared@.producer_taken ==> step == StartStep::SpawnIntake(
                        IntakeSetup {
                            native_format,
                            output: old(self).config.output,
                            secondary_output: old(self).config.secondary_output,
                        },
                    )
                },
            },
    {
        match Self::open_backend_once(&mut self.shared, native_format, outcome, now_ns) {
            Err(e) => StartStep::Done(Err(e)),
            Ok(_) => match self.take_producer() {
                Err(e) => StartStep::Done(Err(e)),
                Ok(setup) => StartStep::SpawnIntake(setup),
            },
        }
    }

    /// Notes the attempt to start the current backend, whose native format is
    /// given with the outcome and the time.
    pub fn open_backend_once(
        shared: &mut SharedState,
        native_format: (u32, u16),
        outcome: Result<(), Error>,
        now_ns: i64,
    ) -> (r: Result<(), Error>)
        requires
            old(shared).wf(),
        ensures
            final(shared).wf(),
            r == outcome,
            final(shared)@ == backend_opened(old(shared)@, native_format, outcome is Ok, now_ns),
    {
        shared.native_format = native_format;
        match outcome {
            Ok(done) => {
                shared.raw_generation = shared.raw_generation.wrapping_add(1);
                shared.last_sample_ns = now_ns;
                Ok(done)
            },
            Err(e) => Err(e),
        }
    }

    /// Sets the intake up. That can be done once in the life of a stream.
    fn take_producer(&mut self) -> (r: Result<IntakeSetup, Error>)
        requires
            old(self).wf(),
        ensures
            final(self).wf(),
            final(self).config == old(self).config,
            final(self).started == old(self).started,
            final(self).shared@ == (SharedModel { producer_taken: true, ..old(self).shared@ }),
            r is Ok <==> !old(self).shared@.producer_taken,
            r matches Err(e) ==> e@ == ErrorView::InvalidState("chunk producer already taken"@),
            r matches Ok(setup) ==> setup == (IntakeSetup {
                native_format: old(self).shared@.native,
                output: old(self).config.output,
                secondary_output: old(self).config.secondary_output,
            }),
    {
        if self.shared.producer_taken {
            return Err(Error::InvalidState("chunk producer already taken".to_owned()));
        }
        self.shared.producer_taken = true;
        Ok(
            IntakeSetup {
                native_format: self.shared.native_format,
                output: self.config.output,
                secondary_output: self.config.secondary_output,
            },
        )
    }

    /// Goes on once the intake has been spawned, or that has failed.
    pub fn intake_spawned(&self, outcome: Result<(), String>) -> (step: StartStep)
        ensures
            outcome is Ok ==> step is SpawnWatchdog,
            outcome matches Err(m) ==> (step matches StartStep::Done(Err(e)) && e@
                == ErrorView::Backend("spawn intake thread: "@ + m@)),
    {
        match outcome {
            Ok(_) => StartStep::SpawnWatchdog,
            Err(m) => StartStep::Done(
                Err(Error::Backend(join("spawn intake thread: ", m.as_str()))),
            ),
        }
    }

    /// Notes the outcome of spawning the watchdog, which completes the start.
    pub fn watchdog_spawned(&mut self, outcome: Result<(), String>) -> (step: StartStep)
        requires
            old(self).wf(),
        ensures
            final(self).wf(),
            final(self).config == old(self).config,
            final(self).shared@ == old(self).shared@,
            final(self).started == (old(self).started || outcome is Ok),
            outcome is Ok ==> (step matches StartStep::Done(r) && r is Ok),
            outcome matches Err(m) ==> (step matches StartStep::Done(Err(e)) && e@
                == ErrorView::Backend("spawn watchdog thread: "@ + m@)),
    {
        match outcome {
            Ok(_) => {
                self.started = true;
                StartStep::Done(Ok(()))
            },
            Err(m) => StartStep::Done(
                Err(Error::Backend(join("spawn watchdog thread: ", m.as_str()))),
            ),
        }
    }

    /// Tells all threads to end. The caller stops the backend and joins them.
    pub fn stop(&mut self)
        requires
            old(self).wf(),
        ensures
            final(self).wf(),
            final(self).config == old(self).config,
            !final(self).started,
            final(self).shared@ == old(self).shared@.with_stop(),
    {
        self.shared.stopping = true;
        self.started = false;
    }

    /// Stops the delivery of chunks. The capture goes on.
    pub fn pause(&mut self)
        requires
            old(self).wf(),
        ensures
            final(self).wf(),
            final(self).config == old(self).config,
            final(self).started == old(self).started,
            final(self).shared@ == old(self).shared@.with_pause(),
    {
        self.shared.paused = true;
    }

    /// Resumes the delivery of chunks after a pause; the next chunk is marked.
    /// Without a pause nothing happens.
    pub fn resume(&mut self)
        requires
            old(self).wf(),
        ensures
            final(self).wf(),
            final(self).config == old(self).config,
            final(self).started == old(self).started,
            final(self).shared@ == old(self).shared@.with_resume(),
    {
        if self.shared.paused {
            self.shared.paused = false;
            self.shared.discontinuity_pending = true;
        }
    }

    /// Whether the delivery is paused.
    pub fn is_paused(&self) -> (r: bool)
        ensures
            r == self.shared@.paused,
    {
        self.shared.paused
    }

    /// Changes the input gain, from the next finished chunk on. A gain that is
    /// not finite or below zero is refused and changes nothing; `gain_text` is
    /// the gain written out as a number, for the message.
    pub fn set_gain(&mut self, gain_bits: u32, gain_text: &str) -> (r: Result<(), Error>)
        requires
            old(self).wf(),
        ensures
            final(self).wf(),
            final(self).config == old(self).config,
            final(self).started == old(self).started,
            r is Ok <==> valid_gain(gain_bits),
            r matches Err(e) ==> e@ == gain_error(gain_text@),
            final(self).shared@ == (if valid_gain(gain_bits) {
                SharedModel { gain: gain_bits, ..old(self).shared@ }
            } else {
                old(self).shared@
            }),
    {
        if !gain_is_valid(gain_bits) {
            return Err(refused_gain(gain_text));
        }
        self.shared.gain_bits = gain_bits;
        Ok(())
    }

    /// The input gain.
    pub fn gain(&self) -> (r: u32)
        ensures
            r == self.shared@.gain,
    {
        self.shared.gain_bits
    }

    /// Takes the oldest finished chunk, if there is one.
    pub fn poll_chunk(&mut self) -> (r: Option<AudioChunk>)
        requires
            old(self).wf(),
        ensures
            final(self).wf(),
            final(self).config == old(self).config,
            final(self).started == old(self).started,
            old(self).shared@.chunks.items.len() == 0 ==> r is None && final(self).shared@ == old(
                self).shared@,
            old(self).shared@.chunks.items.len() > 0 ==> {
                &&& r matches Some(c)
                &&& c@ == old(self).shared@.chunks.items[0]
                &&& final(self).shared@ == (SharedModel {
                    chunks: old(self).shared@.chunks.popped(),
                    ..old(self).shared@
                })
            },
    {
        self.shared.take_chunk()
    }

    /// Takes the oldest finished chunk of the secondary output, if there is one.
    pub fn poll_secondary(&mut self) -> (r: Option<SecondaryChunk>)
        requires
            old(self).wf(),
        ensures
            final(self).wf(),
            final(self).config == old(self).config,
            final(self).started == old(self).started,
            !(old(self).shared@.secondary matches Some(m) && m.items.len() > 0) ==> r is None
                && final(self).shared@ == old(self).shared@,
            (old(self).shared@.secondary matches Some(m) && m.items.len() > 0) ==> {
                &&& r matches Some(c)
                &&& c@ == old(self).shared@.secondary->0.items[0]
                &&& final(self).shared@ == (SharedModel {
                    secondary: Some(old(self).shared@.secondary->0.popped()),
                    ..old(self).shared@
                })
            },
    {
        self.shared.take_secondary()
    }

    /// Asks for noise suppression from the next generation on.
    pub fn set_denoise(&mut self, enabled: bool)
        requires
            old(self).wf(),
        ensures
            final(self).wf(),
            final(self).config == old(self).config,
            final(self).started == old(self).started,
            final(self).shared@ == (SharedModel { denoise: enabled, ..old(self).shared@ }),
    {
        self.shared.denoise_enabled = enabled;
    }

    /// Takes the oldest event, if there is one.
    pub fn poll_event(&mut self) -> (r: Option<Event>)
        requires
            old(self).wf(),
        ensures
            final(self).wf(),
            final(self).config == old(self).config,
            final(self).started == old(self).started,
            old(self).shared@.events.len() == 0 ==> r is None && final(self).shared@ == old(
                self).shared@,
            old(self).shared@.events.len() > 0 ==> {
                &&& r matches Some(ev)
                &&& ev@ == old(self).shared@.events[0]
                &&& final(self).shared@ == (SharedModel {
                    events: old(self).shared@.events.skip(1),
                    ..old(self).shared@
                })
            },
    {
        self.shared.pop_event()
    }

    /// Chunks that the primary ring has given up so far.
    pub fn dropped_chunks(&self) -> (r: u64)
        ensures
            r == self.shared@.chunks.dropped,
    {
        self.shared.chunks.dropped_count()
    }

    /// How the stream is set up.
    pub fn config(&self) -> (r: &StreamConfig)
        ensures
            *r == self.config,
    {
        &self.config
    }

    /// Rate and channel count of the current backend.
    pub fn native_format(&self) -> (r: (u32, u16))
        ensures
            r == self.shared@.native,
    {
        self.shared.native_format
    }

    /// Begins to replace the backend. That needs a started stream; the
    /// watchdog then keeps still, and the caller stops the old backend and
    /// starts the new one.
    pub fn switch_backend(&mut self) -> (r: Result<(), Error>)
        requires
            old(self).wf(),
        ensures
            final(self).wf(),
            final(self).config == old(self).config,
            final(self).started == old(self).started,
            r is Ok <==> old(self).started,
            r matches Err(e) ==> e@ == ErrorView::InvalidState(
                "switch_backend は start 済みのストリームでのみ可能"@,
            ),
            final(self).shared@ == (if old(self).started {
                SharedModel { switching: true, ..old(self).shared@ }
            } else {
                old(self).shared@
            }),
    {
        if !self.started {
            return Err(
                Error::InvalidState("switch_backend は start 済みのストリームでのみ可能".to_owned()),
            );
        }
        self.shared.switching = true;
        Ok(())
    }

    /// Notes the attempt to start the new backend, whose native format is given
    /// with the outcome and the time. On success the new source begins a new
    /// generation, and its first chunk is marked.
    pub fn backend_switched(
        &mut self,
        native_format: (u32, u16),
        outcome: Result<(), Error>,
        now_ns: i64,
    ) -> (step: SwitchStep)
        requires
            old(self).wf(),
        ensures
            final(self).wf(),
            final(self).config == old(self).config,
            final(self).started == old(self).started,
            match outcome {
                Ok(_) => step is Switched && final(self).shared@ == (SharedModel {
                    discontinuity_pending: true,
                    switching: false,
                    ..backend_opened(old(self).shared@, native_format, true, now_ns)
                }),
                Err(e) => step == SwitchStep::Restore(e) && final(self).shared@ == old(
                    self).shared@,
            },
    {
        match outcome {
            Ok(_) => {
                self.shared.native_format = native_format;
                self.shared.discontinuity_pending = true;
                self.shared.last_sample_ns = now_ns;
                self.shared.raw_generation = self.shared.raw_generation.wrapping_add(1);
                self.shared.switching = false;
                SwitchStep::Switched
            },
            Err(e) => SwitchStep::Restore(e),
        }
    }

    /// Notes the attempt to start the old backend again after the new one
    /// failed with `failure`, which is the result of the switch.
    pub fn source_restored(
        &mut self,
        native_format: (u32, u16),
        outcome: Result<(), Error>,
        now_ns: i64,
        failure: Error,
    ) -> (r: Result<(), Error>)
        requires
            old(self).wf(),
        ensures
            final(self).wf(),
            final(self).config == old(self).config,
            final(self).started == old(self).started,
            r == Result::<(), Error>::Err(failure),
            final(self).shared@ == (SharedModel {
                discontinuity_pending: true,
                switching: false,
                ..backend_opened(old(self).shared@, native_format, outcome is Ok, now_ns)
            }),
    {
        let _ = Self::open_backend_once(&mut self.shared, native_format, outcome, now_ns);
        self.shared.discontinuity_pending = true;
        self.shared.switching = false;
        Err(failure)
    }

    /// Decides whether the source may be switched to another configuration:
    /// the stream has to be started, and the outputs have to stay.
    pub fn switch_source(&self, new_config: &StreamConfig) -> (r: Result<(), Error>)
        requires
            self.wf(),
        ensures
            r is Ok <==> switch_error(*self, *new_config) is None,
            r matches Err(e) ==> Some(e@) == switch_error(*self, *new_config),
    {
        if !self.started {
            return Err(
                Error::InvalidState("switch_source は start 済みのストリームでのみ可能".to_owned()),
            );
        }
        if new_config.output.sample_rate != self.config.output.sample_rate
            || new_config.output.channels != self.config.output.channels {
            return Err(
                Error::InvalidArg("output format cannot change during switch_source".to_owned()),
            );
        }
        if !same_secondary(new_config.secondary_output, self.config.secondary_output) {
            return Err(
                Error::InvalidArg(
                    "secondary output format cannot change during switch_source".to_owned(),
                ),
            );
        }
        Ok(())
    }

    /// Takes over the kind, the device, the process and how it is selected once
    /// the source has been switched. Everything else stays: the outputs, the
    /// chunk duration, the ring capacity, the gain and the muting.
    pub fn source_switched(&mut self, new_config: StreamConfig)
        requires
            old(self).wf(),
        ensures
            final(self).wf(),
            final(self).started == old(self).started,
            final(self).shared@ == old(self).shared@,
            final(self).config == (StreamConfig {
                kind: new_config.kind,
                device_id: new_config.device_id,
                target_pid: new_config.target_pid,
                mode: new_config.mode,
                exclude_self: new_config.exclude_self,
                ..old(self).config
            }),
    {
        self.config.kind = new_config.kind;
        self.config.device_id = new_config.device_id;
        self.config.target_pid = new_config.target_pid;
        self.config.mode = new_config.mode;
        self.config.exclude_self = new_config.exclude_self;
    }
}

/// A backend that has been opened begins a generation that differs from the one
/// before, so the intake notices it; its samples count as arrived just now.
pub proof fn law_opening_begins_a_generation(m: SharedModel, native: (u32, u16), now_ns: i64)
    ensures
        backend_opened(m, native, true, now_ns).generation != m.generation,
        backend_opened(m, native, true, now_ns).last_sample_ns == now_ns,
        backend_opened(m, native, true, now_ns).native == native,
        backend_opened(m, native, false, now_ns).generation == m.generation,
{
}

/// Opening a backend leaves alone what belongs to the owner: the gain, the
/// rings, the pause, the events and the recording clock.
pub proof fn law_opening_keeps_the_rest(
    m: SharedModel,
    native: (u32, u16),
    succeeded: bool,
    now_ns: i64,
)
    ensures
        ({
            let n = backend_opened(m, native, succeeded, now_ns);
            &&& n.gain == m.gain
            &&& n.chunks == m.chunks
            &&& n.secondary == m.secondary
            &&& n.paused == m.paused
            &&& n.events == m.events
            &&& n.epoch == m.epoch
        }),
{
}

/// A stream that is not started, or not any more, refuses to switch its source.
pub proof fn law_no_switch_without_start(s: Stream, config: StreamConfig)
    requires
        !s.started,
    ensures
        switch_error(s, config) is Some,
        switch_error(s, config)->0 is InvalidState,
{
}

/// Whether an output has one or two channels and between 8 and 192 kHz.
pub open spec fn is_common(f: OutputFormat) -> bool {
    8_000 <= f.sample_rate <= 192_000 && 1 <= f.channels <= 2
}

/// A stream can be opened exactly with a ring that holds a chunk, a gain that is
/// finite and not below zero, outputs that are supported, and a backend that has
/// a rate and channels. A gain that is refused is named.
pub proof fn law_open_accepts(config: StreamConfig, native: (u32, u16), gain_text: Seq<char>)
    ensures
        open_error(config, native, gain_text) is None <==> {
            &&& config.ring_capacity_chunks > 0
            &&& config.gain_bits < 0x7f80_0000 || config.gain_bits == 0x8000_0000
            &&& is_common(config.output)
            &&& config.secondary_output matches Some(f) ==> is_common(f)
            &&& native.0 > 0
            &&& native.1 > 0
        },
        config.ring_capacity_chunks > 0 && !(config.gain_bits < 0x7f80_0000 || config.gain_bits
            == 0x8000_0000) ==> open_error(config, native, gain_text) == Some(
            ErrorView::InvalidArg("gain must be finite and >= 0.0, got "@ + gain_text),
        ),
        config.ring_capacity_chunks > 0 && (config.gain_bits < 0x7f80_0000 || config.gain_bits
            == 0x8000_0000) ==> {
            let e = open_error(config, native, gain_text);
            let common = is_common(config.output) && (config.secondary_output matches Some(f)
                ==> is_common(f));
            &&& !common ==> e is Some && e->0 is UnsupportedFormat
            &&& common && (native.0 == 0 || native.1 == 0) ==> e is Some && e->0 is InvalidArg
        },
        config.ring_capacity_chunks == 0 ==> open_error(config, native, gain_text) is Some
            && open_error(config, native, gain_text)->0 is InvalidArg,
{
}

/// A source can be switched exactly on a started stream and where both outputs
/// stay as they are; another output is an invalid argument.
pub proof fn law_switch_accepts(s: Stream, config: StreamConfig)
    ensures
        switch_error(s, config) is None <==> {
            &&& s.started
            &&& config.output == s.config.output
            &&& config.secondary_output == s.config.secondary_output
        },
        s.started && switch_error(s, config) is Some ==> switch_error(s, config)->0 is InvalidArg,
{
}

/// A backend that has been opened is noted with its format; where that
/// succeeded its samples begin the next generation now. Nothing else changes.
pub proof fn law_opening_is_noted(m: SharedModel, native: (u32, u16), now_ns: i64)
    ensures
        backend_opened(m, native, false, now_ns) == (SharedModel { native, ..m }),
        m.generation < u64::MAX ==> backend_opened(m, native, true, now_ns) == (SharedModel {
            native,
            generation: (m.generation + 1) as u64,
            last_sample_ns: now_ns,
            ..m
        }),
{
}

} // verus!
