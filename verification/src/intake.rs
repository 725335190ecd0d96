//! The loop between the raw ring and the chunk rings.
//!
//! A round takes what the device has delivered, normalizes it, and delivers the
//! finished chunks of both outputs: numbered, on the recording clock, metered
//! and marked where the audio does not continue. [`Intake::tick`] begins a
//! round; each [`IntakeStep`] says what the caller does next and which function
//! takes the outcome.
//!
//! The transitions of [`Joint`] are opaque to the solver: reveal the ones that a
//! proof computes with.

use vstd::prelude::*;

use crate::arith::{count_up, later, saturate_count};
use crate::normalizer::{
    outcome_of, Normalizer, NormalizerModel, Outcome, Step, StepModel, Unit,
};
use crate::resampler::ResamplerPlan;
use crate::sample::{limit, limited, peak, peak_of, UNITY};
use crate::shared::{apply_epoch, recording_time, SharedModel, SharedState};
use crate::stream::IntakeSetup;
use crate::tap::{channels_of, countable, TapModel};
use crate::types::{
    join, AudioChunk, ChunkFlags, ChunkView, Error, ErrorView, Event, EventView, OutputFormat,
    SecondaryChunk, DEFAULT_CHUNK_MS,
};

verus! {

/// What an intake needs from the caller.
#[derive(Debug)]
pub enum IntakeStep {
    /// Build the rate conversions that [`Intake::plan`] asks for, and the
    /// processor where there is one; answer with [`Intake::built`].
    Build,
    /// Take all samples out of the raw ring; answer with [`Intake::popped`].
    Pop,
    /// A step of the normalizer; answer with [`Intake::normalized`].
    Normalize(Step),
    /// Multiply each sample by the gain; answer with [`Intake::scaled`].
    Scale { samples: Vec<u32>, gain: u32 },
    /// Compute the root mean square; answer with [`Intake::measured`].
    Measure { samples: Vec<u32> },
    /// The round is over and moved nothing: sleep, then [`Intake::tick`].
    Sleep,
    /// The round is over: [`Intake::tick`].
    Again,
    /// The intake is over.
    Exit,
}

/// The mathematical content of an [`IntakeStep`].
#[verifier::ext_equal]
pub enum IntakeStepModel {
    Build,
    Pop,
    Normalize(StepModel),
    Scale { samples: Seq<u32>, gain: u32 },
    Measure { samples: Seq<u32> },
    Sleep,
    Again,
    Exit,
}

impl View for IntakeStep {
    type V = IntakeStepModel;

    open spec fn view(&self) -> IntakeStepModel {
        match self {
            IntakeStep::Build => IntakeStepModel::Build,
            IntakeStep::Pop => IntakeStepModel::Pop,
            IntakeStep::Normalize(step) => IntakeStepModel::Normalize(step@),
            IntakeStep::Scale { samples, gain } => IntakeStepModel::Scale {
                samples: samples@,
                gain: *gain,
            },
            IntakeStep::Measure { samples } => IntakeStepModel::Measure { samples: samples@ },
            IntakeStep::Sleep => IntakeStepModel::Sleep,
            IntakeStep::Again => IntakeStepModel::Again,
            IntakeStep::Exit => IntakeStepModel::Exit,
        }
    }
}

/// Where an intake stands.
#[derive(Clone, Copy, Debug, PartialEq, Eq, Structural)]
pub enum IntakePhase {
    /// The first normalizer is being built.
    Init,
    /// Between two rounds.
    Idle,
    /// A normalizer for a new generation is being built.
    Rebuild,
    /// The raw ring is being emptied.
    Pop,
    /// The normalizer takes samples in.
    Push,
    /// The normalizer is being flushed.
    Flush,
    /// A primary chunk is being multiplied.
    ScalePrimary,
    /// A primary chunk is being metered.
    MeasurePrimary,
    /// A secondary chunk is being multiplied.
    ScaleSecondary,
    /// A secondary chunk is being metered.
    MeasureSecondary,
    /// The intake has ended.
    Over,
}

/// What the chunks of one output carry on from chunk to chunk.
#[derive(Clone, Copy, Debug, PartialEq, Eq, Structural)]
pub struct Lane {
    /// Number of the next chunk.
    pub seq: u64,
    /// The next chunk comes after a recovery.
    pub recovered: bool,
    /// The next chunk does not continue the one before.
    pub discontinuity: bool,
    /// Time of the last chunk on the recording clock.
    pub last_pts_ns: i64,
}

impl Lane {
    /// Before the first chunk.
    pub open spec fn fresh() -> Self {
        Lane { seq: 0, recovered: false, discontinuity: false, last_pts_ns: 0 }
    }

    /// With further marks for the next chunk.
    pub open spec fn marked(self, recovered: bool, discontinuity: bool) -> Self {
        Lane {
            recovered: self.recovered || recovered,
            discontinuity: self.discontinuity || discontinuity,
            ..self
        }
    }

    /// The flags of the next chunk: a recovery is a discontinuity, too.
    pub open spec fn flags(self) -> ChunkFlags {
        ChunkFlags {
            discontinuity: self.recovered || self.discontinuity,
            recovered: self.recovered,
        }
    }

    /// After a chunk at the time `pts_ns`, which never goes back.
    pub open spec fn timed(self, pts_ns: i64) -> Self {
        Lane { last_pts_ns: later(pts_ns, self.last_pts_ns), ..self }
    }

    /// After a chunk has been delivered with its number and its marks.
    pub open spec fn sent(self) -> Self {
        Lane {
            seq: saturate_count(self.seq + 1),
            recovered: false,
            discontinuity: false,
            ..self
        }
    }

    /// The chunk of these samples.
    pub open spec fn chunk(self, data: Seq<u32>, channels: int, rms: u32) -> ChunkView {
        ChunkView {
            data,
            frames: data.len() as int / channels,
            pts_ns: self.last_pts_ns,
            seq: self.seq,
            flags: self.flags(),
            dropped_before: 0,
            peak: peak_of(data),
            rms,
        }
    }

    fn mark(&mut self, recovered: bool, discontinuity: bool)
        ensures
            *final(self) == old(self).marked(recovered, discontinuity),
    {
        if recovered {
            self.recovered = true;
        }
        if discontinuity {
            self.discontinuity = true;
        }
    }

    fn advance_clock(&mut self, pts_ns: i64)
        ensures
            *final(self) == old(self).timed(pts_ns),
    {
        if pts_ns > self.last_pts_ns {
            self.last_pts_ns = pts_ns;
        }
    }

    fn next_flags(&self) -> (r: ChunkFlags)
        ensures
            r == self.flags(),
    {
        let mut flags = ChunkFlags::empty();
        if self.recovered {
            flags.recovered = true;
            flags.discontinuity = true;
        }
        if self.discontinuity {
            flags.discontinuity = true;
        }
        flags
    }

    fn complete(&mut self)
        ensures
            *final(self) == old(self).sent(),
    {
        self.recovered = false;
        self.discontinuity = false;
        self.seq = count_up(self.seq, 1);
    }
}

/// The normalizer of a generation.
pub open spec fn normalizer_for(
    native: (u32, u16),
    output: OutputFormat,
    secondary_output: Option<OutputFormat>,
    denoise: bool,
) -> NormalizerModel {
    NormalizerModel {
        secondary: match secondary_output {
            None => None,
            Some(sec) => Some(TapModel::fresh(sec, DEFAULT_CHUNK_MS)),
        },
        processor: denoise,
        ..NormalizerModel::fresh(native.0, native.1, output, DEFAULT_CHUNK_MS)
    }
}

/// Contents of an [`Intake`].
#[verifier::ext_equal]
pub struct IntakeModel {
    pub output: OutputFormat,
    pub secondary_output: Option<OutputFormat>,
    pub normalizer: NormalizerModel,
    /// Generation that the normalizer was built for.
    pub generation: u64,
    /// Samples that the raw ring had lost at the last look.
    pub overflow: u64,
    pub primary: Lane,
    pub secondary: Lane,
    /// The running round is the last one.
    pub stopping: bool,
    /// The running round has taken samples in.
    pub produced: bool,
    /// The running round has delivered chunks.
    pub emitted: bool,
    pub phase: IntakePhase,
    /// Samples of the chunk in work.
    pub data: Seq<u32>,
    /// Device time of the chunk in work.
    pub raw_pts_ns: i64,
    /// Gain for the chunk in work.
    pub gain: u32,
}

impl IntakeModel {
    /// An intake whose first normalizer is still to be built.
    pub open spec fn fresh(setup: IntakeSetup, shared: SharedModel) -> Self {
        IntakeModel {
            output: setup.output,
            secondary_output: setup.secondary_output,
            normalizer: normalizer_for(
                setup.native_format,
                setup.output,
                setup.secondary_output,
                shared.denoise,
            ),
            generation: shared.generation,
            overflow: 0,
            primary: Lane::fresh(),
            secondary: Lane::fresh(),
            stopping: false,
            produced: true,
            emitted: false,
            phase: IntakePhase::Init,
            data: Seq::empty(),
            raw_pts_ns: 0,
            gain: UNITY,
        }
    }

    /// The parts fit together.
    pub open spec fn parts_wf(self) -> bool {
        &&& self.output.supported()
        &&& self.secondary_output matches Some(sec) ==> sec.supported()
        &&& self.normalizer.wf()
        &&& self.normalizer.primary.format == self.output
        &&& self.normalizer.secondary is Some <==> self.secondary_output is Some
        &&& self.normalizer.secondary matches Some(t) ==> t.format == self.secondary_output->0
        &&& self.primary.last_pts_ns >= 0
        &&& self.secondary.last_pts_ns >= 0
    }

    /// The parts fit together, and the phase fits them.
    pub open spec fn wf(self) -> bool {
        &&& self.parts_wf()
        &&& (self.phase is Push || self.phase is Flush) <==> !(self.normalizer.phase is Idle)
            && !(self.phase is Over)
        &&& self.phase is ScaleSecondary ==> self.secondary_output is Some
        &&& self.phase is MeasureSecondary ==> self.secondary_output is Some
    }

    /// What the intake needs next.
    pub open spec fn step(self) -> IntakeStepModel {
        match self.phase {
            IntakePhase::Init => IntakeStepModel::Build,
            IntakePhase::Rebuild => IntakeStepModel::Build,
            IntakePhase::Idle => if self.produced || self.emitted {
                IntakeStepModel::Again
            } else {
                IntakeStepModel::Sleep
            },
            IntakePhase::Pop => IntakeStepModel::Pop,
            IntakePhase::Push => IntakeStepModel::Normalize(self.normalizer.step()),
            IntakePhase::Flush => IntakeStepModel::Normalize(self.normalizer.step()),
            IntakePhase::ScalePrimary => IntakeStepModel::Scale {
                samples: self.data,
                gain: self.gain,
            },
            IntakePhase::ScaleSecondary => IntakeStepModel::Scale {
                samples: self.data,
                gain: self.gain,
            },
            IntakePhase::MeasurePrimary => IntakeStepModel::Measure { samples: self.data },
            IntakePhase::MeasureSecondary => IntakeStepModel::Measure { samples: self.data },
            IntakePhase::Over => IntakeStepModel::Exit,
        }
    }

    /// Both outputs with further marks.
    pub open spec fn marked(self, recovered: bool, discontinuity: bool) -> Self {
        IntakeModel {
            primary: self.primary.marked(recovered, discontinuity),
            secondary: self.secondary.marked(recovered, discontinuity),
            ..self
        }
    }

    /// With the count of lost samples looked at: a new loss breaks both
    /// outputs.
    pub open spec fn overflowed(self, count: Option<u64>) -> Self {
        match count {
            None => self,
            Some(n) => IntakeModel { overflow: n, ..self.marked(false, n > self.overflow) },
        }
    }

    /// The multiplied samples are limited, and metered next.
    pub open spec fn scaled(self, product: Seq<u32>) -> Self {
        IntakeModel {
            data: product.map_values(|x: u32| limited(x)),
            phase: if self.phase is ScalePrimary {
                IntakePhase::MeasurePrimary
            } else {
                IntakePhase::MeasureSecondary
            },
            ..self
        }
    }
}

/// An intake and what it shares.
#[verifier::ext_equal]
pub struct Joint {
    pub intake: IntakeModel,
    pub shared: SharedModel,
}

/// Both together.
pub open spec fn joint(intake: IntakeModel, shared: SharedModel) -> Joint {
    Joint { intake, shared }
}

impl Joint {
    /// The intake ends with an event.
    pub open spec fn died(self, text: Seq<char>) -> Self {
        Joint {
            intake: IntakeModel { phase: IntakePhase::Over, ..self.intake },
            shared: self.shared.reported(EventView::Error(text)),
        }
    }

    /// The conversions and the processor have been built, or that failed.
    pub open spec fn built(self, failure: Option<ErrorView>) -> Self {
        match failure {
            Some(e) => self.died(
                if self.intake.phase is Init {
                    "normalizer init failed: "@ + e.text()
                } else {
                    "normalizer rebuild failed after source change: "@ + e.text()
                },
            ),
            None => if self.intake.phase is Init {
                Joint {
                    intake: IntakeModel {
                        generation: self.shared.generation,
                        phase: IntakePhase::Idle,
                        ..self.intake
                    },
                    ..self
                }
            } else {
                Joint { intake: IntakeModel { overflow: 0, ..self.intake }, ..self }.collected()
            },
        }
    }

    /// A round begins. A new generation needs a new normalizer first.
    pub open spec fn ticked(self) -> Self {
        let intake = IntakeModel { stopping: self.shared.stopping, ..self.intake };
        if self.shared.generation != self.intake.generation {
            Joint {
                intake: IntakeModel {
                    generation: self.shared.generation,
                    normalizer: normalizer_for(
                        self.shared.native,
                        self.intake.output,
                        self.intake.secondary_output,
                        self.shared.denoise,
                    ),
                    phase: IntakePhase::Rebuild,
                    ..intake
                },
                ..self
            }
        } else {
            Joint { intake, ..self }.collected()
        }
    }

    /// The shared marks go to both outputs, and the raw ring comes next.
    pub open spec fn collected(self) -> Self {
        let j = self.marks_collected();
        Joint {
            intake: IntakeModel {
                produced: false,
                emitted: false,
                phase: IntakePhase::Pop,
                ..j.intake
            },
            ..j
        }
    }

    /// The raw ring has given these samples, whose first frame has the device
    /// time `pts_ns`, and has lost `overflow` samples so far.
    #[verifier::opaque]
    pub open spec fn popped(
        self,
        samples: Seq<u32>,
        overflow: Option<u64>,
        pts_ns: i64,
        now_ns: i64,
    ) -> Self {
        let j = Joint { intake: self.intake.overflowed(overflow), ..self };
        if samples.len() == 0 {
            j.taken_in(now_ns)
        } else {
            Joint {
                intake: IntakeModel {
                    normalizer: j.intake.normalizer.pushed(samples, pts_ns),
                    ..j.intake
                },
                ..j
            }.pushing(now_ns)
        }
    }

    /// The normalizer goes on taking samples in, or is over with it.
    #[verifier::opaque]
    pub open spec fn pushing(self, now_ns: i64) -> Self {
        if !(self.intake.normalizer.phase is Idle) {
            Joint { intake: IntakeModel { phase: IntakePhase::Push, ..self.intake }, ..self }
        } else {
            match self.intake.normalizer.failure {
                Some(e) => self.died("normalizer push failed: "@ + e.text()),
                None => Joint {
                    intake: IntakeModel { produced: true, ..self.intake },
                    shared: SharedModel { last_sample_ns: now_ns, ..self.shared },
                }.taken_in(now_ns),
            }
        }
    }

    /// All samples are in; the last round flushes.
    #[verifier::opaque]
    pub open spec fn taken_in(self, now_ns: i64) -> Self {
        if self.intake.stopping {
            Joint {
                intake: IntakeModel { normalizer: self.intake.normalizer.flushed(), ..self.intake },
                ..self
            }.flushing(now_ns)
        } else {
            self.next_primary(now_ns)
        }
    }

    /// The normalizer goes on being flushed, or is over with it.
    #[verifier::opaque]
    pub open spec fn flushing(self, now_ns: i64) -> Self {
        if !(self.intake.normalizer.phase is Idle) {
            Joint { intake: IntakeModel { phase: IntakePhase::Flush, ..self.intake }, ..self }
        } else {
            self.next_primary(now_ns)
        }
    }

    /// The normalizer goes on with the answer to its step.
    #[verifier::opaque]
    pub open spec fn normalized(self, outcome: Outcome, now_ns: i64) -> Self {
        let j = Joint {
            intake: IntakeModel {
                normalizer: self.intake.normalizer.advanced(outcome),
                ..self.intake
            },
            ..self
        };
        if self.intake.phase is Push {
            j.pushing(now_ns)
        } else {
            j.flushing(now_ns)
        }
    }

    /// The next primary chunk, with the gain that is in force now, or the
    /// secondary ones. While the stream is paused all finished chunks are thrown
    /// away.
    #[verifier::opaque]
    pub open spec fn next_primary(self, now_ns: i64) -> Self {
        let tap = self.intake.normalizer.primary;
        if !tap.has_chunk() {
            self.next_secondary(now_ns)
        } else if self.shared.paused {
            Joint {
                intake: IntakeModel {
                    normalizer: NormalizerModel {
                        primary: tap.discarded(),
                        ..self.intake.normalizer
                    },
                    ..self.intake
                },
                ..self
            }.next_secondary(now_ns)
        } else {
            Joint {
                intake: IntakeModel {
                    normalizer: NormalizerModel {
                        primary: tap.popped(),
                        ..self.intake.normalizer
                    },
                    data: tap.chunk(),
                    raw_pts_ns: tap.pts_at(tap.origin, now_ns),
                    gain: self.shared.gain,
                    phase: if self.shared.gain != UNITY {
                        IntakePhase::ScalePrimary
                    } else {
                        IntakePhase::MeasurePrimary
                    },
                    ..self.intake
                },
                ..self
            }
        }
    }

    /// The next secondary chunk, or the end of the round.
    #[verifier::opaque]
    pub open spec fn next_secondary(self, now_ns: i64) -> Self {
        match self.intake.normalizer.secondary {
            None => self.round_over(),
            Some(tap) => if !tap.has_chunk() {
                self.round_over()
            } else if self.shared.paused {
                Joint {
                    intake: IntakeModel {
                        normalizer: NormalizerModel {
                            secondary: Some(tap.discarded()),
                            ..self.intake.normalizer
                        },
                        ..self.intake
                    },
                    ..self
                }.round_over()
            } else {
                Joint {
                    intake: IntakeModel {
                        normalizer: NormalizerModel {
                            secondary: Some(tap.popped()),
                            ..self.intake.normalizer
                        },
                        data: tap.chunk(),
                        raw_pts_ns: tap.pts_at(tap.origin, now_ns),
                        gain: self.shared.gain,
                        phase: if self.shared.gain != UNITY {
                            IntakePhase::ScaleSecondary
                        } else {
                            IntakePhase::MeasureSecondary
                        },
                        ..self.intake
                    },
                    ..self
                }
            },
        }
    }

    /// The chunk in work with the marks of its output.
    pub open spec fn chunk(self, rms: u32) -> ChunkView {
        if self.intake.phase is MeasurePrimary {
            self.intake.primary.chunk(self.intake.data, channels_of(self.intake.output), rms)
        } else {
            self.intake.secondary.chunk(
                self.intake.data,
                channels_of(self.intake.secondary_output->0),
                rms,
            )
        }
    }

    /// The shared marks go to both outputs.
    pub open spec fn marks_collected(self) -> Self {
        Joint {
            intake: self.intake.marked(
                self.shared.recovered_pending,
                self.shared.discontinuity_pending,
            ),
            shared: SharedModel {
                recovered_pending: false,
                discontinuity_pending: false,
                ..self.shared
            },
        }
    }

    /// The shared marks go to both outputs, unless they belong to a generation
    /// that the intake has not begun.
    pub open spec fn marks_taken(self) -> Self {
        if self.shared.generation == self.intake.generation {
            self.marks_collected()
        } else {
            self
        }
    }

    /// The chunk in work takes its time on the recording clock, which the first
    /// primary chunk starts and every other chunk only reads.
    pub open spec fn timed(self) -> Self {
        let pts_ns = self.shared.on_clock(self.intake.raw_pts_ns);
        if self.intake.phase is MeasurePrimary {
            Joint {
                intake: IntakeModel {
                    primary: self.intake.primary.timed(pts_ns),
                    ..self.intake
                },
                shared: self.shared.epoch_applied(self.intake.raw_pts_ns),
            }
        } else {
            Joint {
                intake: IntakeModel {
                    secondary: self.intake.secondary.timed(pts_ns),
                    ..self.intake
                },
                ..self
            }
        }
    }

    /// The chunk in work as it is delivered: with all marks up to now, and on
    /// the recording clock.
    pub open spec fn delivered_chunk(self, rms: u32) -> ChunkView {
        self.marks_taken().timed().chunk(rms)
    }

    /// The chunk in work is delivered, or thrown away where the stream has been
    /// paused meanwhile.
    pub open spec fn cleared(self, rms: u32) -> Self {
        if self.shared.paused {
            Joint { intake: IntakeModel { data: Seq::empty(), ..self.intake }, ..self }
        } else {
            let j = self.marks_taken().timed();
            if self.intake.phase is MeasurePrimary {
                Joint {
                    intake: IntakeModel {
                        primary: j.intake.primary.sent(),
                        emitted: true,
                        data: Seq::empty(),
                        ..j.intake
                    },
                    shared: j.shared.delivered(j.chunk(rms)),
                }
            } else {
                Joint {
                    intake: IntakeModel {
                        secondary: j.intake.secondary.sent(),
                        emitted: true,
                        data: Seq::empty(),
                        ..j.intake
                    },
                    shared: j.shared.secondary_delivered(j.chunk(rms)),
                }
            }
        }
    }

    /// The chunk in work has been metered; the next one follows.
    #[verifier::opaque]
    pub open spec fn measured(self, rms: u32, now_ns: i64) -> Self {
        if self.intake.phase is MeasurePrimary {
            self.cleared(rms).next_primary(now_ns)
        } else {
            self.cleared(rms).next_secondary(now_ns)
        }
    }

    /// The round is over; the last round ends the intake.
    pub open spec fn round_over(self) -> Self {
        Joint {
            intake: IntakeModel {
                phase: if self.intake.stopping {
                    IntakePhase::Over
                } else {
                    IntakePhase::Idle
                },
                ..self.intake
            },
            ..self
        }
    }
}

/// Turns device samples into delivered chunks.
#[derive(Debug)]
pub struct Intake {
    output: OutputFormat,
    secondary_output: Option<OutputFormat>,
    normalizer: Normalizer,
    current_generation: u64,
    overflow_baseline: u64,
    primary: Lane,
    secondary: Lane,
    stopping: bool,
    produced_any: bool,
    emitted_any: bool,
    phase: IntakePhase,
    data: Vec<u32>,
    raw_pts_ns: i64,
    gain: u32,
}

impl View for Intake {
    type V = IntakeModel;

    closed spec fn view(&self) -> IntakeModel {
        IntakeModel {
            output: self.output,
            secondary_output: self.secondary_output,
            normalizer: self.normalizer@,
            generation: self.current_generation,
            overflow: self.overflow_baseline,
            primary: self.primary,
            secondary: self.secondary,
            stopping: self.stopping,
            produced: self.produced_any,
            emitted: self.emitted_any,
            phase: self.phase,
            data: self.data@,
            raw_pts_ns: self.raw_pts_ns,
            gain: self.gain,
        }
    }
}

/// Chunks and blocks of a supported format can be counted at the default
/// duration.
pub proof fn lemma_supported_is_countable(format: OutputFormat)
    requires
        format.supported(),
    ensures
        countable(format, DEFAULT_CHUNK_MS),
{
}

/// The normalizer for a backend of the given native format: primary output,
/// secondary output where there is one, and processor where noise suppression
/// is wanted.
pub fn build_normalizer(
    shared: &SharedState,
    native_format: (u32, u16),
    output: OutputFormat,
    secondary_output: Option<OutputFormat>,
) -> (r: Result<Normalizer, Error>)
    requires
        countable(output, DEFAULT_CHUNK_MS),
        secondary_output matches Some(sec) ==> countable(sec, DEFAULT_CHUNK_MS),
    ensures
        r is Ok <==> output.sample_rate > 0 && (secondary_output matches Some(sec)
            ==> sec.sample_rate > 0),
        r matches Ok(n) ==> n.wf() && n@ == normalizer_for(
            native_format,
            output,
            secondary_output,
            shared@.denoise,
        ),
        r matches Err(e) ==> e@ == crate::normalizer::no_rate_error(),
{
    let mut n = match Normalizer::new(native_format.0, native_format.1, output) {
        Ok(n) => n,
        Err(e) => {
            return Err(e);
        },
    };
    if let Some(sec) = secondary_output {
        n = match n.with_secondary(sec) {
            Ok(n) => n,
            Err(e) => {
                return Err(e);
            },
        };
    }
    if shared.denoise_enabled() {
        n = n.with_inner_processor();
    }
    Ok(n)
}

impl Intake {
    spec fn parts_wf(&self) -> bool {
        self.normalizer.wf() && self@.parts_wf()
    }

    /// The parts fit together, and the phase fits them.
    pub closed spec fn wf(&self) -> bool {
        self.normalizer.wf() && self@.wf()
    }

    /// A well-formed intake has a well-formed model.
    pub proof fn lemma_wf(&self)
        requires
            self.wf(),
        ensures
            self@.wf(),
    {
    }

    /// An intake for the given outputs, whose first normalizer is still to be
    /// built.
    pub fn new(shared: &SharedState, setup: IntakeSetup) -> (r: Self)
        requires
            setup.output.supported(),
            setup.secondary_output matches Some(sec) ==> sec.supported(),
        ensures
            r.wf(),
            r@ == IntakeModel::fresh(setup, shared@),
            r@.step() is Build,
    {
        proof {
            lemma_supported_is_countable(setup.output);
            if let Some(sec) = setup.secondary_output {
                lemma_supported_is_countable(sec);
            }
        }
        let normalizer = build_normalizer(
            shared,
            setup.native_format,
            setup.output,
            setup.secondary_output,
        ).unwrap();
        proof {
            normalizer.lemma_wf();
        }
        let primary = Lane { seq: 0, recovered: false, discontinuity: false, last_pts_ns: 0 };
        let secondary = Lane { seq: 0, recovered: false, discontinuity: false, last_pts_ns: 0 };
        Intake {
            output: setup.output,
            secondary_output: setup.secondary_output,
            normalizer,
            current_generation: shared.raw_generation,
            overflow_baseline: 0,
            primary,
            secondary,
            stopping: false,
            produced_any: true,
            emitted_any: false,
            phase: IntakePhase::Init,
            data: Vec::new(),
            raw_pts_ns: 0,
            gain: UNITY,
        }
    }

    /// What the conversion of a unit has to be built for, if there is one.
    pub fn plan(&self, unit: Unit) -> (r: Option<ResamplerPlan>)
        ensures
            r == self@.normalizer.plan_of(unit),
    {
        self.normalizer.plan(unit)
    }

    /// Whether a processor has to be built.
    pub fn has_processor(&self) -> (r: bool)
        ensures
            r == self@.normalizer.processor,
    {
        self.normalizer.has_inner_processor()
    }

    /// Takes the outcome of [`IntakeStep::Build`].
    pub fn built(&mut self, shared: &mut SharedState, outcome: Result<(), Error>) -> (step:
        IntakeStep)
        requires
            old(self).wf(),
            old(shared).wf(),
            old(self)@.phase is Init || old(self)@.phase is Rebuild,
        ensures
            final(self).wf(),
            final(shared).wf(),
            joint(final(self)@, final(shared)@) == joint(old(self)@, old(shared)@).built(
                match outcome {
                    Ok(_) => None,
                    Err(e) => Some(e@),
                },
            ),
            step@ == final(self)@.step(),
    {
        let init = match self.phase {
            IntakePhase::Init => true,
            _ => false,
        };
        match outcome {
            Ok(_) => {
                if init {
                    self.current_generation = shared.raw_generation;
                    self.phase = IntakePhase::Idle;
                    if self.produced_any || self.emitted_any {
                        IntakeStep::Again
                    } else {
                        IntakeStep::Sleep
                    }
                } else {
                    self.overflow_baseline = 0;
                    self.collect(shared)
                }
            },
            Err(e) => {
                let text = e.text();
                if init {
                    self.die(shared, "normalizer init failed: ", text.as_str())
                } else {
                    self.die(
                        shared,
                        "normalizer rebuild failed after source change: ",
                        text.as_str(),
                    )
                }
            },
        }
    }

    /// Begins a round.
    pub fn tick(&mut self, shared: &mut SharedState) -> (step: IntakeStep)
        requires
            old(self).wf(),
            old(shared).wf(),
            old(self)@.phase is Idle,
        ensures
            final(self).wf(),
            final(shared).wf(),
            joint(final(self)@, final(shared)@) == joint(old(self)@, old(shared)@).ticked(),
            step@ == final(self)@.step(),
    {
        self.stopping = shared.stopping;
        if shared.raw_generation != self.current_generation {
            self.current_generation = shared.raw_generation;
            proof {
                lemma_supported_is_countable(self.output);
                if let Some(sec) = self.secondary_output {
                    lemma_supported_is_countable(sec);
                }
            }
            self.normalizer = build_normalizer(
                shared,
                shared.native_format,
                self.output,
                self.secondary_output,
            ).unwrap();
            proof {
                self.normalizer.lemma_wf();
            }
            self.phase = IntakePhase::Rebuild;
            IntakeStep::Build
        } else {
            self.collect(shared)
        }
    }

    /// Takes what the raw ring gave: its samples, whose first frame has the
    /// device time `pts_ns`, and the count of samples it has lost so far. There
    /// is no count where there is no ring.
    pub fn popped(
        &mut self,
        shared: &mut SharedState,
        samples: &[u32],
        overflow: Option<u64>,
        pts_ns: i64,
        now_ns: i64,
    ) -> (step: IntakeStep)
        requires
            old(self).wf(),
            old(shared).wf(),
            old(self)@.phase is Pop,
        ensures
            final(self).wf(),
            final(shared).wf(),
            joint(final(self)@, final(shared)@) == joint(old(self)@, old(shared)@).popped(
                samples@,
                overflow,
                pts_ns,
                now_ns,
            ),
            step@ == final(self)@.step(),
    {
        proof {
            reveal(Joint::popped);
        }
        if let Some(count) = overflow {
            if count > self.overflow_baseline {
                self.primary.mark(false, true);
                self.secondary.mark(false, true);
            }
            self.overflow_baseline = count;
        }
        if samples.len() == 0 {
            self.taken_in(shared, now_ns)
        } else {
            let ghost before = self.normalizer@;
            let step = self.normalizer.push(samples, pts_ns);
            proof {
                self.normalizer.lemma_wf();
                before.lemma_push_keeps_setup(samples@, pts_ns);
            }
            self.pushing(shared, step, now_ns)
        }
    }

    /// Takes the answer to a step of the normalizer. Only a rate conversion can
    /// fail.
    pub fn normalized(
        &mut self,
        shared: &mut SharedState,
        outcome: Result<Vec<u32>, String>,
        now_ns: i64,
    ) -> (step: IntakeStep)
        requires
            old(self).wf(),
            old(shared).wf(),
            old(self)@.phase is Push || old(self)@.phase is Flush,
            outcome is Err ==> old(self)@.normalizer.resampling(),
        ensures
            final(self).wf(),
            final(shared).wf(),
            joint(final(self)@, final(shared)@) == joint(old(self)@, old(shared)@).normalized(
                outcome_of(outcome),
                now_ns,
            ),
            step@ == final(self)@.step(),
    {
        proof {
            reveal(Joint::normalized);
        }
        let ghost before = self.normalizer@;
        let step = self.normalizer.advance(outcome);
        proof {
            self.normalizer.lemma_wf();
            before.lemma_advance_keeps_setup(outcome_of(outcome));
        }
        match self.phase {
            IntakePhase::Push => self.pushing(shared, step, now_ns),
            _ => self.flushing(shared, step, now_ns),
        }
    }

    /// Takes the multiplied samples of a chunk.
    pub fn scaled(&mut self, product: Vec<u32>) -> (step: IntakeStep)
        requires
            old(self).wf(),
            old(self)@.phase is ScalePrimary || old(self)@.phase is ScaleSecondary,
        ensures
            final(self).wf(),
            final(self)@ == old(self)@.scaled(product@),
            step@ == final(self)@.step(),
    {
        self.data = limit(product);
        self.phase = match self.phase {
            IntakePhase::ScalePrimary => IntakePhase::MeasurePrimary,
            _ => IntakePhase::MeasureSecondary,
        };
        IntakeStep::Measure { samples: vstd::slice::slice_to_vec(self.data.as_slice()) }
    }

    /// Takes the root mean square of a chunk and delivers the chunk, with every
    /// mark that was set up to now. Where the stream has been paused meanwhile,
    /// the chunk is thrown away.
    pub fn measured(&mut self, shared: &mut SharedState, rms: u32, now_ns: i64) -> (step:
        IntakeStep)
        requires
            old(self).wf(),
            old(shared).wf(),
            old(self)@.phase is MeasurePrimary || old(self)@.phase is MeasureSecondary,
            old(self)@.secondary_output is Some ==> old(shared)@.secondary is Some,
        ensures
            final(self).wf(),
            final(shared).wf(),
            joint(final(self)@, final(shared)@) == joint(old(self)@, old(shared)@).measured(
                rms,
                now_ns,
            ),
            step@ == final(self)@.step(),
    {
        proof {
            reveal(Joint::measured);
        }
        if shared.paused {
            self.data = Vec::new();
            return match self.phase {
                IntakePhase::MeasurePrimary => self.next_primary(shared, now_ns),
                _ => self.next_secondary(shared, now_ns),
            };
        }
        if shared.raw_generation == self.current_generation {
            self.collect_marks(shared);
        }
        let mut data: Vec<u32> = Vec::new();
        std::mem::swap(&mut data, &mut self.data);
        let peak: u32 = peak(data.as_slice());
        match self.phase {
            IntakePhase::MeasurePrimary => {
                let pts: i64 = apply_epoch(shared, self.raw_pts_ns);
                self.primary.advance_clock(pts);
                let channels: usize = self.output.channels as usize;
                let frames: usize = data.len() / channels;
                let chunk = AudioChunk {
                    data,
                    frames,
                    pts_ns: self.primary.last_pts_ns,
                    seq: self.primary.seq,
                    flags: self.primary.next_flags(),
                    dropped_before: 0,
                    peak,
                    rms,
                };
                self.primary.complete();
                shared.deliver(chunk);
                self.emitted_any = true;
                self.next_primary(shared, now_ns)
            },
            _ => {
                let pts: i64 = recording_time(shared, self.raw_pts_ns);
                self.secondary.advance_clock(pts);
                let channels: usize = match self.secondary_output {
                    None => 1,
                    Some(sec) => sec.channels as usize,
                };
                let frames: usize = data.len() / channels;
                let chunk = SecondaryChunk {
                    samples: data,
                    frames,
                    pts_ns: self.secondary.last_pts_ns,
                    seq: self.secondary.seq,
                    flags: self.secondary.next_flags(),
                    dropped_before: 0,
                    peak,
                    rms,
                };
                self.secondary.complete();
                shared.deliver_secondary(chunk);
                self.emitted_any = true;
                self.next_secondary(shared, now_ns)
            },
        }
    }

    /// Ends the intake with an event.
    fn die(&mut self, shared: &mut SharedState, what: &str, why: &str) -> (step: IntakeStep)
        requires
            old(self).parts_wf(),
            old(shared).wf(),
        ensures
            final(self).wf(),
            final(shared).wf(),
            joint(final(self)@, final(shared)@) == joint(old(self)@, old(shared)@).died(
                what@ + why@,
            ),
            step@ == final(self)@.step(),
    {
        shared.push_event(Event::Error(join(what, why)));
        self.phase = IntakePhase::Over;
        IntakeStep::Exit
    }

    /// Hands the shared marks to both outputs.
    fn collect_marks(&mut self, shared: &mut SharedState)
        requires
            old(self).parts_wf(),
            old(shared).wf(),
        ensures
            final(self).parts_wf(),
            final(shared).wf(),
            joint(final(self)@, final(shared)@) == joint(
                old(self)@,
                old(shared)@,
            ).marks_collected(),
    {
        let recovered = shared.recovered_pending;
        let discontinuity = shared.discontinuity_pending;
        shared.recovered_pending = false;
        shared.discontinuity_pending = false;
        self.primary.mark(recovered, discontinuity);
        self.secondary.mark(recovered, discontinuity);
    }

    /// Begins to empty the raw ring, with the shared marks handed to both
    /// outputs.
    fn collect(&mut self, shared: &mut SharedState) -> (step: IntakeStep)
        requires
            old(self).parts_wf(),
            old(self)@.normalizer.phase is Idle,
            old(shared).wf(),
        ensures
            final(self).wf(),
            final(shared).wf(),
            joint(final(self)@, final(shared)@) == joint(old(self)@, old(shared)@).collected(),
            step@ == final(self)@.step(),
    {
        self.collect_marks(shared);
        self.produced_any = false;
        self.emitted_any = false;
        self.phase = IntakePhase::Pop;
        IntakeStep::Pop
    }

    /// Goes on with a step of a push.
    fn pushing(&mut self, shared: &mut SharedState, step: Step, now_ns: i64) -> (r: IntakeStep)
        requires
            old(self).parts_wf(),
            old(shared).wf(),
            step@ == old(self)@.normalizer.step(),
        ensures
            final(self).wf(),
            final(shared).wf(),
            joint(final(self)@, final(shared)@) == joint(old(self)@, old(shared)@).pushing(now_ns),
            r@ == final(self)@.step(),
    {
        proof {
            reveal(Joint::pushing);
        }
        match step {
            Step::Done(Ok(_)) => {
                shared.last_sample_ns = now_ns;
                self.produced_any = true;
                self.taken_in(shared, now_ns)
            },
            Step::Done(Err(e)) => {
                let text = e.text();
                self.die(shared, "normalizer push failed: ", text.as_str())
            },
            _ => {
                self.phase = IntakePhase::Push;
                IntakeStep::Normalize(step)
            },
        }
    }

    /// Goes on once all samples are in.
    fn taken_in(&mut self, shared: &mut SharedState, now_ns: i64) -> (step: IntakeStep)
        requires
            old(self).parts_wf(),
            old(self)@.normalizer.phase is Idle,
            old(shared).wf(),
        ensures
            final(self).wf(),
            final(shared).wf(),
            joint(final(self)@, final(shared)@) == joint(old(self)@, old(shared)@).taken_in(now_ns),
            step@ == final(self)@.step(),
    {
        proof {
            reveal(Joint::taken_in);
        }
        if self.stopping {
            let ghost before = self.normalizer@;
            let step = self.normalizer.flush();
            proof {
                self.normalizer.lemma_wf();
                before.lemma_flush_keeps_setup();
            }
            self.flushing(shared, step, now_ns)
        } else {
            self.next_primary(shared, now_ns)
        }
    }

    /// Goes on with a step of a flush.
    fn flushing(&mut self, shared: &mut SharedState, step: Step, now_ns: i64) -> (r: IntakeStep)
        requires
            old(self).parts_wf(),
            old(shared).wf(),
            step@ == old(self)@.normalizer.step(),
        ensures
            final(self).wf(),
            final(shared).wf(),
            joint(final(self)@, final(shared)@) == joint(old(self)@, old(shared)@).flushing(now_ns),
            r@ == final(self)@.step(),
    {
        proof {
            reveal(Joint::flushing);
        }
        match step {
            Step::Done(_) => self.next_primary(shared, now_ns),
            _ => {
                self.phase = IntakePhase::Flush;
                IntakeStep::Normalize(step)
            },
        }
    }

    /// Takes the next primary chunk.
    fn next_primary(&mut self, shared: &mut SharedState, now_ns: i64) -> (step: IntakeStep)
        requires
            old(self).parts_wf(),
            old(self)@.normalizer.phase is Idle,
            old(shared).wf(),
        ensures
            final(self).wf(),
            final(shared).wf(),
            joint(final(self)@, final(shared)@) == joint(old(self)@, old(shared)@).next_primary(
                now_ns,
            ),
            step@ == final(self)@.step(),
    {
        proof {
            reveal(Joint::next_primary);
        }
        if shared.paused {
            self.discard_primary(now_ns);
            return self.next_secondary(shared, now_ns);
        }
        match self.normalizer.pop_chunk(now_ns) {
            None => self.next_secondary(shared, now_ns),
            Some((data, raw_pts)) => {
                proof {
                    self.normalizer.lemma_wf();
                }
                self.data = data;
                self.raw_pts_ns = raw_pts;
                self.gain = shared.gain_bits;
                let samples = vstd::slice::slice_to_vec(self.data.as_slice());
                if self.gain != UNITY {
                    self.phase = IntakePhase::ScalePrimary;
                    IntakeStep::Scale { samples, gain: self.gain }
                } else {
                    self.phase = IntakePhase::MeasurePrimary;
                    IntakeStep::Measure { samples }
                }
            },
        }
    }

    /// Takes the next secondary chunk.
    fn next_secondary(&mut self, shared: &mut SharedState, now_ns: i64) -> (step: IntakeStep)
        requires
            old(self).parts_wf(),
            old(self)@.normalizer.phase is Idle,
            old(shared).wf(),
        ensures
            final(self).wf(),
            final(shared).wf(),
            joint(final(self)@, final(shared)@) == joint(old(self)@, old(shared)@).next_secondary(
                now_ns,
            ),
            step@ == final(self)@.step(),
    {
        proof {
            reveal(Joint::next_secondary);
        }
        if shared.paused {
            self.discard_secondary(now_ns);
            return self.end_round(shared);
        }
        match self.normalizer.pop_secondary(now_ns) {
            None => self.end_round(shared),
            Some((data, raw_pts)) => {
                proof {
                    self.normalizer.lemma_wf();
                }
                self.data = data;
                self.raw_pts_ns = raw_pts;
                self.gain = shared.gain_bits;
                let samples = vstd::slice::slice_to_vec(self.data.as_slice());
                if self.gain != UNITY {
                    self.phase = IntakePhase::ScaleSecondary;
                    IntakeStep::Scale { samples, gain: self.gain }
                } else {
                    self.phase = IntakePhase::MeasureSecondary;
                    IntakeStep::Measure { samples }
                }
            },
        }
    }

    /// Throws all finished primary chunks away.
    fn discard_primary(&mut self, now_ns: i64)
        requires
            old(self).parts_wf(),
            old(self)@.normalizer.phase is Idle,
        ensures
            final(self).parts_wf(),
            final(self)@ == (IntakeModel {
                normalizer: NormalizerModel {
                    primary: old(self)@.normalizer.primary.discarded(),
                    ..old(self)@.normalizer
                },
                ..old(self)@
            }),
    {
        let ghost start = self@;
        let mut more = true;
        while more
            invariant
                self.parts_wf(),
                start.normalizer.phase is Idle,
                self@.normalizer.primary.discarded() == start.normalizer.primary.discarded(),
                self@ == (IntakeModel {
                    normalizer: NormalizerModel {
                        primary: self@.normalizer.primary,
                        ..start.normalizer
                    },
                    ..start
                }),
                !more ==> !self@.normalizer.primary.has_chunk(),
            decreases self@.normalizer.primary.out.len() + (if more { 1int } else { 0int }),
        {
            proof {
                self@.normalizer.primary.lemma_need_positive();
            }
            more = self.normalizer.pop_chunk(now_ns).is_some();
            proof {
                self.normalizer.lemma_wf();
            }
        }
    }

    /// Throws all finished secondary chunks away.
    fn discard_secondary(&mut self, now_ns: i64)
        requires
            old(self).parts_wf(),
            old(self)@.normalizer.phase is Idle,
        ensures
            final(self).parts_wf(),
            final(self)@ == (IntakeModel {
                normalizer: NormalizerModel {
                    secondary: match old(self)@.normalizer.secondary {
                        None => None,
                        Some(t) => Some(t.discarded()),
                    },
                    ..old(self)@.normalizer
                },
                ..old(self)@
            }),
    {
        if !self.normalizer.has_secondary() {
            return;
        }
        let ghost start = self@;
        let mut more = true;
        while more
            invariant
                self.parts_wf(),
                start.normalizer.phase is Idle,
                start.normalizer.secondary is Some,
                self@.normalizer.secondary is Some,
                self@.normalizer.secondary->0.discarded() == start.normalizer.secondary->0.discarded(),
                self@ == (IntakeModel {
                    normalizer: NormalizerModel {
                        secondary: self@.normalizer.secondary,
                        ..start.normalizer
                    },
                    ..start
                }),
                !more ==> !self@.normalizer.secondary->0.has_chunk(),
            decreases self@.normalizer.secondary->0.out.len() + (if more { 1int } else { 0int }),
        {
            proof {
                self@.normalizer.secondary->0.lemma_need_positive();
            }
            more = self.normalizer.pop_secondary(now_ns).is_some();
            proof {
                self.normalizer.lemma_wf();
            }
        }
    }

    /// Ends the round.
    fn end_round(&mut self, shared: &SharedState) -> (step: IntakeStep)
        requires
            old(self).parts_wf(),
            old(self)@.normalizer.phase is Idle,
        ensures
            final(self).wf(),
            joint(final(self)@, shared@) == joint(old(self)@, shared@).round_over(),
            step@ == final(self)@.step(),
    {
        if self.stopping {
            self.phase = IntakePhase::Over;
            IntakeStep::Exit
        } else {
            self.phase = IntakePhase::Idle;
            if self.produced_any || self.emitted_any {
                IntakeStep::Again
            } else {
                IntakeStep::Sleep
            }
        }
    }
}

} // verus!
