//! From device frames to chunks of one or two output formats.
//!
//! ```text
//! device frames (any rate, any channel count)
//!   |  first stage: mix to stereo, convert to 48 kHz
//!   v
//! inner form (48 kHz, stereo)  ->  optional processor
//!   |  second stage, once per output: channels, rate
//!   v
//! chunks of the output formats
//! ```
//!
//! [`Normalizer::push`] and [`Normalizer::flush`] run until they need something
//! computed in floating point, which they ask for with a [`Step`]; the caller
//! answers with [`Normalizer::advance`] until the step is [`Step::Done`].
//!
//! The transitions of [`NormalizerModel`] are opaque to the solver: reveal the
//! ones that a proof computes with.

use vstd::prelude::*;

use crate::arith::{count_up, saturate_count};
use crate::frames::{mix_to_stereo, mixed};
use crate::normalizer_laws::{is_direct, law_direct_push, law_subframe_push_is_void};
use crate::resampler::{block_frames, ResamplerModel, ResamplerPlan, ResamplerState};
use crate::tap::{countable, OutputTap, StageModel, TapModel};
use crate::types::{Error, ErrorView, OutputFormat, DEFAULT_CHUNK_MS, SAMPLE_RATE};

verus! {

/// Which rate conversion a block belongs to.
#[derive(Clone, Copy, Debug, PartialEq, Eq, Structural)]
pub enum Unit {
    /// From the device to the inner form.
    Inner,
    /// From the inner form to the primary output.
    Primary,
    /// From the inner form to the secondary output.
    Secondary,
}

/// What a running operation needs from the caller.
#[derive(Debug)]
pub enum Step {
    /// The operation is over.
    Done(Result<(), Error>),
    /// Convert the rate of `input`, one block of `unit`. With `partial` only
    /// that many frames of it count. Answer with the converted samples, or
    /// with a message where the conversion fails.
    Resample { unit: Unit, input: Vec<u32>, partial: Option<usize> },
    /// Run the processor over these inner samples. Answer with the result.
    Process { samples: Vec<u32> },
    /// Average the two channels of each whole frame. Answer with the averages.
    Average { samples: Vec<u32> },
    /// Ask the processor for what it still holds. Answer with these inner
    /// samples.
    Tail,
}

/// The mathematical content of a [`Step`].
#[verifier::ext_equal]
pub enum StepModel {
    Done(Option<ErrorView>),
    Resample { unit: Unit, input: Seq<u32>, partial: Option<int> },
    Process { samples: Seq<u32> },
    Average { samples: Seq<u32> },
    Tail,
}

impl View for Step {
    type V = StepModel;

    open spec fn view(&self) -> StepModel {
        match self {
            Step::Done(r) => StepModel::Done(
                match r {
                    Ok(_) => None,
                    Err(e) => Some(e@),
                },
            ),
            Step::Resample { unit, input, partial } => StepModel::Resample {
                unit: *unit,
                input: input@,
                partial: match partial {
                    None => None,
                    Some(n) => Some(*n as int),
                },
            },
            Step::Process { samples } => StepModel::Process { samples: samples@ },
            Step::Average { samples } => StepModel::Average { samples: samples@ },
            Step::Tail => StepModel::Tail,
        }
    }
}

/// Where a running operation stands.
#[derive(Clone, Copy, Debug, PartialEq, Eq, Structural)]
pub enum Phase {
    /// No operation is running.
    Idle,
    /// A block of the first stage is being converted.
    Inner,
    /// The processor is running.
    Process,
    /// The frames are being averaged.
    Average,
    /// A block of the primary output is being converted.
    Primary,
    /// A block of the secondary output is being converted.
    Secondary,
    /// The processor is being asked for its tail.
    Tail,
    /// The last block of the primary output is being converted.
    PrimaryRest,
    /// The last block of the secondary output is being converted.
    SecondaryRest,
}

/// Answer to a step: samples, or the message of a failure.
#[verifier::ext_equal]
pub enum Outcome {
    Samples(Seq<u32>),
    Failed(Seq<char>),
}

/// The answer that a result stands for.
pub open spec fn outcome_of(r: Result<Vec<u32>, String>) -> Outcome {
    match r {
        Ok(v) => Outcome::Samples(v@),
        Err(s) => Outcome::Failed(s@),
    }
}

/// Contents of a [`Normalizer`].
#[verifier::ext_equal]
pub struct NormalizerModel {
    pub in_sample_rate: u32,
    pub in_channels: int,
    /// Input side of the first stage, absent at the inner rate.
    pub stage1: Option<ResamplerModel>,
    /// Inner samples of the running operation.
    pub inner: Seq<u32>,
    /// Inner frames made so far.
    pub total: u64,
    /// Whether a processor works on the inner form.
    pub processor: bool,
    pub primary: TapModel,
    pub secondary: Option<TapModel>,
    pub phase: Phase,
    /// Inner frames made by the running operation.
    pub produced: u64,
    /// Whether the running operation is a flush.
    pub flushing: bool,
    /// Frames that count in the last block.
    pub rest: int,
    /// First failure of the running, or of the last, operation.
    pub failure: Option<ErrorView>,
}

/// Rate conversion of the first stage for a device rate.
pub open spec fn first_stage(in_sample_rate: u32, chunk_ms: u32) -> Option<ResamplerModel> {
    if in_sample_rate == SAMPLE_RATE {
        None
    } else {
        Some(
            ResamplerModel {
                plan: ResamplerPlan::planned(in_sample_rate, SAMPLE_RATE, 2, chunk_ms),
                pending: Seq::empty(),
            },
        )
    }
}

impl NormalizerModel {
    /// A normalizer that has seen nothing.
    pub open spec fn fresh(
        in_sample_rate: u32,
        in_channels: u16,
        output: OutputFormat,
        chunk_ms: u32,
    ) -> Self {
        NormalizerModel {
            in_sample_rate,
            in_channels: if in_channels == 0 {
                1
            } else {
                in_channels as int
            },
            stage1: first_stage(in_sample_rate, chunk_ms),
            inner: Seq::empty(),
            total: 0,
            processor: false,
            primary: TapModel::fresh(output, chunk_ms),
            secondary: None,
            phase: Phase::Idle,
            produced: 0,
            flushing: false,
            rest: 0,
            failure: None,
        }
    }

    /// The parts fit together.
    pub open spec fn parts_wf(self) -> bool {
        &&& self.in_channels > 0
        &&& self.stage1 is None <==> self.in_sample_rate == SAMPLE_RATE
        &&& self.stage1 matches Some(r) ==> r.wf() && r.plan.channels == 2
        &&& self.primary.wf()
        &&& self.secondary matches Some(t) ==> t.wf()
    }

    /// The parts fit together, and what the phase works on is there.
    pub open spec fn wf(self) -> bool {
        &&& self.parts_wf()
        &&& self.phase is Inner ==> (self.stage1 matches Some(r) && r.ready())
        &&& self.phase is Primary ==> self.primary.ready()
        &&& self.phase is Secondary ==> (self.secondary matches Some(t) && t.ready())
        &&& self.phase is PrimaryRest ==> self.primary.remaining() > 0
        &&& self.phase is SecondaryRest ==> (self.secondary matches Some(t) && t.remaining() > 0)
    }

    /// What the conversion of a unit has to be built for, if there is one.
    pub open spec fn plan_of(self, unit: Unit) -> Option<ResamplerPlan> {
        match unit {
            Unit::Inner => match self.stage1 {
                None => None,
                Some(s) => Some(s.plan),
            },
            Unit::Primary => match self.primary.stage {
                StageModel::Resample(s) => Some(s.plan),
                _ => None,
            },
            Unit::Secondary => match self.secondary {
                None => None,
                Some(t) => match t.stage {
                    StageModel::Resample(s) => Some(s.plan),
                    _ => None,
                },
            },
        }
    }

    /// Whether the two agree on what never changes: the device, the formats and
    /// the processor.
    pub open spec fn same_setup(self, other: Self) -> bool {
        &&& self.in_sample_rate == other.in_sample_rate
        &&& self.in_channels == other.in_channels
        &&& self.processor == other.processor
        &&& self.primary.format == other.primary.format
        &&& self.primary.chunk_ms == other.primary.chunk_ms
        &&& self.secondary is Some <==> other.secondary is Some
        &&& self.secondary matches Some(t) ==> t.format == other.secondary->0.format && t.chunk_ms
            == other.secondary->0.chunk_ms
    }

    /// Nothing that ends an operation changes the setup.
    proof fn lemma_ending_keeps_setup(self)
        ensures
            self.rest_secondary().same_setup(self),
            self.rest_primary().same_setup(self),
            self.taps_fed().same_setup(self),
    {
        reveal(NormalizerModel::rest_secondary);
        reveal(NormalizerModel::rest_primary);
        reveal(NormalizerModel::taps_fed);
        let aligned = NormalizerModel { primary: self.primary.aligned(), ..self };
        assert(aligned.rest_secondary().same_setup(self));
        assert(self.rest_primary().same_setup(self));
        let clean = NormalizerModel { failure: None, ..self };
        let clean_aligned = NormalizerModel { primary: clean.primary.aligned(), ..clean };
        assert(clean_aligned.rest_secondary().same_setup(self));
        assert(clean.rest_primary().same_setup(self));
    }

    /// Nothing that feeds the taps changes the setup.
    proof fn lemma_feeding_keeps_setup(self, averages: Seq<u32>)
        ensures
            self.drain_secondary().same_setup(self),
            self.drain_primary().same_setup(self),
            self.fed(averages).same_setup(self),
    {
        reveal(NormalizerModel::drain_secondary);
        reveal(NormalizerModel::drain_primary);
        reveal(NormalizerModel::fed);
        self.lemma_ending_keeps_setup();
        let fed = NormalizerModel {
            primary: self.primary.fed(self.inner, averages),
            secondary: match self.secondary {
                None => None,
                Some(t) => Some(t.fed(self.inner, averages)),
            },
            inner: Seq::empty(),
            ..self
        };
        assert(fed.same_setup(self));
        fed.lemma_ending_keeps_setup();
        assert(fed.drain_primary().same_setup(fed));
    }

    /// Nothing that makes inner samples changes the setup.
    proof fn lemma_inner_keeps_setup(self)
        ensures
            self.distributed().same_setup(self),
            self.inner_complete().same_setup(self),
            self.drain_inner().same_setup(self),
    {
        reveal(NormalizerModel::distributed);
        reveal(NormalizerModel::inner_complete);
        reveal(NormalizerModel::drain_inner);
        self.lemma_ending_keeps_setup();
        self.lemma_feeding_keeps_setup(Seq::empty());
        let counted = NormalizerModel {
            total: saturate_count(self.total + self.produced),
            ..self
        };
        counted.lemma_ending_keeps_setup();
        counted.lemma_feeding_keeps_setup(Seq::empty());
        assert(counted.inner_complete().same_setup(counted));
    }

    /// A push changes neither the device nor the outputs.
    pub proof fn lemma_push_keeps_setup(self, samples: Seq<u32>, pts_ns: i64)
        ensures
            self.pushed(samples, pts_ns).same_setup(self),
    {
        reveal(NormalizerModel::pushed);
        let start = NormalizerModel { flushing: false, failure: None, ..self };
        let m = start.anchored(pts_ns);
        assert(m.same_setup(self));
        let frames = samples.len() as int / self.in_channels;
        let direct = NormalizerModel {
            inner: mixed(samples, self.in_channels),
            total: saturate_count(m.total + frames),
            ..m
        };
        direct.lemma_inner_keeps_setup();
        if let Some(r) = m.stage1 {
            let extended = NormalizerModel {
                inner: Seq::empty(),
                produced: 0,
                stage1: Some(r.extended(mixed(samples, self.in_channels))),
                ..m
            };
            extended.lemma_inner_keeps_setup();
        }
    }

    /// Neither does a step.
    pub proof fn lemma_advance_keeps_setup(self, outcome: Outcome)
        requires
            self.wf(),
        ensures
            self.advanced(outcome).same_setup(self),
    {
        reveal(NormalizerModel::advanced);
        match outcome {
            Outcome::Samples(s) => match self.phase {
                Phase::Idle => {},
                Phase::Inner => {
                    NormalizerModel {
                        inner: self.inner + s,
                        produced: saturate_count(self.produced + s.len() as int / 2),
                        stage1: Some(self.stage1->0.consumed()),
                        ..self
                    }.lemma_inner_keeps_setup();
                },
                Phase::Process => {
                    NormalizerModel { inner: s, ..self }.lemma_inner_keeps_setup();
                },
                Phase::Average => {
                    self.lemma_feeding_keeps_setup(s);
                },
                Phase::Primary => {
                    NormalizerModel {
                        primary: self.primary.accepted(s),
                        ..self
                    }.lemma_feeding_keeps_setup(s);
                },
                Phase::Secondary => {
                    NormalizerModel {
                        secondary: Some(self.secondary->0.accepted(s)),
                        ..self
                    }.lemma_feeding_keeps_setup(s);
                },
                Phase::Tail => {
                    self.lemma_ending_keeps_setup();
                    NormalizerModel { inner: s, ..self }.lemma_inner_keeps_setup();
                },
                Phase::PrimaryRest => {
                    NormalizerModel {
                        primary: self.primary.finished(s).aligned(),
                        ..self
                    }.lemma_ending_keeps_setup();
                },
                Phase::SecondaryRest => {},
            },
            Outcome::Failed(message) => {
                let m = self.failed(message);
                m.lemma_feeding_keeps_setup(Seq::empty());
                m.lemma_ending_keeps_setup();
                NormalizerModel {
                    primary: self.primary.aligned(),
                    ..self
                }.lemma_ending_keeps_setup();
            },
        }
    }

    /// Neither does a flush.
    pub proof fn lemma_flush_keeps_setup(self)
        ensures
            self.flushed().same_setup(self),
    {
        reveal(NormalizerModel::flushed);
        NormalizerModel { flushing: true, failure: None, ..self }.lemma_ending_keeps_setup();
    }

    /// Whether the caller is to answer with a rate conversion, which may fail.
    pub open spec fn resampling(self) -> bool {
        ||| self.phase is Inner
        ||| self.phase is Primary
        ||| self.phase is Secondary
        ||| self.phase is PrimaryRest
        ||| self.phase is SecondaryRest
    }

    /// What the operation needs next.
    pub open spec fn step(self) -> StepModel {
        match self.phase {
            Phase::Idle => StepModel::Done(self.failure),
            Phase::Inner => StepModel::Resample {
                unit: Unit::Inner,
                input: self.stage1->0.block(),
                partial: None,
            },
            Phase::Process => StepModel::Process { samples: self.inner },
            Phase::Average => StepModel::Average { samples: self.inner },
            Phase::Primary => StepModel::Resample {
                unit: Unit::Primary,
                input: self.primary.block(),
                partial: None,
            },
            Phase::Secondary => StepModel::Resample {
                unit: Unit::Secondary,
                input: self.secondary->0.block(),
                partial: None,
            },
            Phase::Tail => StepModel::Tail,
            Phase::PrimaryRest => StepModel::Resample {
                unit: Unit::Primary,
                input: self.primary.stage->Resample_0.pending,
                partial: Some(self.rest),
            },
            Phase::SecondaryRest => StepModel::Resample {
                unit: Unit::Secondary,
                input: self.secondary->0.stage->Resample_0.pending,
                partial: Some(self.rest),
            },
        }
    }

    /// Whether the second stages need the averages of the frames.
    pub open spec fn needs_averages(self) -> bool {
        self.primary.channels() == 1 || (self.secondary matches Some(t) && t.channels() == 1)
    }

    /// Both taps with the start of a push anchored.
    pub open spec fn anchored(self, pts_ns: i64) -> Self {
        NormalizerModel {
            primary: self.primary.anchored(self.total, pts_ns),
            secondary: match self.secondary {
                None => None,
                Some(t) => Some(t.anchored(self.total, pts_ns)),
            },
            ..self
        }
    }

    /// A push of device samples whose first frame has the device time `pts_ns`.
    #[verifier::opaque]
    pub open spec fn pushed(self, samples: Seq<u32>, pts_ns: i64) -> Self {
        let frames = samples.len() as int / self.in_channels;
        let start = NormalizerModel { flushing: false, failure: None, ..self };
        if frames == 0 {
            start
        } else {
            let m = start.anchored(pts_ns);
            match m.stage1 {
                None => NormalizerModel {
                    inner: mixed(samples, self.in_channels),
                    total: saturate_count(m.total + frames),
                    ..m
                }.inner_complete(),
                Some(r) => NormalizerModel {
                    inner: Seq::empty(),
                    produced: 0,
                    stage1: Some(r.extended(mixed(samples, self.in_channels))),
                    ..m
                }.drain_inner(),
            }
        }
    }

    /// The first stage goes on with its next block, or is over.
    #[verifier::opaque]
    pub open spec fn drain_inner(self) -> Self {
        if self.stage1->0.ready() {
            NormalizerModel { phase: Phase::Inner, ..self }
        } else {
            NormalizerModel {
                total: saturate_count(self.total + self.produced),
                ..self
            }.inner_complete()
        }
    }

    /// The inner samples are complete; the processor comes first.
    #[verifier::opaque]
    pub open spec fn inner_complete(self) -> Self {
        if self.processor {
            NormalizerModel { phase: Phase::Process, ..self }
        } else {
            self.distributed()
        }
    }

    /// The inner samples go to the taps.
    #[verifier::opaque]
    pub open spec fn distributed(self) -> Self {
        if self.inner.len() == 0 {
            self.taps_fed()
        } else if self.needs_averages() {
            NormalizerModel { phase: Phase::Average, ..self }
        } else {
            self.fed(Seq::empty())
        }
    }

    /// Both taps take the same inner samples in.
    #[verifier::opaque]
    pub open spec fn fed(self, averages: Seq<u32>) -> Self {
        NormalizerModel {
            primary: self.primary.fed(self.inner, averages),
            secondary: match self.secondary {
                None => None,
                Some(t) => Some(t.fed(self.inner, averages)),
            },
            inner: Seq::empty(),
            ..self
        }.drain_primary()
    }

    /// The primary tap goes on with its next block, or is over.
    #[verifier::opaque]
    pub open spec fn drain_primary(self) -> Self {
        if self.primary.ready() {
            NormalizerModel { phase: Phase::Primary, ..self }
        } else {
            self.drain_secondary()
        }
    }

    /// The secondary tap goes on with its next block, or is over.
    #[verifier::opaque]
    pub open spec fn drain_secondary(self) -> Self {
        if self.secondary matches Some(t) && t.ready() {
            NormalizerModel { phase: Phase::Secondary, ..self }
        } else {
            self.taps_fed()
        }
    }

    /// The taps have taken everything: a push is over, a flush goes on and
    /// forgets failures.
    #[verifier::opaque]
    pub open spec fn taps_fed(self) -> Self {
        if self.flushing {
            NormalizerModel { failure: None, ..self }.rest_primary()
        } else {
            NormalizerModel { phase: Phase::Idle, ..self }
        }
    }

    /// The primary tap converts what is left over.
    #[verifier::opaque]
    pub open spec fn rest_primary(self) -> Self {
        if self.primary.remaining() > 0 {
            NormalizerModel {
                rest: self.primary.remaining(),
                primary: self.primary.squared(),
                phase: Phase::PrimaryRest,
                ..self
            }
        } else {
            NormalizerModel { primary: self.primary.aligned(), ..self }.rest_secondary()
        }
    }

    /// The secondary tap converts what is left over.
    #[verifier::opaque]
    pub open spec fn rest_secondary(self) -> Self {
        match self.secondary {
            None => NormalizerModel { phase: Phase::Idle, ..self },
            Some(t) => if t.remaining() > 0 {
                NormalizerModel {
                    rest: t.remaining(),
                    secondary: Some(t.squared()),
                    phase: Phase::SecondaryRest,
                    ..self
                }
            } else {
                NormalizerModel { secondary: Some(t.aligned()), phase: Phase::Idle, ..self }
            },
        }
    }

    /// A flush.
    #[verifier::opaque]
    pub open spec fn flushed(self) -> Self {
        let start = NormalizerModel { flushing: true, failure: None, ..self };
        if self.processor {
            NormalizerModel { phase: Phase::Tail, ..start }
        } else {
            start.rest_primary()
        }
    }

    /// The first failure counts.
    pub open spec fn failed(self, message: Seq<char>) -> Self {
        NormalizerModel {
            failure: match self.failure {
                Some(e) => Some(e),
                None => Some(ErrorView::Backend(message)),
            },
            ..self
        }
    }

    /// The operation goes on with the answer to its step.
    #[verifier::opaque]
    pub open spec fn advanced(self, outcome: Outcome) -> Self {
        match outcome {
            Outcome::Samples(s) => match self.phase {
                Phase::Idle => self,
                Phase::Inner => NormalizerModel {
                    inner: self.inner + s,
                    produced: saturate_count(self.produced + s.len() as int / 2),
                    stage1: Some(self.stage1->0.consumed()),
                    ..self
                }.drain_inner(),
                Phase::Process => NormalizerModel { inner: s, ..self }.distributed(),
                Phase::Average => self.fed(s),
                Phase::Primary => NormalizerModel {
                    primary: self.primary.accepted(s),
                    ..self
                }.drain_primary(),
                Phase::Secondary => NormalizerModel {
                    secondary: Some(self.secondary->0.accepted(s)),
                    ..self
                }.drain_secondary(),
                Phase::Tail => if s.len() == 0 {
                    self.rest_primary()
                } else {
                    NormalizerModel { inner: s, ..self }.distributed()
                },
                Phase::PrimaryRest => NormalizerModel {
                    primary: self.primary.finished(s).aligned(),
                    ..self
                }.rest_secondary(),
                Phase::SecondaryRest => NormalizerModel {
                    secondary: Some(self.secondary->0.finished(s).aligned()),
                    phase: Phase::Idle,
                    ..self
                },
            },
            Outcome::Failed(message) => match self.phase {
                Phase::Inner => NormalizerModel {
                    phase: Phase::Idle,
                    inner: Seq::empty(),
                    ..self.failed(message)
                },
                Phase::Primary => self.failed(message).drain_secondary(),
                Phase::Secondary => self.failed(message).taps_fed(),
                Phase::PrimaryRest => NormalizerModel {
                    primary: self.primary.aligned(),
                    ..self
                }.rest_secondary(),
                Phase::SecondaryRest => NormalizerModel {
                    secondary: Some(self.secondary->0.aligned()),
                    phase: Phase::Idle,
                    ..self
                },
                _ => self,
            },
        }
    }

    /// The operation goes on with these answers, one after the other.
    pub open spec fn run(self, answers: Seq<Outcome>) -> Self
        decreases answers.len(),
    {
        if answers.len() == 0 {
            self
        } else {
            self.run(answers.drop_last()).advanced(answers.last())
        }
    }
}

/// Turns device frames into chunks.
#[derive(Debug)]
pub struct Normalizer {
    in_sample_rate: u32,
    in_channels: usize,
    stage1: Option<ResamplerState>,
    inner_scratch: Vec<u32>,
    total_inner_frames: u64,
    has_processor: bool,
    primary: OutputTap,
    secondary: Option<OutputTap>,
    phase: Phase,
    produced: u64,
    flushing: bool,
    rest: usize,
    failure: Option<Error>,
}

impl View for Normalizer {
    type V = NormalizerModel;

    closed spec fn view(&self) -> NormalizerModel {
        NormalizerModel {
            in_sample_rate: self.in_sample_rate,
            in_channels: self.in_channels as int,
            stage1: match self.stage1 {
                None => None,
                Some(r) => Some(r@),
            },
            inner: self.inner_scratch@,
            total: self.total_inner_frames,
            processor: self.has_processor,
            primary: self.primary@,
            secondary: match self.secondary {
                None => None,
                Some(t) => Some(t@),
            },
            phase: self.phase,
            produced: self.produced,
            flushing: self.flushing,
            rest: self.rest as int,
            failure: match self.failure {
                None => None,
                Some(e) => Some(e@),
            },
        }
    }
}

/// At the default chunk duration the blocks of the first stage can be counted
/// for every device rate.
pub proof fn lemma_default_block_is_countable(in_sample_rate: u32)
    ensures
        block_frames(in_sample_rate as int, DEFAULT_CHUNK_MS as int) * 2 <= usize::MAX,
{
    let frames = crate::types::frames_in(in_sample_rate as int, DEFAULT_CHUNK_MS as int);
    assert(in_sample_rate * DEFAULT_CHUNK_MS <= 0xffff_ffff * 20) by (nonlinear_arith)
        requires
            0 <= in_sample_rate <= 0xffff_ffff,
            DEFAULT_CHUNK_MS == 20,
    ;
    assert(frames <= 85_899_345);
}

/// Why a format without a rate is refused.
pub open spec fn no_rate_error() -> ErrorView {
    ErrorView::Backend(
        "rubato sinc resampler construction failed: Invalid resample_ratio provided: 0. resample_ratio must be > 0"@,
    )
}

/// The error for a format without a rate.
fn no_rate() -> (r: Error)
    ensures
        r@ == no_rate_error(),
{
    Error::Backend(
        "rubato sinc resampler construction failed: Invalid resample_ratio provided: 0. resample_ratio must be > 0".to_owned(),
    )
}

impl Normalizer {
    spec fn parts_wf(&self) -> bool {
        &&& self@.parts_wf()
        &&& self.primary.wf()
        &&& self.secondary matches Some(t) ==> t.wf()
    }

    /// The parts fit together, and what the phase works on is there.
    pub closed spec fn wf(&self) -> bool {
        self.parts_wf() && self@.wf()
    }

    /// A well-formed normalizer has a well-formed model.
    pub proof fn lemma_wf(&self)
        requires
            self.wf(),
        ensures
            self@.wf(),
    {
    }

    /// A normalizer with chunks of the default duration.
    pub fn new(in_sample_rate: u32, in_channels: u16, output: OutputFormat) -> (r: Result<
        Self,
        Error,
    >)
        requires
            countable(output, DEFAULT_CHUNK_MS),
        ensures
            r is Ok <==> output.sample_rate > 0,
            r matches Ok(n) ==> n.wf() && n@ == NormalizerModel::fresh(
                in_sample_rate,
                in_channels,
                output,
                DEFAULT_CHUNK_MS,
            ),
            r matches Err(e) ==> e@ == no_rate_error(),
    {
        proof {
            lemma_default_block_is_countable(in_sample_rate);
        }
        Self::new_with_chunk_ms(in_sample_rate, in_channels, output, DEFAULT_CHUNK_MS)
    }

    /// A normalizer with chunks of `chunk_ms` milliseconds. The duration must
    /// not be zero, and the output needs a rate.
    pub fn new_with_chunk_ms(
        in_sample_rate: u32,
        in_channels: u16,
        output: OutputFormat,
        chunk_ms: u32,
    ) -> (r: Result<Self, Error>)
        requires
            countable(output, chunk_ms),
            block_frames(in_sample_rate as int, chunk_ms as int) * 2 <= usize::MAX,
        ensures
            r is Ok <==> chunk_ms > 0 && output.sample_rate > 0,
            r matches Ok(n) ==> n.wf() && n@ == NormalizerModel::fresh(
                in_sample_rate,
                in_channels,
                output,
                chunk_ms,
            ),
            r matches Err(e) ==> e@ == (if chunk_ms == 0 {
                ErrorView::InvalidArg("chunk_ms must be > 0"@)
            } else {
                no_rate_error()
            }),
    {
        if chunk_ms == 0 {
            return Err(Error::InvalidArg("chunk_ms must be > 0".to_owned()));
        }
        if output.sample_rate == 0 {
            return Err(no_rate());
        }
        let in_channels: usize = if in_channels == 0 {
            1
        } else {
            in_channels as usize
        };
        let stage1 = if in_sample_rate == SAMPLE_RATE {
            None
        } else {
            Some(ResamplerState::new(in_sample_rate, SAMPLE_RATE, 2, chunk_ms))
        };
        let primary = OutputTap::new(output, chunk_ms);
        Ok(
            Normalizer {
                in_sample_rate,
                in_channels,
                stage1,
                inner_scratch: Vec::new(),
                total_inner_frames: 0,
                has_processor: false,
                primary,
                secondary: None,
                phase: Phase::Idle,
                produced: 0,
                flushing: false,
                rest: 0,
                failure: None,
            },
        )
    }

    /// Adds a secondary output. It gets the same inner samples as the primary
    /// one and has its own buffer and time base.
    pub fn with_secondary(self, secondary: OutputFormat) -> (r: Result<Self, Error>)
        requires
            self.wf(),
            self@.phase is Idle,
            countable(secondary, self@.primary.chunk_ms),
        ensures
            r is Ok <==> secondary.sample_rate > 0,
            r matches Ok(n) ==> n.wf() && n@ == (NormalizerModel {
                secondary: Some(TapModel::fresh(secondary, self@.primary.chunk_ms)),
                ..self@
            }),
            r matches Err(e) ==> e@ == no_rate_error(),
    {
        if secondary.sample_rate == 0 {
            return Err(no_rate());
        }
        let mut n = self;
        n.secondary = Some(OutputTap::new(secondary, n.primary.chunk_ms()));
        Ok(n)
    }

    /// Announces a processor for the inner samples; from now on the steps
    /// [`Step::Process`] and [`Step::Tail`] occur.
    pub fn with_inner_processor(self) -> (n: Self)
        requires
            self.wf(),
        ensures
            n.wf(),
            n@ == (NormalizerModel { processor: true, ..self@ }),
    {
        let mut n = self;
        n.has_processor = true;
        n
    }

    /// Whether a processor has been announced.
    pub fn has_inner_processor(&self) -> (r: bool)
        ensures
            r == self@.processor,
    {
        self.has_processor
    }

    /// Rate of the device.
    pub fn in_sample_rate(&self) -> (r: u32)
        ensures
            r == self@.in_sample_rate,
    {
        self.in_sample_rate
    }

    /// Chunk duration in milliseconds.
    pub fn chunk_ms(&self) -> (r: u32)
        ensures
            r == self@.primary.chunk_ms,
    {
        self.primary.chunk_ms()
    }

    /// Format of the primary output.
    pub fn output(&self) -> (r: OutputFormat)
        ensures
            r == self@.primary.format,
    {
        self.primary.output()
    }

    /// Format of the secondary output, if there is one.
    pub fn secondary_output(&self) -> (r: Option<OutputFormat>)
        ensures
            r == (match self@.secondary {
                None => None,
                Some(t) => Some(t.format),
            }),
    {
        match &self.secondary {
            None => None,
            Some(t) => Some(t.output()),
        }
    }

    /// Whether there is a secondary output.
    pub fn has_secondary(&self) -> (r: bool)
        ensures
            r == (self@.secondary is Some),
    {
        self.secondary.is_some()
    }

    /// Whether the first stage leaves the rate as it is.
    pub fn is_passthrough(&self) -> (r: bool)
        requires
            self.wf(),
        ensures
            r == (self@.in_sample_rate == SAMPLE_RATE),
            r == (self@.stage1 is None),
    {
        self.stage1.is_none()
    }

    /// Whether the primary output is the inner form.
    pub fn is_output_passthrough(&self) -> (r: bool)
        requires
            self.wf(),
        ensures
            r == (self@.primary.format.sample_rate == SAMPLE_RATE && self@.primary.channels() == 2),
            r == (self@.primary.stage is Passthrough),
    {
        self.primary.is_passthrough()
    }

    /// What the conversion of a unit has to be built for, if there is one.
    pub fn plan(&self, unit: Unit) -> (r: Option<ResamplerPlan>)
        ensures
            r == self@.plan_of(unit),
    {
        match unit {
            Unit::Inner => match &self.stage1 {
                None => None,
                Some(rs) => Some(rs.plan()),
            },
            Unit::Primary => self.primary.plan(),
            Unit::Secondary => match &self.secondary {
                None => None,
                Some(t) => t.plan(),
            },
        }
    }

    /// Takes device samples in. Their first frame has the device time
    /// `device_pts_ns`. Less than a frame is ignored.
    pub fn push(&mut self, interleaved: &[u32], device_pts_ns: i64) -> (step: Step)
        requires
            old(self).wf(),
            old(self)@.phase is Idle,
        ensures
            final(self).wf(),
            final(self)@ == old(self)@.pushed(interleaved@, device_pts_ns),
            step@ == final(self)@.step(),
            interleaved@.len() < old(self)@.in_channels ==> final(self)@ == (NormalizerModel {
                flushing: false,
                failure: None,
                ..old(self)@
            }),
            is_direct(old(self)@) && interleaved@.len() >= old(self)@.in_channels ==> {
                &&& final(self)@.primary.out == old(self)@.primary.out + mixed(
                    interleaved@,
                    old(self)@.in_channels,
                )
                &&& step@ == StepModel::Done(None)
            },
    {
        proof {
            if is_direct(self@) && interleaved@.len() >= self@.in_channels {
                law_direct_push(self@, interleaved@, device_pts_ns);
            }
            if interleaved@.len() < self@.in_channels {
                law_subframe_push_is_void(self@, interleaved@, device_pts_ns);
            }
        }
        proof {
            reveal(NormalizerModel::pushed);
        }
        self.flushing = false;
        self.failure = None;
        let in_frames: usize = interleaved.len() / self.in_channels;
        if in_frames == 0 {
            return Step::Done(Ok(()));
        }
        self.primary.update_pts_anchor(self.total_inner_frames, device_pts_ns);
        match &mut self.secondary {
            None => {},
            Some(sec) => sec.update_pts_anchor(self.total_inner_frames, device_pts_ns),
        }
        let mut stereo: Vec<u32> = Vec::new();
        mix_to_stereo(interleaved, self.in_channels, in_frames, &mut stereo);
        assert(stereo@ =~= mixed(interleaved@, self.in_channels as int));
        match &mut self.stage1 {
            None => {
                self.total_inner_frames = count_up(self.total_inner_frames, in_frames as u64);
                self.inner_scratch = stereo;
                self.inner_complete()
            },
            Some(rs) => {
                rs.extend(stereo.as_slice());
                self.inner_scratch = Vec::new();
                self.produced = 0;
                self.drain_inner()
            },
        }
    }

    /// Answers the current step. Only a rate conversion can fail.
    pub fn advance(&mut self, outcome: Result<Vec<u32>, String>) -> (step: Step)
        requires
            old(self).wf(),
            !(old(self)@.phase is Idle),
            outcome is Err ==> old(self)@.resampling(),
        ensures
            final(self).wf(),
            final(self)@ == old(self)@.advanced(outcome_of(outcome)),
            step@ == final(self)@.step(),
    {
        match outcome {
            Ok(samples) => self.advance_with(samples),
            Err(message) => self.advance_failed(message),
        }
    }

    /// Takes one finished chunk of the primary output, with the device time of
    /// its first frame. `now_ns` is the time to give where nothing was pushed.
    pub fn pop_chunk(&mut self, now_ns: i64) -> (r: Option<(Vec<u32>, i64)>)
        requires
            old(self).wf(),
            old(self)@.phase is Idle,
        ensures
            final(self).wf(),
            !old(self)@.primary.has_chunk() ==> r is None && final(self)@ == old(self)@,
            old(self)@.primary.has_chunk() ==> {
                &&& r matches Some((chunk, pts))
                &&& chunk@ == old(self)@.primary.chunk()
                &&& pts == old(self)@.primary.pts_at(old(self)@.primary.origin, now_ns)
                &&& final(self)@ == (NormalizerModel {
                    primary: old(self)@.primary.popped(),
                    ..old(self)@
                })
            },
    {
        self.primary.pop(now_ns)
    }

    /// Takes one finished chunk of the secondary output; there is none without
    /// a secondary output.
    pub fn pop_secondary(&mut self, now_ns: i64) -> (r: Option<(Vec<u32>, i64)>)
        requires
            old(self).wf(),
            old(self)@.phase is Idle,
        ensures
            final(self).wf(),
            !(old(self)@.secondary matches Some(t) && t.has_chunk()) ==> r is None && final(self)@
                == old(self)@,
            (old(self)@.secondary matches Some(t) && t.has_chunk()) ==> {
                let t = old(self)@.secondary->0;
                &&& r matches Some((chunk, pts))
                &&& chunk@ == t.chunk()
                &&& pts == t.pts_at(t.origin, now_ns)
                &&& final(self)@ == (NormalizerModel { secondary: Some(t.popped()), ..old(self)@ })
            },
    {
        match &mut self.secondary {
            None => None,
            Some(sec) => sec.pop(now_ns),
        }
    }

    /// Ends the stream: takes the tail of the processor in, converts what is
    /// left over and brings both outputs to whole chunks. Failed conversions
    /// are passed over.
    pub fn flush(&mut self) -> (step: Step)
        requires
            old(self).wf(),
            old(self)@.phase is Idle,
        ensures
            final(self).wf(),
            final(self)@ == old(self)@.flushed(),
            step@ == final(self)@.step(),
    {
        proof {
            reveal(NormalizerModel::flushed);
        }
        self.flushing = true;
        self.failure = None;
        if self.has_processor {
            self.phase = Phase::Tail;
            Step::Tail
        } else {
            self.rest_primary()
        }
    }

    /// Frames of the primary output that have not been taken.
    pub fn buffered_out_frames(&self) -> (r: usize)
        requires
            self.wf(),
        ensures
            r == self@.primary.out.len() as int / self@.primary.channels(),
    {
        self.primary.buffered_out_frames()
    }

    fn advance_with(&mut self, samples: Vec<u32>) -> (step: Step)
        requires
            old(self).wf(),
            !(old(self)@.phase is Idle),
        ensures
            final(self).wf(),
            final(self)@ == old(self)@.advanced(Outcome::Samples(samples@)),
            step@ == final(self)@.step(),
    {
        proof {
            reveal(NormalizerModel::advanced);
        }
        match self.phase {
            Phase::Idle => Step::Done(Ok(())),
            Phase::Inner => {
                match &mut self.stage1 {
                    None => {},
                    Some(rs) => {
                        let frames: u64 = rs.drain_into(samples.as_slice(), &mut self.inner_scratch);
                        self.produced = count_up(self.produced, frames);
                    },
                }
                self.drain_inner()
            },
            Phase::Process => {
                self.inner_scratch = samples;
                self.distribute_inner()
            },
            Phase::Average => self.feed(samples.as_slice()),
            Phase::Primary => {
                self.primary.accept(samples.as_slice());
                self.drain_primary()
            },
            Phase::Secondary => {
                match &mut self.secondary {
                    None => {},
                    Some(sec) => sec.accept(samples.as_slice()),
                }
                self.drain_secondary()
            },
            Phase::Tail => {
                if samples.len() == 0 {
                    self.rest_primary()
                } else {
                    self.inner_scratch = samples;
                    self.distribute_inner()
                }
            },
            Phase::PrimaryRest => {
                self.primary.finish(samples.as_slice());
                self.primary.flush();
                self.rest_secondary()
            },
            Phase::SecondaryRest => {
                match &mut self.secondary {
                    None => {},
                    Some(sec) => {
                        sec.finish(samples.as_slice());
                        sec.flush();
                    },
                }
                self.end()
            },
        }
    }

    fn advance_failed(&mut self, message: String) -> (step: Step)
        requires
            old(self).wf(),
            old(self)@.resampling(),
        ensures
            final(self).wf(),
            final(self)@ == old(self)@.advanced(Outcome::Failed(message@)),
            step@ == final(self)@.step(),
    {
        proof {
            reveal(NormalizerModel::advanced);
        }
        match self.phase {
            Phase::Inner => {
                self.fail(message);
                self.inner_scratch = Vec::new();
                self.end()
            },
            Phase::Primary => {
                self.fail(message);
                self.drain_secondary()
            },
            Phase::Secondary => {
                self.fail(message);
                self.taps_fed()
            },
            Phase::PrimaryRest => {
                self.primary.flush();
                self.rest_secondary()
            },
            _ => {
                match &mut self.secondary {
                    None => {},
                    Some(sec) => sec.flush(),
                }
                self.end()
            },
        }
    }

    /// Keeps the first failure.
    fn fail(&mut self, message: String)
        requires
            old(self).parts_wf(),
        ensures
            final(self).parts_wf(),
            final(self)@ == old(self)@.failed(message@),
    {
        if self.failure.is_none() {
            self.failure = Some(Error::Backend(message));
        }
    }

    /// Ends the operation and gives its result.
    fn end(&mut self) -> (step: Step)
        requires
            old(self).parts_wf(),
        ensures
            final(self).wf(),
            final(self)@ == (NormalizerModel { phase: Phase::Idle, ..old(self)@ }),
            step@ == final(self)@.step(),
    {
        self.phase = Phase::Idle;
        match &self.failure {
            None => Step::Done(Ok(())),
            Some(e) => Step::Done(Err(e.duplicate())),
        }
    }

    /// Goes on with the next block of the first stage.
    fn drain_inner(&mut self) -> (step: Step)
        requires
            old(self).parts_wf(),
            old(self)@.stage1 is Some,
        ensures
            final(self).wf(),
            final(self)@ == old(self)@.drain_inner(),
            step@ == final(self)@.step(),
    {
        proof {
            reveal(NormalizerModel::drain_inner);
        }
        if let Some(rs) = &self.stage1 {
            if rs.is_ready() {
                let input = rs.block();
                self.phase = Phase::Inner;
                return Step::Resample { unit: Unit::Inner, input, partial: None };
            }
        }
        self.total_inner_frames = count_up(self.total_inner_frames, self.produced);
        self.inner_complete()
    }

    /// Goes on once the inner samples are complete.
    fn inner_complete(&mut self) -> (step: Step)
        requires
            old(self).parts_wf(),
        ensures
            final(self).wf(),
            final(self)@ == old(self)@.inner_complete(),
            step@ == final(self)@.step(),
    {
        proof {
            reveal(NormalizerModel::inner_complete);
        }
        if self.has_processor {
            self.phase = Phase::Process;
            Step::Process { samples: vstd::slice::slice_to_vec(self.inner_scratch.as_slice()) }
        } else {
            self.distribute_inner()
        }
    }

    /// Hands the inner samples to both taps.
    fn distribute_inner(&mut self) -> (step: Step)
        requires
            old(self).parts_wf(),
        ensures
            final(self).wf(),
            final(self)@ == old(self)@.distributed(),
            step@ == final(self)@.step(),
    {
        proof {
            reveal(NormalizerModel::distributed);
        }
        if self.inner_scratch.len() == 0 {
            return self.taps_fed();
        }
        let secondary_mono = match &self.secondary {
            None => false,
            Some(sec) => sec.is_mono(),
        };
        if self.primary.is_mono() || secondary_mono {
            self.phase = Phase::Average;
            Step::Average { samples: vstd::slice::slice_to_vec(self.inner_scratch.as_slice()) }
        } else {
            let none: Vec<u32> = Vec::new();
            self.feed(none.as_slice())
        }
    }

    /// Lets both taps take the inner samples in.
    fn feed(&mut self, averages: &[u32]) -> (step: Step)
        requires
            old(self).parts_wf(),
        ensures
            final(self).wf(),
            final(self)@ == old(self)@.fed(averages@),
            step@ == final(self)@.step(),
    {
        proof {
            reveal(NormalizerModel::fed);
        }
        let mut inner: Vec<u32> = Vec::new();
        std::mem::swap(&mut inner, &mut self.inner_scratch);
        self.primary.feed_inner(inner.as_slice(), averages);
        match &mut self.secondary {
            None => {},
            Some(sec) => sec.feed_inner(inner.as_slice(), averages),
        }
        self.drain_primary()
    }

    /// Goes on with the next block of the primary output.
    fn drain_primary(&mut self) -> (step: Step)
        requires
            old(self).parts_wf(),
        ensures
            final(self).wf(),
            final(self)@ == old(self)@.drain_primary(),
            step@ == final(self)@.step(),
    {
        proof {
            reveal(NormalizerModel::drain_primary);
        }
        if self.primary.is_ready() {
            let input = self.primary.block();
            self.phase = Phase::Primary;
            Step::Resample { unit: Unit::Primary, input, partial: None }
        } else {
            self.drain_secondary()
        }
    }

    /// Goes on with the next block of the secondary output.
    fn drain_secondary(&mut self) -> (step: Step)
        requires
            old(self).parts_wf(),
        ensures
            final(self).wf(),
            final(self)@ == old(self)@.drain_secondary(),
            step@ == final(self)@.step(),
    {
        proof {
            reveal(NormalizerModel::drain_secondary);
        }
        if let Some(sec) = &self.secondary {
            if sec.is_ready() {
                let input = sec.block();
                self.phase = Phase::Secondary;
                return Step::Resample { unit: Unit::Secondary, input, partial: None };
            }
        }
        self.taps_fed()
    }

    /// Goes on once the taps have taken everything.
    fn taps_fed(&mut self) -> (step: Step)
        requires
            old(self).parts_wf(),
        ensures
            final(self).wf(),
            final(self)@ == old(self)@.taps_fed(),
            step@ == final(self)@.step(),
    {
        proof {
            reveal(NormalizerModel::taps_fed);
        }
        if self.flushing {
            self.failure = None;
            self.rest_primary()
        } else {
            self.end()
        }
    }

    /// Converts what the primary output has left over.
    fn rest_primary(&mut self) -> (step: Step)
        requires
            old(self).parts_wf(),
        ensures
            final(self).wf(),
            final(self)@ == old(self)@.rest_primary(),
            step@ == final(self)@.step(),
    {
        proof {
            reveal(NormalizerModel::rest_primary);
        }
        let remaining: usize = self.primary.remaining();
        if remaining > 0 {
            proof {
                self@.primary.lemma_squared_waits();
            }
            self.primary.square();
            self.rest = remaining;
            self.phase = Phase::PrimaryRest;
            let input = self.primary.waiting();
            Step::Resample { unit: Unit::Primary, input, partial: Some(remaining) }
        } else {
            self.primary.flush();
            self.rest_secondary()
        }
    }

    /// Converts what the secondary output has left over.
    fn rest_secondary(&mut self) -> (step: Step)
        requires
            old(self).parts_wf(),
        ensures
            final(self).wf(),
            final(self)@ == old(self)@.rest_secondary(),
            step@ == final(self)@.step(),
    {
        proof {
            reveal(NormalizerModel::rest_secondary);
        }
        match &mut self.secondary {
            None => self.end(),
            Some(sec) => {
                let remaining: usize = sec.remaining();
                if remaining > 0 {
                    proof {
                        sec@.lemma_squared_waits();
                    }
                    sec.square();
                    let input = sec.waiting();
                    self.rest = remaining;
                    self.phase = Phase::SecondaryRest;
                    Step::Resample { unit: Unit::Secondary, input, partial: Some(remaining) }
                } else {
                    sec.flush();
                    self.end()
                }
            },
        }
    }
}

} // verus!
