//! What every delivered chunk looks like, and what a generation keeps.

use vstd::prelude::*;

use crate::intake::{
    lemma_supported_is_countable, normalizer_for, IntakeModel, IntakePhase, Joint, Lane,
};
use crate::intake_laws::IntakeEvent;
use crate::normalizer::lemma_default_block_is_countable;
use crate::normalizer_laws::{lemma_advance_keeps_wf, lemma_flush_begins, lemma_push_keeps_wf};
use crate::shared::SharedModel;
use crate::stream::IntakeSetup;
use crate::tap::{channels_of, chunk_frames_of, TapModel};
use crate::types::{ChunkView, OutputFormat, DEFAULT_CHUNK_MS};

verus! {

/// Whether a chunk holds the frames of one chunk duration in a format.
pub open spec fn fits_format(chunk: ChunkView, format: OutputFormat) -> bool {
    &&& chunk.frames == chunk_frames_of(format, DEFAULT_CHUNK_MS)
    &&& chunk.data.len() == chunk.frames * channels_of(format)
}

/// Whether the samples are those of one chunk in a format.
pub open spec fn fits_samples(data: Seq<u32>, format: OutputFormat) -> bool {
    data.len() == chunk_frames_of(format, DEFAULT_CHUNK_MS) * channels_of(format)
}

/// Whether the normalizer makes chunks of the intake's outputs, and the chunk in
/// work is one of them.
pub open spec fn is_shaped(m: IntakeModel) -> bool {
    let n = m.normalizer;
    &&& m.output.supported()
    &&& m.secondary_output matches Some(sec) ==> sec.supported()
    &&& n.wf()
    &&& n.primary.format == m.output
    &&& n.primary.chunk_ms == DEFAULT_CHUNK_MS
    &&& n.secondary is Some <==> m.secondary_output is Some
    &&& n.secondary matches Some(t) ==> t.format == m.secondary_output->0 && t.chunk_ms
        == DEFAULT_CHUNK_MS
    &&& m.phase is ScalePrimary || m.phase is MeasurePrimary ==> fits_samples(m.data, m.output)
    &&& m.phase is ScaleSecondary || m.phase is MeasureSecondary ==> m.secondary_output is Some
        && fits_samples(m.data, m.secondary_output->0)
}

/// Whether an event answers a multiplication with as many samples.
pub open spec fn keeps_length(j: Joint, ev: IntakeEvent) -> bool {
    ev matches IntakeEvent::Scaled { product } ==> product.len() == j.intake.data.len()
}

/// Whether all events of a history do.
pub open spec fn keep_lengths(j: Joint, evs: Seq<IntakeEvent>) -> bool
    decreases evs.len(),
{
    evs.len() > 0 ==> keep_lengths(j, evs.drop_last()) && keeps_length(
        j.trace(evs.drop_last()),
        evs.last(),
    )
}

proof fn lemma_fresh_tap(format: OutputFormat)
    requires
        format.supported(),
    ensures
        TapModel::fresh(format, DEFAULT_CHUNK_MS).wf(),
{
    lemma_supported_is_countable(format);
}

proof fn lemma_normalizer_for_is_wf(
    native: (u32, u16),
    output: OutputFormat,
    secondary_output: Option<OutputFormat>,
    denoise: bool,
)
    requires
        output.supported(),
        secondary_output matches Some(sec) ==> sec.supported(),
    ensures
        normalizer_for(native, output, secondary_output, denoise).wf(),
{
    lemma_fresh_tap(output);
    if let Some(sec) = secondary_output {
        lemma_fresh_tap(sec);
    }
    lemma_default_block_is_countable(native.0);
}

proof fn lemma_taking_keeps_tap(t: TapModel)
    requires
        t.wf(),
    ensures
        t.popped().wf(),
        t.popped().format == t.format,
        t.popped().chunk_ms == t.chunk_ms,
        t.discarded().wf(),
        t.discarded().format == t.format,
        t.discarded().chunk_ms == t.chunk_ms,
        t.discarded().stage == t.stage,
        t.has_chunk() ==> t.chunk().len() == t.need(),
    decreases t.out.len(),
{
    t.lemma_need_positive();
    if t.has_chunk() {
        lemma_taking_keeps_tap(t.popped());
    }
}

proof fn lemma_emission_is_shaped(j: Joint, now_ns: i64)
    requires
        is_shaped(IntakeModel { phase: IntakePhase::Idle, ..j.intake }),
    ensures
        is_shaped(j.next_secondary(now_ns).intake),
        is_shaped(j.next_primary(now_ns).intake),
        j.next_secondary(now_ns).intake.normalizer.same_setup(j.intake.normalizer),
        j.next_primary(now_ns).intake.normalizer.same_setup(j.intake.normalizer),
{
    reveal(Joint::next_secondary);
    reveal(Joint::next_primary);
    let n = j.intake.normalizer;
    lemma_taking_keeps_tap(n.primary);
    if let Some(t) = n.secondary {
        lemma_taking_keeps_tap(t);
    }
}

proof fn lemma_intake_is_shaped(j: Joint, now_ns: i64)
    requires
        is_shaped(IntakeModel { phase: IntakePhase::Idle, ..j.intake }),
    ensures
        is_shaped(j.flushing(now_ns).intake),
        is_shaped(j.taken_in(now_ns).intake),
        is_shaped(j.pushing(now_ns).intake),
        j.flushing(now_ns).intake.normalizer.same_setup(j.intake.normalizer),
        j.taken_in(now_ns).intake.normalizer.same_setup(j.intake.normalizer),
        j.pushing(now_ns).intake.normalizer.same_setup(j.intake.normalizer),
{
    reveal(Joint::flushing);
    reveal(Joint::taken_in);
    reveal(Joint::pushing);
    let n = j.intake.normalizer;
    lemma_flush_begins(n);
    n.lemma_flush_keeps_setup();
    lemma_emission_is_shaped(j, now_ns);
    let flushed = Joint {
        intake: IntakeModel { normalizer: n.flushed(), ..j.intake },
        ..j
    };
    lemma_emission_is_shaped(flushed, now_ns);
    let noted = Joint {
        intake: IntakeModel { produced: true, ..j.intake },
        shared: SharedModel { last_sample_ns: now_ns, ..j.shared },
    };
    lemma_emission_is_shaped(noted, now_ns);
    let noted_flushed = Joint {
        intake: IntakeModel { normalizer: n.flushed(), ..noted.intake },
        ..noted
    };
    lemma_emission_is_shaped(noted_flushed, now_ns);
}

/// Whether an event begins a new generation.
pub open spec fn begins_generation(j: Joint, ev: IntakeEvent) -> bool {
    ev is Tick && j.expects(ev) && j.shared.generation != j.intake.generation
}

proof fn lemma_event_is_shaped(j: Joint, ev: IntakeEvent)
    requires
        is_shaped(j.intake),
        keeps_length(j, ev),
    ensures
        is_shaped(j.after(ev).intake),
        j.after(ev).intake.output == j.intake.output,
        j.after(ev).intake.secondary_output == j.intake.secondary_output,
        !begins_generation(j, ev) ==> j.after(ev).intake.normalizer.same_setup(
            j.intake.normalizer,
        ),
{
    lemma_event_keeps_outputs(j, ev);
    if j.expects(ev) {
        match ev {
            IntakeEvent::Elsewhere(_) => {},
            IntakeEvent::Built(failure) => {},
            IntakeEvent::Tick => {
                lemma_normalizer_for_is_wf(
                    j.shared.native,
                    j.intake.output,
                    j.intake.secondary_output,
                    j.shared.denoise,
                );
            },
            IntakeEvent::Popped { samples, overflow, pts_ns, now_ns } => {
                reveal(Joint::popped);
                let looked = Joint { intake: j.intake.overflowed(overflow), ..j };
                lemma_intake_is_shaped(looked, now_ns);
                let n = looked.intake.normalizer;
                lemma_push_keeps_wf(n, samples, pts_ns);
                n.lemma_push_keeps_setup(samples, pts_ns);
                let pushed = Joint {
                    intake: IntakeModel {
                        normalizer: n.pushed(samples, pts_ns),
                        ..looked.intake
                    },
                    ..looked
                };
                lemma_intake_is_shaped(pushed, now_ns);
            },
            IntakeEvent::Normalized { outcome, now_ns } => {
                reveal(Joint::normalized);
                let n = j.intake.normalizer;
                lemma_advance_keeps_wf(n, outcome);
                n.lemma_advance_keeps_setup(outcome);
                let advanced = Joint {
                    intake: IntakeModel { normalizer: n.advanced(outcome), ..j.intake },
                    ..j
                };
                lemma_intake_is_shaped(advanced, now_ns);
            },
            IntakeEvent::Scaled { product } => {},
            IntakeEvent::Measured { rms, now_ns } => {
                reveal(Joint::measured);
                lemma_emission_is_shaped(j.cleared(rms), now_ns);
            },
        }
    }
}

proof fn lemma_emission_keeps_outputs(j: Joint, now_ns: i64)
    ensures
        j.next_secondary(now_ns).intake.output == j.intake.output,
        j.next_secondary(now_ns).intake.secondary_output == j.intake.secondary_output,
        j.next_primary(now_ns).intake.output == j.intake.output,
        j.next_primary(now_ns).intake.secondary_output == j.intake.secondary_output,
        j.flushing(now_ns).intake.output == j.intake.output,
        j.flushing(now_ns).intake.secondary_output == j.intake.secondary_output,
        j.taken_in(now_ns).intake.output == j.intake.output,
        j.taken_in(now_ns).intake.secondary_output == j.intake.secondary_output,
        j.pushing(now_ns).intake.output == j.intake.output,
        j.pushing(now_ns).intake.secondary_output == j.intake.secondary_output,
{
    reveal(Joint::next_secondary);
    reveal(Joint::next_primary);
    reveal(Joint::flushing);
    reveal(Joint::taken_in);
    reveal(Joint::pushing);
}

/// No event changes the formats of the outputs.
proof fn lemma_event_keeps_outputs(j: Joint, ev: IntakeEvent)
    ensures
        j.after(ev).intake.output == j.intake.output,
        j.after(ev).intake.secondary_output == j.intake.secondary_output,
{
    if j.expects(ev) {
        match ev {
            IntakeEvent::Built(failure) => {},
            IntakeEvent::Tick => {},
            IntakeEvent::Popped { samples, overflow, pts_ns, now_ns } => {
                reveal(Joint::popped);
                let looked = Joint { intake: j.intake.overflowed(overflow), ..j };
                lemma_emission_keeps_outputs(looked, now_ns);
                let pushed = Joint {
                    intake: IntakeModel {
                        normalizer: looked.intake.normalizer.pushed(samples, pts_ns),
                        ..looked.intake
                    },
                    ..looked
                };
                lemma_emission_keeps_outputs(pushed, now_ns);
            },
            IntakeEvent::Normalized { outcome, now_ns } => {
                reveal(Joint::normalized);
                let advanced = Joint {
                    intake: IntakeModel {
                        normalizer: j.intake.normalizer.advanced(outcome),
                        ..j.intake
                    },
                    ..j
                };
                lemma_emission_keeps_outputs(advanced, now_ns);
            },
            IntakeEvent::Measured { rms, now_ns } => {
                reveal(Joint::measured);
                reveal(Joint::next_primary);
                reveal(Joint::next_secondary);
            },
            _ => {},
        }
    }
}

/// Within a generation the setup is fixed: the device format, the outputs and
/// the processor change only with the next generation, so noise suppression
/// that is asked for in between waits for it.
pub proof fn law_setup_is_fixed_within_a_generation(j: Joint, ev: IntakeEvent)
    requires
        is_shaped(j.intake),
        keeps_length(j, ev),
    ensures
        !begins_generation(j, ev) ==> j.after(ev).intake.normalizer.same_setup(
            j.intake.normalizer,
        ),
        begins_generation(j, ev) ==> j.after(ev).intake.normalizer.processor == j.shared.denoise,
        j.after(ev).intake.output == j.intake.output,
        j.after(ev).intake.secondary_output == j.intake.secondary_output,
{
    lemma_event_is_shaped(j, ev);
}

/// A new intake makes chunks of its outputs, has numbered none and has not
/// started its clock.
pub proof fn law_fresh_intake_is_shaped(setup: IntakeSetup, shared: SharedModel)
    requires
        setup.output.supported(),
        setup.secondary_output matches Some(sec) ==> sec.supported(),
    ensures
        is_shaped(IntakeModel::fresh(setup, shared)),
        IntakeModel::fresh(setup, shared).primary == Lane::fresh(),
        IntakeModel::fresh(setup, shared).secondary == Lane::fresh(),
{
    lemma_normalizer_for_is_wf(
        setup.native_format,
        setup.output,
        setup.secondary_output,
        shared.denoise,
    );
}

/// Every delivered chunk, at any gain, in any generation and of either output,
/// lasts one chunk duration and holds its frames in the format of its output.
pub proof fn law_chunks_fit_their_output(j: Joint, evs: Seq<IntakeEvent>)
    requires
        is_shaped(j.intake),
        keep_lengths(j, evs),
    ensures
        is_shaped(j.trace(evs).intake),
        j.trace(evs).intake.output == j.intake.output,
        j.trace(evs).intake.secondary_output == j.intake.secondary_output,
        forall|i: int|
            0 <= i < j.primary_chunks(evs).len() ==> fits_format(
                #[trigger] j.primary_chunks(evs)[i],
                j.intake.output,
            ),
        forall|i: int|
            0 <= i < j.secondary_chunks(evs).len() ==> fits_format(
                #[trigger] j.secondary_chunks(evs)[i],
                j.intake.secondary_output->0,
            ),
    decreases evs.len(),
{
    if evs.len() > 0 {
        let front = evs.drop_last();
        let state = j.trace(front);
        law_chunks_fit_their_output(j, front);
        lemma_event_is_shaped(state, evs.last());
        if state.delivers_primary(evs.last()) {
            lemma_chunk_fits(state.delivered_chunk(evs.last()->rms), j.intake.output);
        }
        if state.delivers_secondary(evs.last()) {
            lemma_chunk_fits(state.delivered_chunk(evs.last()->rms), j.intake.secondary_output->0);
        }
        assert forall|i: int| 0 <= i < j.primary_chunks(evs).len() implies fits_format(
            #[trigger] j.primary_chunks(evs)[i],
            j.intake.output,
        ) by {
            if i < j.primary_chunks(front).len() {
                assert(j.primary_chunks(evs)[i] == j.primary_chunks(front)[i]);
            }
        }
        assert forall|i: int| 0 <= i < j.secondary_chunks(evs).len() implies fits_format(
            #[trigger] j.secondary_chunks(evs)[i],
            j.intake.secondary_output->0,
        ) by {
            if i < j.secondary_chunks(front).len() {
                assert(j.secondary_chunks(evs)[i] == j.secondary_chunks(front)[i]);
            }
        }
    }
}

proof fn lemma_chunk_fits(chunk: ChunkView, format: OutputFormat)
    requires
        format.supported(),
        fits_samples(chunk.data, format),
        chunk.frames == chunk.data.len() as int / channels_of(format),
    ensures
        fits_format(chunk, format),
{
    let frames = chunk_frames_of(format, DEFAULT_CHUNK_MS);
    vstd::arithmetic::div_mod::lemma_div_multiples_vanish(frames, channels_of(format));
    assert(channels_of(format) * frames == frames * channels_of(format)) by (nonlinear_arith);
}

} // verus!
