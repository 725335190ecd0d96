//! The bookkeeping around one sample rate conversion.
//!
//! The conversion itself works on blocks of a fixed number of input frames and
//! is floating point throughout, so it is done by the caller. What is kept
//! here is the input that waits for a whole block, when a block is due, and
//! where the output of a block goes.

use vstd::prelude::*;

use crate::frames::{resize_with_silence, resized};
use crate::types::{frames_fitting, frames_for};

verus! {

/// Fewest frames in a block.
pub const MIN_BLOCK_FRAMES: usize = 64;

/// What a rate conversion has to be built for.
#[derive(Clone, Copy, Debug, PartialEq, Eq, Structural)]
pub struct ResamplerPlan {
    /// Rate of the input.
    pub in_rate: u32,
    /// Rate of the output.
    pub out_rate: u32,
    /// Samples per frame.
    pub channels: usize,
    /// Frames that each block of input holds.
    pub chunk_in_frames: usize,
}

/// Frames in a block for a chunk duration.
pub open spec fn block_frames(in_rate: int, chunk_ms: int) -> int {
    if frames_fitting(in_rate, chunk_ms) < MIN_BLOCK_FRAMES {
        MIN_BLOCK_FRAMES as int
    } else {
        frames_fitting(in_rate, chunk_ms)
    }
}

/// Counts the frames in a block.
pub fn block_frames_of(in_rate: u32, chunk_ms: u32) -> (r: usize)
    ensures
        r == block_frames(in_rate as int, chunk_ms as int),
{
    let wanted: usize = frames_for(in_rate, chunk_ms);
    if wanted < MIN_BLOCK_FRAMES {
        MIN_BLOCK_FRAMES
    } else {
        wanted
    }
}

impl ResamplerPlan {
    /// Samples in a block.
    pub open spec fn step(self) -> int {
        self.chunk_in_frames * self.channels
    }

    /// Blocks are not empty and their samples can be counted.
    pub open spec fn wf(self) -> bool {
        &&& self.channels > 0
        &&& self.chunk_in_frames > 0
        &&& self.step() <= usize::MAX
    }

    /// The plan of a conversion for a chunk duration.
    pub open spec fn planned(in_rate: u32, out_rate: u32, channels: usize, chunk_ms: u32) -> Self {
        ResamplerPlan {
            in_rate,
            out_rate,
            channels,
            chunk_in_frames: block_frames(in_rate as int, chunk_ms as int) as usize,
        }
    }

    /// A block is not empty.
    pub proof fn lemma_step_positive(self)
        requires
            self.wf(),
        ensures
            self.step() > 0,
    {
        assert(self.chunk_in_frames * self.channels > 0) by (nonlinear_arith)
            requires
                self.chunk_in_frames > 0,
                self.channels > 0,
        ;
    }
}

/// Contents of a [`ResamplerState`].
#[verifier::ext_equal]
pub struct ResamplerModel {
    pub plan: ResamplerPlan,
    /// Input that has not been handed out yet.
    pub pending: Seq<u32>,
}

impl ResamplerModel {
    pub open spec fn wf(self) -> bool {
        self.plan.wf()
    }

    /// Whether a whole block is waiting.
    pub open spec fn ready(self) -> bool {
        self.pending.len() >= self.plan.step()
    }

    /// The block that is due.
    pub open spec fn block(self) -> Seq<u32> {
        self.pending.take(self.plan.step())
    }

    /// With more input waiting.
    pub open spec fn extended(self, samples: Seq<u32>) -> Self {
        ResamplerModel { pending: self.pending + samples, ..self }
    }

    /// With the block that was due taken away.
    pub open spec fn consumed(self) -> Self {
        ResamplerModel { pending: self.pending.skip(self.plan.step()), ..self }
    }

    /// Whole frames that are waiting.
    pub open spec fn remaining(self) -> int {
        self.pending.len() as int / self.plan.channels as int
    }

    /// With the waiting input brought to one block.
    pub open spec fn squared(self) -> Self {
        ResamplerModel { pending: resized(self.pending, self.plan.step() as nat), ..self }
    }

    /// With nothing waiting.
    pub open spec fn cleared(self) -> Self {
        ResamplerModel { pending: Seq::empty(), ..self }
    }
}

/// The input side of one rate conversion.
#[derive(Debug)]
pub struct ResamplerState {
    plan: ResamplerPlan,
    in_accum: Vec<u32>,
}

impl View for ResamplerState {
    type V = ResamplerModel;

    closed spec fn view(&self) -> ResamplerModel {
        ResamplerModel { plan: self.plan, pending: self.in_accum@ }
    }
}

impl ResamplerState {
    /// Prepares a conversion of `channels` channels from `in_sr` to `out_sr`,
    /// in blocks of the chunk duration but of [`MIN_BLOCK_FRAMES`] at least.
    pub fn new(in_sr: u32, out_sr: u32, channels: usize, chunk_ms: u32) -> (r: Self)
        requires
            channels > 0,
            block_frames(in_sr as int, chunk_ms as int) * channels <= usize::MAX,
        ensures
            r@ == (ResamplerModel {
                plan: ResamplerPlan::planned(in_sr, out_sr, channels, chunk_ms),
                pending: Seq::empty(),
            }),
            r@.wf(),
            r@.plan.in_rate == in_sr,
            r@.plan.out_rate == out_sr,
            r@.plan.channels == channels,
            r@.plan.chunk_in_frames == block_frames(in_sr as int, chunk_ms as int),
            r@.pending.len() == 0,
    {
        let chunk_in_frames: usize = block_frames_of(in_sr, chunk_ms);
        let plan = ResamplerPlan { in_rate: in_sr, out_rate: out_sr, channels, chunk_in_frames };
        ResamplerState { plan, in_accum: Vec::new() }
    }

    /// What the conversion has to be built for.
    pub fn plan(&self) -> (r: ResamplerPlan)
        ensures
            r == self@.plan,
    {
        self.plan
    }

    /// Adds input.
    pub fn extend(&mut self, samples: &[u32])
        ensures
            final(self)@ == old(self)@.extended(samples@),
    {
        let ghost before = self.in_accum@;
        self.in_accum.extend_from_slice(samples);
        assert(self.in_accum@ =~= before + samples@);
    }

    /// Decides whether a whole block is waiting.
    pub fn is_ready(&self) -> (r: bool)
        requires
            self@.wf(),
        ensures
            r == self@.ready(),
    {
        self.in_accum.len() >= self.plan.chunk_in_frames * self.plan.channels
    }

    /// The block that is due.
    pub fn block(&self) -> (r: Vec<u32>)
        requires
            self@.wf(),
            self@.ready(),
        ensures
            r@ == self@.block(),
    {
        proof {
            self.plan.lemma_step_positive();
        }
        let step: usize = self.plan.chunk_in_frames * self.plan.channels;
        vstd::slice::slice_to_vec(
            vstd::slice::slice_subrange(self.in_accum.as_slice(), 0, step),
        )
    }

    /// Everything that is waiting.
    pub fn waiting(&self) -> (r: Vec<u32>)
        ensures
            r@ == self@.pending,
    {
        vstd::slice::slice_to_vec(self.in_accum.as_slice())
    }

    /// Takes the converted block into `out_buf`: `output` is what the block
    /// that was due has become. Returns its frames.
    pub fn drain_into(&mut self, output: &[u32], out_buf: &mut Vec<u32>) -> (r: u64)
        requires
            old(self)@.wf(),
            old(self)@.ready(),
        ensures
            final(self)@ == old(self)@.consumed(),
            final(out_buf)@ == old(out_buf)@ + output@,
            r == output@.len() as int / old(self)@.plan.channels as int,
    {
        proof {
            self.plan.lemma_step_positive();
        }
        let ghost before = out_buf@;
        let step: usize = self.plan.chunk_in_frames * self.plan.channels;
        out_buf.extend_from_slice(output);
        assert(out_buf@ =~= before + output@);
        self.in_accum = self.in_accum.split_off(step);
        assert(self@.pending =~= old(self)@.consumed().pending);
        (output.len() / self.plan.channels) as u64
    }

    /// Decides whether frames are left over.
    pub fn remaining(&self) -> (r: usize)
        requires
            self@.wf(),
        ensures
            r == self@.remaining(),
    {
        self.in_accum.len() / self.plan.channels
    }

    /// Brings the rest of the input to one block, silence behind it.
    pub fn square(&mut self)
        requires
            old(self)@.wf(),
        ensures
            final(self)@ == old(self)@.squared(),
    {
        proof {
            self.plan.lemma_step_positive();
        }
        let step: usize = self.plan.chunk_in_frames * self.plan.channels;
        resize_with_silence(&mut self.in_accum, step);
    }

    /// Takes the converted rest into `out_buf`. No frame waits afterwards. Where
    /// none did before, nothing happens. Returns the frames taken.
    pub fn flush_into(&mut self, output: &[u32], out_buf: &mut Vec<u32>) -> (r: u64)
        requires
            old(self)@.wf(),
        ensures
            old(self)@.remaining() == 0 ==> {
                &&& final(self)@ == old(self)@
                &&& final(out_buf)@ == old(out_buf)@
                &&& r == 0
            },
            old(self)@.remaining() > 0 ==> {
                &&& final(self)@ == old(self)@.cleared()
                &&& final(out_buf)@ == old(out_buf)@ + output@
                &&& r == output@.len() as int / old(self)@.plan.channels as int
            },
            final(self)@.remaining() == 0,
            old(self)@.pending.len() as int % old(self)@.plan.channels as int == 0
                ==> final(self)@.pending.len() == 0,
    {
        if self.remaining() == 0 {
            proof {
                vstd::arithmetic::div_mod::lemma_fundamental_div_mod(
                    self@.pending.len() as int,
                    self@.plan.channels as int,
                );
            }
            return 0;
        }
        let ghost before = out_buf@;
        out_buf.extend_from_slice(output);
        assert(out_buf@ =~= before + output@);
        self.in_accum.clear();
        proof {
            law_flushed_rest_is_gone(self@);
        }
        (output.len() / self.plan.channels) as u64
    }
}

/// After a flush no frame waits, so a second one converts nothing.
pub proof fn law_flushed_rest_is_gone(m: ResamplerModel)
    requires
        m.wf(),
    ensures
        m.cleared().remaining() == 0,
{
    assert(0int / (m.plan.channels as int) == 0) by (nonlinear_arith)
        requires
            m.plan.channels > 0,
    ;
}

/// Input brought to one block waits as the frames of a block.
pub proof fn lemma_squared_remaining(m: ResamplerModel)
    requires
        m.wf(),
    ensures
        m.squared().pending.len() == m.plan.step(),
        m.squared().remaining() == m.plan.chunk_in_frames,
{
    m.plan.lemma_step_positive();
    vstd::arithmetic::div_mod::lemma_div_multiples_vanish(
        m.plan.chunk_in_frames as int,
        m.plan.channels as int,
    );
    assert(m.plan.channels * m.plan.chunk_in_frames == m.plan.step()) by (nonlinear_arith)
        requires
            m.plan.step() == m.plan.chunk_in_frames * m.plan.channels,
    ;
}

/// Handing out a block loses and repeats nothing: the block and what still
/// waits are the input that waited before.
pub proof fn law_block_partitions_pending(m: ResamplerModel)
    requires
        m.wf(),
        m.ready(),
    ensures
        m.block() + m.consumed().pending == m.pending,
        m.block().len() == m.plan.step(),
{
    m.plan.lemma_step_positive();
    assert(m.block() + m.consumed().pending =~= m.pending);
}

/// The blocks do not depend on how the input is cut: input that arrives behind
/// a block that is due changes neither the block nor what waits in front.
pub proof fn law_later_input_keeps_block(m: ResamplerModel, more: Seq<u32>)
    requires
        m.wf(),
        m.ready(),
    ensures
        m.extended(more).ready(),
        m.extended(more).block() == m.block(),
        m.extended(more).consumed() == m.consumed().extended(more),
{
    m.plan.lemma_step_positive();
    assert(m.extended(more).block() =~= m.block());
    assert(m.extended(more).consumed().pending =~= m.consumed().extended(more).pending);
}

} // verus!
