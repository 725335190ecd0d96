//! That the division of the input among pushes does not matter.

use vstd::prelude::*;

use crate::arith::saturate_count;
use crate::frames::{converted, law_mix_of_parts, mixed};
use crate::normalizer::{NormalizerModel, Outcome, Phase, StepModel, Unit};
use crate::normalizer_laws::{is_settled, lemma_push_begins, lemma_step_settles, push_holds};
use crate::progress_laws::{law_answers_make_progress, phase_rank, work_waiting};
use crate::resampler::ResamplerModel;
use crate::tap::{StageModel, TapModel};

verus! {

/// Rate conversions that answer each block by the blocks they have been handed
/// so far, and the average of two samples.
pub struct Converters {
    pub inner: spec_fn(Seq<Seq<u32>>) -> Seq<u32>,
    pub primary: spec_fn(Seq<Seq<u32>>) -> Seq<u32>,
    pub secondary: spec_fn(Seq<Seq<u32>>) -> Seq<u32>,
    pub mean: spec_fn(u32, u32) -> u32,
}

impl Converters {
    /// The first stage gives whole stereo frames.
    pub open spec fn wf(self) -> bool {
        forall|blocks: Seq<Seq<u32>>| (#[trigger] (self.inner)(blocks)).len() % 2 == 0
    }
}

/// The blocks that each conversion has been handed.
#[verifier::ext_equal]
pub struct Handed {
    pub inner: Seq<Seq<u32>>,
    pub primary: Seq<Seq<u32>>,
    pub secondary: Seq<Seq<u32>>,
}

/// A normalizer at work, and the blocks that it has handed out.
#[verifier::ext_equal]
pub struct Work {
    pub m: NormalizerModel,
    pub handed: Handed,
}

impl Work {
    /// With a push begun.
    pub open spec fn pushed(self, samples: Seq<u32>, pts_ns: i64) -> Self {
        Work { m: self.m.pushed(samples, pts_ns), ..self }
    }
}

/// The averages of the stereo frames of `inner`.
pub open spec fn means(mean: spec_fn(u32, u32) -> u32, inner: Seq<u32>) -> Seq<u32> {
    Seq::new((inner.len() as int / 2) as nat, |i: int| mean(inner[2 * i], inner[2 * i + 1]))
}

/// The work goes on with the answer to its step.
pub open spec fn answered(c: Converters, w: Work) -> Work {
    match w.m.step() {
        StepModel::Resample { unit, input, .. } => match unit {
            Unit::Inner => {
                let blocks = w.handed.inner.push(input);
                Work {
                    m: w.m.advanced(Outcome::Samples((c.inner)(blocks))),
                    handed: Handed { inner: blocks, ..w.handed },
                }
            },
            Unit::Primary => {
                let blocks = w.handed.primary.push(input);
                Work {
                    m: w.m.advanced(Outcome::Samples((c.primary)(blocks))),
                    handed: Handed { primary: blocks, ..w.handed },
                }
            },
            Unit::Secondary => {
                let blocks = w.handed.secondary.push(input);
                Work {
                    m: w.m.advanced(Outcome::Samples((c.secondary)(blocks))),
                    handed: Handed { secondary: blocks, ..w.handed },
                }
            },
        },
        StepModel::Average { samples } => Work {
            m: w.m.advanced(Outcome::Samples(means(c.mean, samples))),
            ..w
        },
        _ => w,
    }
}

/// The work after `n` answers.
pub open spec fn worked(c: Converters, w: Work, n: nat) -> Work
    decreases n,
{
    if n == 0 {
        w
    } else {
        answered(c, worked(c, w, (n - 1) as nat))
    }
}

/// A tap without its anchor.
pub open spec fn unanchored(t: TapModel) -> TapModel {
    TapModel { anchor: None, ..t }
}

/// What the work has come to: the input that waits, the outputs, and the blocks
/// that have been handed out.
#[verifier::ext_equal]
pub struct Ends {
    pub stage1: Option<ResamplerModel>,
    pub primary: TapModel,
    pub secondary: Option<TapModel>,
    pub handed: Handed,
}

/// What a work has come to.
pub open spec fn ends_of(w: Work) -> Ends {
    Ends {
        stage1: w.m.stage1,
        primary: unanchored(w.m.primary),
        secondary: match w.m.secondary {
            None => None,
            Some(t) => Some(unanchored(t)),
        },
        handed: w.handed,
    }
}

/// A conversion, the blocks that it has been handed, and its output.
#[verifier::ext_equal]
struct Drain {
    r: ResamplerModel,
    blocks: Seq<Seq<u32>>,
    out: Seq<u32>,
}

/// With every block that is due converted.
spec fn drained(f: spec_fn(Seq<Seq<u32>>) -> Seq<u32>, d: Drain) -> Drain
    decreases d.r.pending.len(),
{
    if d.r.plan.step() > 0 && d.r.ready() {
        let blocks = d.blocks.push(d.r.block());
        drained(f, Drain { r: d.r.consumed(), blocks, out: d.out + f(blocks) })
    } else {
        d
    }
}

/// Input that comes later changes nothing of the blocks before it.
proof fn lemma_drained_in_parts(
    f: spec_fn(Seq<Seq<u32>>) -> Seq<u32>,
    d: Drain,
    more: Seq<u32>,
)
    requires
        d.r.plan.step() > 0,
    ensures
        drained(f, Drain { r: d.r.extended(more), ..d }) == drained(
            f,
            Drain { r: drained(f, d).r.extended(more), ..drained(f, d) },
        ),
    decreases d.r.pending.len(),
{
    if d.r.ready() {
        let step = d.r.plan.step();
        let blocks = d.blocks.push(d.r.block());
        let next = Drain { r: d.r.consumed(), blocks, out: d.out + f(blocks) };
        lemma_drained_in_parts(f, next, more);
        let longer = Drain { r: d.r.extended(more), ..d };
        assert(longer.r.block() =~= d.r.block());
        assert(longer.r.consumed() =~= next.r.extended(more)) by {
            assert((d.r.pending + more).skip(step) =~= d.r.pending.skip(step) + more);
        }
        assert(drained(f, longer) == drained(f, Drain { r: next.r.extended(more), ..next }));
        assert(drained(f, d) == drained(f, next));
    }
}

/// Output that was there before stays in front, and a conversion keeps its plan.
proof fn lemma_drained_behind(
    f: spec_fn(Seq<Seq<u32>>) -> Seq<u32>,
    d: Drain,
    before: Seq<u32>,
)
    ensures
        drained(f, Drain { out: before + d.out, ..d }) == (Drain {
            out: before + drained(f, d).out,
            ..drained(f, d)
        }),
        drained(f, d).r.plan == d.r.plan,
    decreases d.r.pending.len(),
{
    if d.r.plan.step() > 0 && d.r.ready() {
        let blocks = d.blocks.push(d.r.block());
        let next = Drain { r: d.r.consumed(), blocks, out: d.out + f(blocks) };
        lemma_drained_behind(f, next, before);
        assert((before + d.out) + f(blocks) =~= before + next.out);
    }
}

/// Whole frames stay whole frames.
proof fn lemma_drained_is_even(f: spec_fn(Seq<Seq<u32>>) -> Seq<u32>, d: Drain)
    requires
        forall|blocks: Seq<Seq<u32>>| (#[trigger] f(blocks)).len() % 2 == 0,
        d.out.len() % 2 == 0,
    ensures
        drained(f, d).out.len() % 2 == 0,
    decreases d.r.pending.len(),
{
    if d.r.plan.step() > 0 && d.r.ready() {
        let blocks = d.blocks.push(d.r.block());
        assert(f(blocks).len() % 2 == 0);
        lemma_drained_is_even(f, Drain { r: d.r.consumed(), blocks, out: d.out + f(blocks) });
    }
}

/// A tap, and the blocks that its conversion has been handed.
#[verifier::ext_equal]
struct TapWork {
    tap: TapModel,
    blocks: Seq<Seq<u32>>,
}

/// With every block that is due converted.
spec fn tap_drained(f: spec_fn(Seq<Seq<u32>>) -> Seq<u32>, t: TapWork) -> TapWork {
    match t.tap.stage {
        StageModel::Resample(r) => {
            let d = drained(f, Drain { r, blocks: t.blocks, out: t.tap.out });
            TapWork {
                tap: TapModel { stage: StageModel::Resample(d.r), out: d.out, ..t.tap },
                blocks: d.blocks,
            }
        },
        _ => t,
    }
}

/// With inner samples taken in and every block that is then due converted.
spec fn tap_fed(
    f: spec_fn(Seq<Seq<u32>>) -> Seq<u32>,
    mean: spec_fn(u32, u32) -> u32,
    t: TapWork,
    inner: Seq<u32>,
) -> TapWork {
    tap_drained(f, TapWork { tap: t.tap.fed(inner, means(mean, inner)), ..t })
}

/// Channels are converted frame by frame.
proof fn lemma_converted_in_parts(
    mean: spec_fn(u32, u32) -> u32,
    x: Seq<u32>,
    y: Seq<u32>,
    ch: int,
)
    requires
        x.len() % 2 == 0,
        y.len() % 2 == 0,
        ch > 0,
    ensures
        converted(x + y, means(mean, x + y), ch) == converted(x, means(mean, x), ch) + converted(
            y,
            means(mean, y),
            ch,
        ),
        converted(x, means(mean, x), ch).len() == (x.len() as int / 2) * ch,
{
    let k = x.len() as int / 2;
    let n = y.len() as int / 2;
    let whole = converted(x + y, means(mean, x + y), ch);
    let parts = converted(x, means(mean, x), ch) + converted(y, means(mean, y), ch);
    assert((x + y).len() as int / 2 == k + n);
    if ch == 1 {
        assert(whole =~= parts);
    } else if ch == 2 {
        assert(whole =~= parts);
    } else {
        assert((k + n) * ch == k * ch + n * ch) by (nonlinear_arith);
        assert(0 <= k * ch && 0 <= n * ch) by (nonlinear_arith)
            requires
                k >= 0,
                n >= 0,
                ch > 0,
        ;
        assert forall|i: int| 0 <= i < whole.len() implies whole[i] == parts[i] by {
            if i < k * ch {
                assert(0 <= i / ch < k) by (nonlinear_arith)
                    requires
                        0 <= i < k * ch,
                        ch > 0,
                ;
            } else {
                let j = i - k * ch;
                vstd::arithmetic::div_mod::lemma_hoist_over_denominator(j, k, ch as nat);
                assert(0 <= j / ch < n) by (nonlinear_arith)
                    requires
                        0 <= j < n * ch,
                        ch > 0,
                ;
            }
        }
        assert(whole =~= parts);
    }
}

/// A tap does not notice how its inner samples are divided.
proof fn lemma_tap_in_parts(
    f: spec_fn(Seq<Seq<u32>>) -> Seq<u32>,
    mean: spec_fn(u32, u32) -> u32,
    t: TapWork,
    x: Seq<u32>,
    y: Seq<u32>,
)
    requires
        t.tap.wf(),
        x.len() % 2 == 0,
        y.len() % 2 == 0,
    ensures
        tap_fed(f, mean, tap_fed(f, mean, t, x), y) == tap_fed(f, mean, t, x + y),
{
    t.tap.lemma_need_positive();
    let ch = t.tap.channels();
    lemma_converted_in_parts(mean, x, y, ch);
    lemma_converted_in_parts(mean, Seq::empty(), Seq::empty(), ch);
    let a = converted(x, means(mean, x), ch);
    let b = converted(y, means(mean, y), ch);
    if x.len() < 2 {
        assert(x =~= Seq::empty());
        assert(x + y =~= y);
        assert(a.len() == 0) by (nonlinear_arith)
            requires
                a.len() == (x.len() as int / 2) * ch,
                x.len() == 0,
        ;
    }
    if y.len() < 2 {
        assert(y =~= Seq::empty());
        assert(x + y =~= x);
        lemma_converted_in_parts(mean, y, y, ch);
        assert(b.len() == 0) by (nonlinear_arith)
            requires
                b.len() == (y.len() as int / 2) * ch,
                y.len() == 0,
        ;
    }
    match t.tap.stage {
        StageModel::Passthrough => {
            assert((t.tap.out + x) + y =~= t.tap.out + (x + y));
        },
        StageModel::Convert => {
            assert((t.tap.out + a) + b =~= t.tap.out + (a + b));
            assert(t.tap.out + a =~= t.tap.out || a.len() > 0);
        },
        StageModel::Resample(r) => {
            r.plan.lemma_step_positive();
            let first = Drain { r: r.extended(a), blocks: t.blocks, out: t.tap.out };
            lemma_drained_in_parts(f, first, b);
            lemma_drained_behind(f, first, Seq::empty());
            let end = drained(f, first);
            assert((r.pending + a) + b =~= r.pending + (a + b));
            assert(first.r.extended(b) =~= r.extended(a + b));
            assert(a.len() == 0 ==> r.pending + a =~= r.pending);
            assert(b.len() == 0 ==> end.r.pending + b =~= end.r.pending);
            assert(a.len() == 0 ==> r.extended(a) =~= r);
            assert(b.len() == 0 ==> end.r.extended(b) =~= end.r);
            assert(tap_fed(f, mean, t, x) == (TapWork {
                tap: TapModel { stage: StageModel::Resample(end.r), out: end.out, ..t.tap },
                blocks: end.blocks,
            }));
        },
    }
}

/// Where no inner samples come, only the blocks that are due are converted.
proof fn lemma_tap_fed_nothing(
    f: spec_fn(Seq<Seq<u32>>) -> Seq<u32>,
    mean: spec_fn(u32, u32) -> u32,
    t: TapWork,
    inner: Seq<u32>,
)
    requires
        inner.len() == 0,
    ensures
        tap_fed(f, mean, t, inner) == tap_drained(f, t),
        !t.tap.ready() ==> tap_fed(f, mean, t, inner) == t,
{
    assert(t.tap.out + inner =~= t.tap.out);
}

/// The taps take inner samples in.
spec fn inner_fed(c: Converters, e: Ends, inner: Seq<u32>) -> Ends {
    let p = tap_fed(
        c.primary,
        c.mean,
        TapWork { tap: e.primary, blocks: e.handed.primary },
        inner,
    );
    match e.secondary {
        None => Ends {
            primary: p.tap,
            handed: Handed { primary: p.blocks, ..e.handed },
            ..e
        },
        Some(t) => {
            let s = tap_fed(
                c.secondary,
                c.mean,
                TapWork { tap: t, blocks: e.handed.secondary },
                inner,
            );
            Ends {
                primary: p.tap,
                secondary: Some(s.tap),
                handed: Handed { primary: p.blocks, secondary: s.blocks, ..e.handed },
                ..e
            }
        },
    }
}

/// The first stage converts the blocks that are due behind the inner samples
/// that it has made, and the taps take the whole in.
spec fn stage_done(c: Converters, e: Ends, made: Seq<u32>) -> Ends {
    match e.stage1 {
        None => inner_fed(c, e, made),
        Some(r) => {
            let d = drained(c.inner, Drain { r, blocks: e.handed.inner, out: made });
            inner_fed(
                c,
                Ends {
                    stage1: Some(d.r),
                    handed: Handed { inner: d.blocks, ..e.handed },
                    ..e
                },
                d.out,
            )
        },
    }
}

/// What a push of the stereo frames `x` comes to.
spec fn taken(c: Converters, e: Ends, x: Seq<u32>) -> Ends {
    match e.stage1 {
        None => inner_fed(c, e, x),
        Some(r) => stage_done(c, Ends { stage1: Some(r.extended(x)), ..e }, Seq::empty()),
    }
}

/// What the work will have come to.
spec fn completed(c: Converters, w: Work) -> Ends {
    stage_done(
        c,
        ends_of(w),
        if w.m.phase is Inner || w.m.phase is Average {
            w.m.inner
        } else {
            Seq::empty()
        },
    )
}

/// The parts fit together.
spec fn ends_wf(e: Ends) -> bool {
    &&& e.primary.wf()
    &&& e.secondary matches Some(t) ==> t.wf()
    &&& e.stage1 matches Some(r) ==> r.wf()
}

proof fn lemma_inner_in_parts(c: Converters, e: Ends, x: Seq<u32>, y: Seq<u32>)
    requires
        ends_wf(e),
        x.len() % 2 == 0,
        y.len() % 2 == 0,
    ensures
        inner_fed(c, inner_fed(c, e, x), y) == inner_fed(c, e, x + y),
{
    lemma_tap_in_parts(
        c.primary,
        c.mean,
        TapWork { tap: e.primary, blocks: e.handed.primary },
        x,
        y,
    );
    if let Some(t) = e.secondary {
        lemma_tap_in_parts(
            c.secondary,
            c.mean,
            TapWork { tap: t, blocks: e.handed.secondary },
            x,
            y,
        );
    }
}

proof fn lemma_taken_in_parts(c: Converters, e: Ends, x: Seq<u32>, y: Seq<u32>)
    requires
        c.wf(),
        ends_wf(e),
        x.len() % 2 == 0,
        y.len() % 2 == 0,
    ensures
        taken(c, taken(c, e, x), y) == taken(c, e, x + y),
{
    match e.stage1 {
        None => {
            lemma_inner_in_parts(c, e, x, y);
        },
        Some(r) => {
            r.plan.lemma_step_positive();
            let none = Seq::<u32>::empty();
            let d1 = Drain { r: r.extended(x), blocks: e.handed.inner, out: none };
            let e1 = drained(c.inner, d1);
            lemma_drained_behind(c.inner, d1, none);
            lemma_drained_is_even(c.inner, d1);
            let d2 = Drain { r: e1.r.extended(y), blocks: e1.blocks, out: none };
            let e2 = drained(c.inner, d2);
            lemma_drained_behind(c.inner, d2, e1.out);
            lemma_drained_is_even(c.inner, d2);
            assert(e1.out + none =~= e1.out);
            let d3 = Drain { r: r.extended(x + y), blocks: e.handed.inner, out: none };
            lemma_drained_in_parts(c.inner, d1, y);
            assert((r.pending + x) + y =~= r.pending + (x + y));
            assert(d1.r.extended(y) =~= d3.r);
            let e3 = drained(c.inner, d3);
            assert(e3 == (Drain { out: e1.out + e2.out, ..e2 }));
            let start = Ends {
                stage1: Some(e2.r),
                handed: Handed { inner: e2.blocks, ..e.handed },
                ..e
            };
            lemma_inner_in_parts(c, start, e1.out, e2.out);
            let middle = Ends {
                stage1: Some(e1.r),
                handed: Handed { inner: e1.blocks, ..e.handed },
                ..e
            };
            assert(taken(c, e, x) == inner_fed(c, middle, e1.out));
            let half = inner_fed(c, middle, e1.out);
            let later = Ends {
                stage1: Some(e2.r),
                handed: Handed { inner: e2.blocks, ..half.handed },
                ..half
            };
            assert(taken(c, half, y) == inner_fed(c, later, e2.out));
            assert(later == inner_fed(c, start, e1.out));
        },
    }
}

/// Feeding nothing leaves only what is due.
proof fn lemma_fed_nothing(c: Converters, e: Ends, inner: Seq<u32>)
    requires
        inner.len() == 0,
    ensures
        inner_fed(c, e, inner) == inner_fed(c, e, Seq::empty()),
        !e.primary.ready() && (e.secondary matches Some(t) ==> !t.ready()) ==> inner_fed(
            c,
            e,
            inner,
        ) == e,
{
    assert(inner =~= Seq::empty());
    lemma_tap_fed_nothing(
        c.primary,
        c.mean,
        TapWork { tap: e.primary, blocks: e.handed.primary },
        inner,
    );
    if let Some(t) = e.secondary {
        lemma_tap_fed_nothing(
            c.secondary,
            c.mean,
            TapWork { tap: t, blocks: e.handed.secondary },
            inner,
        );
    }
}

/// What waits at the first stage is less than a block.
spec fn first_waits(m: NormalizerModel) -> bool {
    m.stage1 matches Some(r) ==> !r.ready()
}

/// A push without a processor runs, and nothing has failed.
spec fn runs(m: NormalizerModel) -> bool {
    &&& !m.flushing
    &&& !m.processor
    &&& !(m.phase is Process)
    &&& m.failure is None
}

proof fn lemma_drain_completes(c: Converters, m: NormalizerModel, handed: Handed)
    requires
        runs(m),
        first_waits(m),
    ensures
        runs(m.drain_primary()),
        runs(m.drain_secondary()),
        completed(c, Work { m: m.drain_primary(), handed }) == inner_fed(
            c,
            ends_of(Work { m, handed }),
            Seq::empty(),
        ),
        completed(c, Work { m: m.drain_secondary(), handed }) == inner_fed(
            c,
            ends_of(Work { m, handed }),
            Seq::empty(),
        ),
{
    reveal(NormalizerModel::drain_primary);
    reveal(NormalizerModel::drain_secondary);
    reveal(NormalizerModel::taps_fed);
}

proof fn lemma_fed_completes(
    c: Converters,
    m: NormalizerModel,
    handed: Handed,
    averages: Seq<u32>,
)
    requires
        runs(m),
        first_waits(m),
        averages == means(c.mean, m.inner) || !m.needs_averages(),
    ensures
        runs(m.fed(averages)),
        completed(c, Work { m: m.fed(averages), handed }) == inner_fed(
            c,
            ends_of(Work { m, handed }),
            m.inner,
        ),
{
    reveal(NormalizerModel::fed);
    let fed = NormalizerModel {
        primary: m.primary.fed(m.inner, averages),
        secondary: match m.secondary {
            None => None,
            Some(t) => Some(t.fed(m.inner, averages)),
        },
        inner: Seq::empty(),
        ..m
    };
    lemma_drain_completes(c, fed, handed);
    let none = Seq::<u32>::empty();
    let e = ends_of(Work { m, handed });
    let after = ends_of(Work { m: fed, handed });
    let all = means(c.mean, m.inner);
    assert(after.primary == e.primary.fed(m.inner, all));
    lemma_tap_fed_nothing(
        c.primary,
        c.mean,
        TapWork { tap: after.primary, blocks: handed.primary },
        none,
    );
    if let Some(t) = e.secondary {
        assert(after.secondary == Some(t.fed(m.inner, all)));
        lemma_tap_fed_nothing(
            c.secondary,
            c.mean,
            TapWork { tap: after.secondary->0, blocks: handed.secondary },
            none,
        );
    }
}

proof fn lemma_inner_completes(c: Converters, m: NormalizerModel, handed: Handed)
    requires
        runs(m),
        first_waits(m),
    ensures
        runs(m.inner_complete()),
        completed(c, Work { m: m.inner_complete(), handed }) == inner_fed(
            c,
            ends_of(Work { m, handed }),
            m.inner,
        ),
{
    reveal(NormalizerModel::inner_complete);
    reveal(NormalizerModel::distributed);
    reveal(NormalizerModel::taps_fed);
    if m.inner.len() == 0 {
        lemma_fed_nothing(c, ends_of(Work { m, handed }), m.inner);
    } else if !m.needs_averages() {
        lemma_fed_completes(c, m, handed, Seq::empty());
    }
}

proof fn lemma_first_completes(c: Converters, m: NormalizerModel, handed: Handed)
    requires
        runs(m),
        m.stage1 is Some,
    ensures
        runs(m.drain_inner()),
        completed(c, Work { m: m.drain_inner(), handed }) == stage_done(
            c,
            ends_of(Work { m, handed }),
            m.inner,
        ),
{
    reveal(NormalizerModel::drain_inner);
    if !m.stage1->0.ready() {
        let counted = NormalizerModel {
            total: saturate_count(m.total + m.produced),
            ..m
        };
        lemma_inner_completes(c, counted, handed);
    }
}

/// An answer changes nothing of what the work will have come to.
proof fn lemma_answer_completes(c: Converters, w: Work)
    requires
        push_holds(w.m),
        runs(w.m),
    ensures
        push_holds(answered(c, w).m),
        runs(answered(c, w).m),
        completed(c, answered(c, w)) == completed(c, w),
{
    reveal(NormalizerModel::advanced);
    match w.m.phase {
        Phase::Inner => {
            let r = w.m.stage1->0;
            r.plan.lemma_step_positive();
            let blocks = w.handed.inner.push(r.block());
            let s = (c.inner)(blocks);
            lemma_step_settles(w.m, Outcome::Samples(s));
            let next = NormalizerModel {
                inner: w.m.inner + s,
                produced: saturate_count(w.m.produced + s.len() as int / 2),
                stage1: Some(r.consumed()),
                ..w.m
            };
            lemma_first_completes(c, next, Handed { inner: blocks, ..w.handed });
        },
        Phase::Average => {
            let s = means(c.mean, w.m.inner);
            lemma_step_settles(w.m, Outcome::Samples(s));
            lemma_fed_completes(c, w.m, w.handed, s);
        },
        Phase::Primary => {
            w.m.primary.stage->Resample_0.plan.lemma_step_positive();
            let blocks = w.handed.primary.push(w.m.primary.block());
            let s = (c.primary)(blocks);
            lemma_step_settles(w.m, Outcome::Samples(s));
            let handed = Handed { primary: blocks, ..w.handed };
            let next = NormalizerModel { primary: w.m.primary.accepted(s), ..w.m };
            lemma_drain_completes(c, next, handed);
            let none = Seq::<u32>::empty();
            let e = ends_of(w);
            let after = ends_of(Work { m: next, handed });
            lemma_tap_fed_nothing(
                c.primary,
                c.mean,
                TapWork { tap: e.primary, blocks: e.handed.primary },
                none,
            );
            lemma_tap_fed_nothing(
                c.primary,
                c.mean,
                TapWork { tap: after.primary, blocks },
                none,
            );
        },
        Phase::Secondary => {
            let t = w.m.secondary->0;
            t.stage->Resample_0.plan.lemma_step_positive();
            let blocks = w.handed.secondary.push(t.block());
            let s = (c.secondary)(blocks);
            lemma_step_settles(w.m, Outcome::Samples(s));
            let handed = Handed { secondary: blocks, ..w.handed };
            let next = NormalizerModel { secondary: Some(t.accepted(s)), ..w.m };
            lemma_drain_completes(c, next, handed);
            let none = Seq::<u32>::empty();
            let e = ends_of(w);
            let after = ends_of(Work { m: next, handed });
            lemma_tap_fed_nothing(
                c.secondary,
                c.mean,
                TapWork { tap: e.secondary->0, blocks: e.handed.secondary },
                none,
            );
            lemma_tap_fed_nothing(
                c.secondary,
                c.mean,
                TapWork { tap: after.secondary->0, blocks },
                none,
            );
        },
        _ => {},
    }
}

proof fn lemma_work_completes(c: Converters, w: Work, n: nat)
    requires
        push_holds(w.m),
        runs(w.m),
    ensures
        push_holds(worked(c, w, n).m),
        runs(worked(c, w, n).m),
        completed(c, worked(c, w, n)) == completed(c, w),
    decreases n,
{
    if n > 0 {
        lemma_work_completes(c, w, (n - 1) as nat);
        lemma_answer_completes(c, worked(c, w, (n - 1) as nat));
    }
}

/// What a settled work has come to is all that it will have come to.
proof fn lemma_settled_is_complete(c: Converters, w: Work)
    requires
        w.m.wf(),
        w.m.phase is Idle,
        is_settled(w.m),
    ensures
        completed(c, w) == ends_of(w),
{
    lemma_fed_nothing(c, ends_of(w), Seq::empty());
}

/// A push begins with what its stereo mix comes to.
proof fn lemma_push_runs(c: Converters, w: Work, samples: Seq<u32>, pts_ns: i64)
    requires
        w.m.wf(),
        w.m.phase is Idle,
        !w.m.processor,
        is_settled(w.m),
    ensures
        runs(w.m.pushed(samples, pts_ns)),
        completed(c, w.pushed(samples, pts_ns)) == taken(
            c,
            ends_of(w),
            mixed(samples, w.m.in_channels),
        ),
{
    let m = w.m;
    let x = mixed(samples, m.in_channels);
    reveal(NormalizerModel::pushed);
    let start = NormalizerModel { flushing: false, failure: None, ..m };
    if samples.len() as int / m.in_channels == 0 {
        lemma_settled_is_complete(c, Work { m: start, ..w });
        lemma_fed_nothing(c, ends_of(w), x);
        if let Some(r) = m.stage1 {
            assert(r.pending + x =~= r.pending);
            assert(r.extended(x) =~= r);
        }
    } else {
        let at = start.anchored(pts_ns);
        match at.stage1 {
            None => {
                let ready = NormalizerModel {
                    inner: x,
                    total: saturate_count(
                        at.total + samples.len() as int / m.in_channels,
                    ),
                    ..at
                };
                lemma_inner_completes(c, ready, w.handed);
            },
            Some(r) => {
                let ready = NormalizerModel {
                    inner: Seq::empty(),
                    produced: 0,
                    stage1: Some(r.extended(x)),
                    ..at
                };
                lemma_first_completes(c, ready, w.handed);
            },
        }
    }
}

/// A push comes to what its stereo mix comes to.
proof fn lemma_push_completes(
    c: Converters,
    w: Work,
    samples: Seq<u32>,
    pts_ns: i64,
    n: nat,
)
    requires
        w.m.wf(),
        w.m.phase is Idle,
        !w.m.processor,
        is_settled(w.m),
        worked(c, w.pushed(samples, pts_ns), n).m.phase is Idle,
    ensures
        ({
            let end = worked(c, w.pushed(samples, pts_ns), n);
            &&& end.m.wf()
            &&& is_settled(end.m)
            &&& end.m.failure is None
            &&& !end.m.processor
            &&& end.m.in_channels == w.m.in_channels
            &&& ends_of(end) == taken(c, ends_of(w), mixed(samples, w.m.in_channels))
        }),
{
    let m = w.m;
    let end = worked(c, w.pushed(samples, pts_ns), n);
    lemma_push_begins(m, samples, pts_ns);
    lemma_push_runs(c, w, samples, pts_ns);
    lemma_work_completes(c, w.pushed(samples, pts_ns), n);
    lemma_settled_is_complete(c, end);
    m.lemma_push_keeps_setup(samples, pts_ns);
    lemma_work_keeps_setup(c, w.pushed(samples, pts_ns), n);
}

proof fn lemma_work_keeps_setup(c: Converters, w: Work, n: nat)
    requires
        push_holds(w.m),
        runs(w.m),
    ensures
        worked(c, w, n).m.same_setup(w.m),
    decreases n,
{
    if n > 0 {
        let before = worked(c, w, (n - 1) as nat);
        lemma_work_keeps_setup(c, w, (n - 1) as nat);
        lemma_work_completes(c, w, (n - 1) as nat);
        match before.m.phase {
            Phase::Inner => {
                before.m.lemma_advance_keeps_setup(
                    Outcome::Samples(
                        (c.inner)(before.handed.inner.push(before.m.stage1->0.block())),
                    ),
                );
            },
            Phase::Average => {
                before.m.lemma_advance_keeps_setup(
                    Outcome::Samples(means(c.mean, before.m.inner)),
                );
            },
            Phase::Primary => {
                before.m.lemma_advance_keeps_setup(
                    Outcome::Samples(
                        (c.primary)(before.handed.primary.push(before.m.primary.block())),
                    ),
                );
            },
            Phase::Secondary => {
                before.m.lemma_advance_keeps_setup(
                    Outcome::Samples(
                        (c.secondary)(before.handed.secondary.push(before.m.secondary->0.block())),
                    ),
                );
            },
            _ => {},
        }
    }
}

proof fn lemma_work_goes_on(c: Converters, w: Work, n: nat)
    ensures
        worked(c, answered(c, w), n) == worked(c, w, n + 1),
    decreases n,
{
    reveal_with_fuel(worked, 2);
    if n > 0 {
        lemma_work_goes_on(c, w, (n - 1) as nat);
    }
}

proof fn lemma_work_ends(c: Converters, w: Work) -> (n: nat)
    requires
        push_holds(w.m),
        runs(w.m),
    ensures
        worked(c, w, n).m.phase is Idle,
    decreases phase_rank(w.m.phase), work_waiting(w.m),
{
    if w.m.phase is Idle {
        0
    } else {
        lemma_answer_completes(c, w);
        match w.m.phase {
            Phase::Inner => {
                law_answers_make_progress(
                    w.m,
                    Outcome::Samples((c.inner)(w.handed.inner.push(w.m.stage1->0.block()))),
                );
            },
            Phase::Primary => {
                law_answers_make_progress(
                    w.m,
                    Outcome::Samples((c.primary)(w.handed.primary.push(w.m.primary.block()))),
                );
            },
            Phase::Secondary => {
                law_answers_make_progress(
                    w.m,
                    Outcome::Samples(
                        (c.secondary)(w.handed.secondary.push(w.m.secondary->0.block())),
                    ),
                );
            },
            _ => {
                law_answers_make_progress(w.m, Outcome::Samples(means(c.mean, w.m.inner)));
            },
        }
        let n = lemma_work_ends(c, answered(c, w));
        lemma_work_goes_on(c, w, n);
        n + 1
    }
}

/// A push without a processor ends after some number of answers.
pub proof fn law_push_ends(c: Converters, w: Work, samples: Seq<u32>, pts_ns: i64)
    requires
        w.m.wf(),
        w.m.phase is Idle,
        !w.m.processor,
        is_settled(w.m),
    ensures
        exists|n: nat| (#[trigger] worked(c, w.pushed(samples, pts_ns), n)).m.phase is Idle,
{
    lemma_push_begins(w.m, samples, pts_ns);
    lemma_push_runs(c, w, samples, pts_ns);
    let n = lemma_work_ends(c, w.pushed(samples, pts_ns));
    assert(worked(c, w.pushed(samples, pts_ns), n).m.phase is Idle);
}

/// Without a processor the division of the input among pushes does not matter,
/// whatever is converted and however many outputs there are: where the first
/// part ends with a whole frame, two pushes hand the same blocks to every
/// conversion as one push of both parts, leave the same input waiting, and give
/// the same outputs.
pub proof fn law_push_in_parts(
    c: Converters,
    w: Work,
    a: Seq<u32>,
    b: Seq<u32>,
    p: i64,
    q: i64,
    n: (nat, nat, nat),
)
    requires
        c.wf(),
        w.m.wf(),
        w.m.phase is Idle,
        !w.m.processor,
        is_settled(w.m),
        a.len() as int % w.m.in_channels == 0,
        worked(c, w.pushed(a, p), n.0).m.phase is Idle,
        worked(c, worked(c, w.pushed(a, p), n.0).pushed(b, q), n.1).m.phase is Idle,
        worked(c, w.pushed(a + b, p), n.2).m.phase is Idle,
    ensures
        ends_of(worked(c, worked(c, w.pushed(a, p), n.0).pushed(b, q), n.1)) == ends_of(
            worked(c, w.pushed(a + b, p), n.2),
        ),
{
    let first = worked(c, w.pushed(a, p), n.0);
    lemma_push_completes(c, w, a, p, n.0);
    lemma_push_completes(c, first, b, q, n.1);
    lemma_push_completes(c, w, a + b, p, n.2);
    law_mix_of_parts(a, b, w.m.in_channels);
    lemma_taken_in_parts(c, ends_of(w), mixed(a, w.m.in_channels), mixed(b, w.m.in_channels));
}

} // verus!
