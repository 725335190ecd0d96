//! Channel conversion of interleaved frames.

use vstd::prelude::*;

use crate::sample::SILENCE;

verus! {

/// Position in interleaved data of the sample that stands at position `i` of
/// the stereo mix: the only channel of a mono frame, else one of the first two.
pub open spec fn mix_source(in_ch: int, i: int) -> int {
    if in_ch == 1 {
        i / 2
    } else {
        (i / 2) * in_ch + i % 2
    }
}

/// Stereo mix of the first `frames` frames of `src`: mono is doubled, of more
/// than two channels the first two are kept.
pub open spec fn mixed_frames(src: Seq<u32>, in_ch: int, frames: int) -> Seq<u32> {
    Seq::new((frames * 2) as nat, |i: int| src[mix_source(in_ch, i)])
}

/// Stereo mix of the whole frames of `src`.
pub open spec fn mixed(src: Seq<u32>, in_ch: int) -> Seq<u32> {
    mixed_frames(src, in_ch, src.len() as int / in_ch)
}

/// The whole frames of the stereo data `inner` with `out_ch` channels: for mono
/// the averages of its frames, which are given; two channels as they are; for
/// any other count the left channel throughout.
pub open spec fn converted(inner: Seq<u32>, averages: Seq<u32>, out_ch: int) -> Seq<u32> {
    let frames = inner.len() as int / 2;
    if out_ch == 1 {
        averages
    } else if out_ch == 2 {
        inner.take(frames * 2)
    } else {
        Seq::new((frames * out_ch) as nat, |i: int| inner[i / out_ch * 2])
    }
}

/// `n` samples of silence.
pub open spec fn silence(n: nat) -> Seq<u32> {
    Seq::new(n, |i: int| SILENCE)
}

/// `s` cut off, or extended with silence, to `n` samples.
pub open spec fn resized(s: Seq<u32>, n: nat) -> Seq<u32> {
    if n <= s.len() {
        s.take(n as int)
    } else {
        s + silence((n - s.len()) as nat)
    }
}

/// Silence needed to bring `len` samples to a multiple of `need`.
pub open spec fn padding(len: int, need: int) -> int {
    if len % need == 0 {
        0
    } else {
        need - len % need
    }
}

/// `s` extended with silence to a multiple of `need` samples.
pub open spec fn padded(s: Seq<u32>, need: int) -> Seq<u32> {
    s + silence(padding(s.len() as int, need) as nat)
}

/// A frame index below the frame count keeps its samples inside the data.
proof fn lemma_frame_in_bounds(len: int, ch: int, f: int)
    requires
        ch > 0,
        0 <= f < len / ch,
    ensures
        0 <= f * ch,
        f * ch + ch <= len,
{
    assert(0 <= f * ch && f * ch + ch <= len) by (nonlinear_arith)
        requires
            ch > 0,
            0 <= f < len / ch,
    ;
}

/// Appends the stereo mix of `in_frames` frames of `src` to `dst`.
pub fn mix_to_stereo(src: &[u32], in_ch: usize, in_frames: usize, dst: &mut Vec<u32>)
    requires
        in_ch > 0,
        in_frames <= src@.len() as int / in_ch as int,
    ensures
        final(dst)@ == old(dst)@ + mixed_frames(src@, in_ch as int, in_frames as int),
{
    let ghost before = dst@;
    let len: usize = src.len();
    let mut f: usize = 0;
    while f < in_frames
        invariant
            in_ch > 0,
            len == src@.len(),
            f <= in_frames,
            in_frames <= src@.len() as int / in_ch as int,
            dst@ == before + mixed_frames(src@, in_ch as int, in_frames as int).take(f * 2),
        decreases in_frames - f,
    {
        let ghost all = mixed_frames(src@, in_ch as int, in_frames as int);
        proof {
            lemma_frame_in_bounds(src@.len() as int, in_ch as int, f as int);
            assert((2 * f) / 2 == f && (2 * f + 1) / 2 == f);
            assert((2 * f) % 2 == 0 && (2 * f + 1) % 2 == 1);
            assert(all[2 * f] == src@[mix_source(in_ch as int, 2 * f)]);
            assert(all[2 * f + 1] == src@[mix_source(in_ch as int, 2 * f + 1)]);
        }
        if in_ch == 1 {
            let s: u32 = src[f];
            dst.push(s);
            dst.push(s);
        } else {
            let base: usize = f * in_ch;
            dst.push(src[base]);
            dst.push(src[base + 1]);
        }
        proof {
            assert(all.take((f + 1) * 2) =~= all.take(f * 2).push(all[2 * f]).push(all[2 * f + 1]));
            assert(dst@ =~= before + all.take((f + 1) * 2));
        }
        f = f + 1;
    }
    assert(mixed_frames(src@, in_ch as int, in_frames as int).take(f * 2) =~= mixed_frames(src@, in_ch as int, in_frames as int));
}

/// Gives the inner samples `out_ch` channels. `averages` are the averages of
/// the frames of `inner`, and are used for one channel only.
pub fn convert_channels(inner: &[u32], averages: &[u32], out_ch: usize) -> (r: Vec<u32>)
    requires
        out_ch > 0,
    ensures
        r@ == converted(inner@, averages@, out_ch as int),
{
    let len: usize = inner.len();
    let frames: usize = len / 2;
    let mut out: Vec<u32> = Vec::new();
    if out_ch == 1 {
        out.extend_from_slice(averages);
        assert(out@ =~= averages@);
        return out;
    }
    if out_ch == 2 {
        out.extend_from_slice(vstd::slice::slice_subrange(inner, 0, frames * 2));
        assert(out@ =~= inner@.take(frames * 2));
        return out;
    }
    let ghost all = converted(inner@, averages@, out_ch as int);
    let mut f: usize = 0;
    while f < frames
        invariant
            out_ch > 2,
            len == inner@.len(),
            f <= frames,
            frames == inner@.len() as int / 2,
            all == converted(inner@, averages@, out_ch as int),
            out@ == all.take(f * out_ch),
        decreases frames - f,
    {
        proof {
            assert(0 <= f * out_ch && f * out_ch + out_ch == (f + 1) * out_ch && (f + 1) * out_ch
                <= frames * out_ch) by (nonlinear_arith)
                requires
                    out_ch > 0,
                    0 <= f < frames,
            ;
        }
        let left: u32 = inner[f * 2];
        let mut c: usize = 0;
        while c < out_ch
            invariant
                out_ch > 2,
                c <= out_ch,
                f < frames,
                frames == inner@.len() as int / 2,
                left == inner@[f * 2],
                all == converted(inner@, averages@, out_ch as int),
                0 <= f * out_ch,
                f * out_ch + out_ch <= frames * out_ch,
                out@ == all.take(f * out_ch + c),
            decreases out_ch - c,
        {
            let ghost i = f * out_ch + c;
            proof {
                assert((f * out_ch + c) / (out_ch as int) == f) by (nonlinear_arith)
                    requires
                        0 <= c < out_ch,
                        0 <= f,
                ;
                assert(all[i] == left);
            }
            out.push(left);
            c = c + 1;
            assert(all.take(i + 1) =~= all.take(i).push(all[i]));
        }
        f = f + 1;
    }
    assert(all.take(f * out_ch) =~= all);
    out
}

/// Brings a buffer to exactly `n` samples.
pub fn resize_with_silence(buf: &mut Vec<u32>, n: usize)
    ensures
        final(buf)@ == resized(old(buf)@, n as nat),
{
    let ghost before = buf@;
    buf.resize(n, SILENCE);
    proof {
        if n > before.len() {
            assert forall|i: int| 0 <= i < n implies buf@[i] == resized(before, n as nat)[i] by {
                if i < before.len() {
                    assert(buf@.subrange(0, before.len() as int)[i] == before[i]);
                } else {
                    assert(cloned::<u32>(SILENCE, buf@[i]));
                }
            }
        }
        assert(buf@ =~= resized(before, n as nat));
    }
}

/// Extends a buffer with silence to a multiple of `need` samples.
pub fn pad_with_silence(buf: &mut Vec<u32>, need: usize)
    requires
        need > 0,
    ensures
        final(buf)@ == padded(old(buf)@, need as int),
{
    let ghost before = buf@;
    let rem: usize = buf.len() % need;
    if rem != 0 {
        let mut pad: usize = need - rem;
        while pad > 0
            invariant
                0 <= pad <= need - rem,
                buf@ == before + silence((need - rem - pad) as nat),
            decreases pad,
        {
            buf.push(SILENCE);
            pad = pad - 1;
            assert(buf@ =~= before + silence((need - rem - pad) as nat));
        }
    } else {
        assert(before + silence(0) =~= before);
    }
}

/// Mixing whole frames first and the rest later gives the same samples as
/// mixing them together: the mix does not depend on how the input is cut.
pub proof fn law_mix_of_parts(a: Seq<u32>, b: Seq<u32>, in_ch: int)
    requires
        in_ch > 0,
        a.len() as int % in_ch == 0,
    ensures
        mixed(a + b, in_ch) == mixed(a, in_ch) + mixed(b, in_ch),
{
    let k = a.len() as int / in_ch;
    let whole = mixed(a + b, in_ch);
    let parts = mixed(a, in_ch) + mixed(b, in_ch);
    vstd::arithmetic::div_mod::lemma_fundamental_div_mod(a.len() as int, in_ch);
    assert(in_ch * k == k * in_ch) by (nonlinear_arith);
    vstd::arithmetic::div_mod::lemma_hoist_over_denominator(b.len() as int, k, in_ch as nat);
    assert((a + b).len() as int / in_ch == k + b.len() as int / in_ch);
    assert forall|i: int| 0 <= i < whole.len() implies whole[i] == parts[i] by {
        if i < k * 2 {
            lemma_frame_in_bounds(a.len() as int, in_ch, i / 2);
        } else {
            let j = i - k * 2;
            assert(i / 2 == k + j / 2 && i % 2 == j % 2);
            assert((k + j / 2) * in_ch == k * in_ch + (j / 2) * in_ch) by (nonlinear_arith);
            lemma_frame_in_bounds(b.len() as int, in_ch, j / 2);
            assert(mix_source(in_ch, i) == a.len() + mix_source(in_ch, j));
            assert((a + b)[mix_source(in_ch, i)] == b[mix_source(in_ch, j)]);
        }
    }
    assert(whole =~= parts);
}

/// Mono input comes out with equal channels.
pub proof fn law_mono_is_doubled(src: Seq<u32>, f: int)
    requires
        0 <= f < src.len(),
    ensures
        mixed(src, 1).len() == 2 * src.len(),
        mixed(src, 1)[2 * f] == src[f],
        mixed(src, 1)[2 * f + 1] == src[f],
{
    assert((2 * f) / 2 == f && (2 * f + 1) / 2 == f);
}

/// Stereo input comes out as it is, up to its last whole frame.
pub proof fn law_stereo_is_kept(src: Seq<u32>)
    ensures
        mixed(src, 2) == src.take(src.len() as int / 2 * 2),
{
    assert(mixed(src, 2) =~= src.take(src.len() as int / 2 * 2));
}

/// Silent input gives a silent mix.
pub proof fn law_silence_is_kept(n: nat, in_ch: int)
    requires
        in_ch > 0,
    ensures
        mixed(silence(n), in_ch) == silence((n as int / in_ch * 2) as nat),
{
    let m = mixed(silence(n), in_ch);
    assert(0 <= n as int / in_ch) by (nonlinear_arith)
        requires
            in_ch > 0,
            n >= 0,
    ;
    assert forall|i: int| 0 <= i < m.len() implies m[i] == SILENCE by {
        lemma_frame_in_bounds(n as int, in_ch, i / 2);
    }
    assert(m =~= silence((n as int / in_ch * 2) as nat));
}

/// Padding reaches a multiple of `need` with less than `need` samples.
pub proof fn law_padded_is_aligned(s: Seq<u32>, need: int)
    requires
        need > 0,
    ensures
        padded(s, need).len() as int % need == 0,
        s.len() <= padded(s, need).len() < s.len() + need,
        s.is_prefix_of(padded(s, need)),
{
    let l = s.len() as int;
    vstd::arithmetic::div_mod::lemma_fundamental_div_mod(l, need);
    vstd::arithmetic::div_mod::lemma_mod_bound(l, need);
    if l % need != 0 {
        assert(l + (need - l % need) == need * (l / need + 1)) by (nonlinear_arith)
            requires
                l == need * (l / need) + l % need,
        ;
        vstd::arithmetic::div_mod::lemma_mod_multiples_basic(l / need + 1, need);
        assert(need * (l / need + 1) == (l / need + 1) * need) by (nonlinear_arith);
    }
    assert(s =~= padded(s, need).take(l));
}

} // verus!
