use vstd::prelude::*;
use crate::bin::{Bin, SIGN_BIT};
use crate::factor::target_of;
use crate::{FFT_SIZE, HALF_SIZE};
use crate::kernel::{
    accumulates, analyzes, doubles, forwards, halves, inverts, mixes, synthesizes, Arithmetic,
};
use crate::model::{
    consumed, forwarded, gathers, inverted, prepared, ran, shifted, synthesized, transformed, State,
};

verus! {

/// A single-precision zero of either sign.
pub open spec fn is_zero(bits: u32) -> bool {
    bits == 0 || bits == 0x8000_0000
}

/// A double-precision zero of either sign.
pub open spec fn is_wide_zero(bits: u64) -> bool {
    bits == 0 || bits == SIGN_BIT
}

/// Every sample is a zero.
pub open spec fn is_silent(samples: Seq<u32>) -> bool {
    forall|i: int| 0 <= i < samples.len() ==> is_zero(#[trigger] samples[i])
}

/// Every bin is a zero in both parts.
pub open spec fn is_blank(spectrum: Seq<Bin>) -> bool {
    forall|i: int| 0 <= i < spectrum.len() ==> (#[trigger] spectrum[i]).is_silent()
}

/// The arithmetic `k` makes zeros of zeros, under the window `window`: each
/// operation, given zeros where it takes samples or bins, and given a weight of
/// the window where it takes a weight, returns zeros.
pub open spec fn keeps_silence<K: Arithmetic>(k: &K, window: Seq<u64>) -> bool {
    &&& forall|i: int, x: u32, r: u64|
        0 <= i < window.len() && is_zero(x) && #[trigger] analyzes(k, x, window[i], r)
            ==> is_wide_zero(r)
    &&& forall|a: Seq<Bin>, b: Seq<Bin>| is_blank(a) && #[trigger] forwards(k, a, b) ==> is_blank(b)
    &&& forall|b: Bin, r: Bin| b.is_silent() && #[trigger] halves(k, b, r) ==> r.is_silent()
    &&& forall|a: Bin, b: Bin, r: Bin|
        a.is_silent() && b.is_silent() && #[trigger] accumulates(k, a, b, r) ==> r.is_silent()
    &&& forall|b: Bin, r: Bin| b.is_silent() && #[trigger] doubles(k, b, r) ==> r.is_silent()
    &&& forall|a: Seq<Bin>, b: Seq<Bin>| is_blank(a) && #[trigger] inverts(k, a, b) ==> is_blank(b)
    &&& forall|i: int, v: u64, r: u32|
        0 <= i < window.len() && is_wide_zero(v) && #[trigger] synthesizes(k, v, window[i], r)
            ==> is_zero(r)
    &&& forall|a: u32, b: u32, r: u32| is_zero(a) && is_zero(b) && #[trigger] mixes(k, a, b, r) ==> is_zero(r)
}

impl State {
    /// The four sample buffers hold nothing but zeros.
    pub open spec fn is_at_rest(self) -> bool {
        &&& is_silent(self.current)
        &&& is_silent(self.last)
        &&& is_silent(self.buffer1)
        &&& is_silent(self.buffer2)
    }
}

/// A state with every buffer cleared is at rest.
pub proof fn lemma_cleared_is_at_rest(s: State)
    ensures
        s.cleared().is_at_rest(),
{
}

/// What is gathered from a blank spectrum is a zero bin.
pub proof fn lemma_gathers_from_blank<K: Arithmetic>(
    k: &K,
    window: Seq<u64>,
    source: Seq<Bin>,
    by: u32,
    to: nat,
    upto: nat,
    sum: Bin,
)
    requires
        keeps_silence(k, window),
        source.len() == FFT_SIZE,
        is_blank(source),
        gathers(k, source, by, to, upto, sum),
    ensures
        sum.is_silent(),
    decreases upto,
{
    if upto == 0 {
    } else if target_of(by, (upto - 1) as nat) == Some(to) {
        let before = choose|before: Bin|
            gathers(k, source, by, to, (upto - 1) as nat, before) && #[trigger] accumulates(
                k,
                before,
                source[upto - 1],
                sum,
            );
        lemma_gathers_from_blank(k, window, source, by, to, (upto - 1) as nat, before);
    } else {
        lemma_gathers_from_blank(k, window, source, by, to, (upto - 1) as nat, sum);
    }
}

/// Shifting a blank spectrum gives a blank spectrum.
pub proof fn lemma_shifted_from_blank<K: Arithmetic>(k: &K, s: State, by: u32, t: State)
    requires
        keeps_silence(k, s.window),
        s.fft.len() == FFT_SIZE,
        is_blank(s.fft),
        shifted(k, s, by, t),
    ensures
        is_blank(t.fft),
        is_blank(t.shifted_fft),
{
    let g = choose|g: Bin|
        #[trigger] gathers(k, t.fft, by, HALF_SIZE as nat, FFT_SIZE as nat, g) && doubles(
            k,
            g,
            t.shifted_fft[HALF_SIZE as int],
        );
    lemma_gathers_from_blank(k, s.window, t.fft, by, HALF_SIZE as nat, FFT_SIZE as nat, g);
    assert forall|i: int| 0 <= i < t.shifted_fft.len() implies (#[trigger] t.shifted_fft[i]).is_silent() by {
        if i < HALF_SIZE {
            lemma_gathers_from_blank(
                k,
                s.window,
                t.fft,
                by,
                i as nat,
                FFT_SIZE as nat,
                t.shifted_fft[i],
            );
        } else if i > HALF_SIZE {
            let j = FFT_SIZE - i;
            lemma_gathers_from_blank(
                k,
                s.window,
                t.fft,
                by,
                j as nat,
                FFT_SIZE as nat,
                t.shifted_fft[j],
            );
            assert(t.shifted_fft[FFT_SIZE - j] == t.shifted_fft[j].conjugate());
        }
    }
}

/// A frame of zeros goes through the pipeline as zeros: a state at rest is at
/// rest after the transform.
pub proof fn lemma_transformed_at_rest<K: Arithmetic>(k: &K, s: State, t: State)
    requires
        keeps_silence(k, s.window),
        s.wf(),
        s.is_at_rest(),
        transformed(k, s, t),
    ensures
        t.wf(),
        t.is_at_rest(),
        t.window == s.window,
        t.shift == s.shift,
        t.buffer_at == s.buffer_at,
{
    let (a, b, c, d) = choose|a: State, b: State, c: State, d: State|
        #![trigger prepared(k, s.rotated(), a), forwarded(k, a, b), shifted(k, b, s.shift, c), inverted(k, c, d)]
        prepared(k, s.rotated(), a) && forwarded(k, a, b) && shifted(k, b, s.shift, c) && inverted(
            k,
            c,
            d,
        ) && synthesized(k, d, t);
    lemma_shifted_from_blank(k, b, s.shift, c);
}

/// A zero sample taken at rest leaves the state at rest and emits a zero.
pub proof fn lemma_consumed_at_rest<K: Arithmetic>(k: &K, s: State, x: u32, t: State, y: u32)
    requires
        keeps_silence(k, s.window),
        s.wf(),
        s.is_at_rest(),
        is_zero(x),
        consumed(k, s, x, t, y),
    ensures
        t.wf(),
        t.is_at_rest(),
        t.window == s.window,
        is_zero(y),
{
    let w = s.written(x);
    if s.buffer_at + 1 == FFT_SIZE {
        let f = choose|f: State| #[trigger] transformed(k, w, f) && t == f.advanced();
        lemma_transformed_at_rest(k, w, f);
    }
}

/// Silence in, silence out: a processor at rest that is fed zeros emits zeros
/// and stays at rest, whatever the shift factor, provided the arithmetic makes
/// zeros of zeros.
pub proof fn lemma_silence_is_kept<K: Arithmetic>(
    k: &K,
    s: State,
    input: Seq<u32>,
    t: State,
    output: Seq<u32>,
)
    requires
        keeps_silence(k, s.window),
        s.wf(),
        s.is_at_rest(),
        is_silent(input),
        ran(k, s, input, t, output),
    ensures
        is_silent(output),
        t.wf(),
        t.is_at_rest(),
        t.window == s.window,
    decreases input.len(),
{
    if input.len() > 0 {
        let m = choose|m: State|
            ran(k, s, input.drop_last(), m, output.drop_last()) && #[trigger] consumed(
                k,
                m,
                input.last(),
                t,
                output.last(),
            );
        lemma_silence_is_kept(k, s, input.drop_last(), m, output.drop_last());
        lemma_consumed_at_rest(k, m, input.last(), t, output.last());
        assert forall|i: int| 0 <= i < output.len() implies is_zero(#[trigger] output[i]) by {
            if i < output.len() - 1 {
                assert(output[i] == output.drop_last()[i]);
            }
        }
    }
}

/// After a reset, zeros in give zeros out: for every shift factor and every
/// length of input, provided the arithmetic makes zeros of zeros.
pub proof fn lemma_silence_after_reset<K: Arithmetic>(
    k: &K,
    s: State,
    input: Seq<u32>,
    t: State,
    output: Seq<u32>,
)
    requires
        keeps_silence(k, s.window),
        s.wf(),
        is_silent(input),
        ran(k, s.cleared(), input, t, output),
    ensures
        is_silent(output),
        t.is_at_rest(),
{
    lemma_cleared_is_at_rest(s);
    lemma_silence_is_kept(k, s.cleared(), input, t, output);
}

} // verus!
