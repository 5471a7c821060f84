use vstd::prelude::*;
use crate::bin::Bin;
use crate::factor::{
    is_positive_finite, lemma_image_is_monotone, lemma_unity_keeps_each_bin, target_of, UNITY,
};
use crate::{FFT_SIZE, HALF_SIZE};
use crate::kernel::{
    accumulates, analyzes, doubles, forwards, halves, inverts, mixes, synthesizes, Arithmetic,
};

verus! {

/// A frame of positive zeros.
pub open spec fn silence() -> Seq<u32> {
    Seq::new(FFT_SIZE as nat, |i: int| 0u32)
}

/// A spectrum of zero bins.
pub open spec fn blank() -> Seq<Bin> {
    Seq::new(FFT_SIZE as nat, |i: int| Bin::zero())
}

/// What a processor holds, as mathematical values.
pub struct State {
    /// The newest synthesized frame.
    pub current: Seq<u32>,
    /// The synthesized frame before it.
    pub last: Seq<u32>,
    /// The frame being filled.
    pub buffer1: Seq<u32>,
    /// The frame after it, half a frame behind.
    pub buffer2: Seq<u32>,
    /// The spectrum of the frame last analyzed.
    pub fft: Seq<Bin>,
    /// That spectrum with its bins moved.
    pub shifted_fft: Seq<Bin>,
    /// Where in `buffer1` the next sample goes.
    pub buffer_at: nat,
    /// The window weights.
    pub window: Seq<u64>,
    /// The bits of the shift factor.
    pub shift: u32,
}

impl State {
    /// Every buffer has the frame's length, the cursor lies inside the frame
    /// and the shift factor is a positive finite number.
    pub open spec fn wf(self) -> bool {
        &&& self.current.len() == FFT_SIZE
        &&& self.last.len() == FFT_SIZE
        &&& self.buffer1.len() == FFT_SIZE
        &&& self.buffer2.len() == FFT_SIZE
        &&& self.fft.len() == FFT_SIZE
        &&& self.shifted_fft.len() == FFT_SIZE
        &&& self.window.len() == FFT_SIZE
        &&& self.buffer_at < FFT_SIZE
        &&& is_positive_finite(self.shift)
    }

    /// The state with every buffer zeroed and the cursor at the start; window
    /// and shift factor stay.
    pub open spec fn cleared(self) -> State {
        State {
            current: silence(),
            last: silence(),
            buffer1: silence(),
            buffer2: silence(),
            fft: blank(),
            shifted_fft: blank(),
            buffer_at: 0,
            window: self.window,
            shift: self.shift,
        }
    }

    /// The state with another shift factor.
    pub open spec fn with_shift(self, shift: u32) -> State {
        State { shift, ..self }
    }

    /// The newest synthesized frame becomes the previous one. (The frame that
    /// was the previous one takes its place and is about to be overwritten.)
    pub open spec fn rotated(self) -> State {
        State { current: self.last, last: self.current, ..self }
    }

    /// Sample `x` stored at the cursor of the frame being filled, and half a
    /// frame further, wrapping round, in the frame after it.
    pub open spec fn written(self, x: u32) -> State {
        State {
            buffer1: self.buffer1.update(self.buffer_at as int, x),
            buffer2: self.buffer2.update((self.buffer_at + HALF_SIZE) % FFT_SIZE as int, x),
            ..self
        }
    }

    /// The cursor moved on by one.
    pub open spec fn stepped(self) -> State {
        State { buffer_at: self.buffer_at + 1, ..self }
    }

    /// The frame after the full one becomes the frame being filled; its first
    /// half is there already, so the cursor starts at the middle.
    pub open spec fn advanced(self) -> State {
        State { buffer1: self.buffer2, buffer2: self.buffer1, buffer_at: HALF_SIZE as nat, ..self }
    }

    /// The two samples whose sum is emitted at the cursor: the head of the
    /// newest synthesized frame and the tail of the one before.
    pub open spec fn overlap(self) -> (u32, u32) {
        (self.current[(self.buffer_at + HALF_SIZE) % FFT_SIZE as int], self.last[self.buffer_at as int])
    }
}

/// A reset is idempotent: the state that two resets in a row leave is the
/// state that one reset leaves.
pub proof fn lemma_reset_is_idempotent(s: State)
    ensures
        s.cleared().cleared() == s.cleared(),
{
}

/// `t` is `s` with the spectrum of the windowed frame in place: each real part
/// is what `analyze` made of the sample and its weight, each imaginary part is
/// positive zero.
pub open spec fn prepared<K: Arithmetic>(k: &K, s: State, t: State) -> bool {
    &&& t == State { fft: t.fft, ..s }
    &&& t.fft.len() == FFT_SIZE
    &&& forall|i: int|
        0 <= i < FFT_SIZE ==> (#[trigger] t.fft[i]).im == 0 && analyzes(
            k,
            s.buffer1[i],
            s.window[i],
            t.fft[i].re,
        )
}

/// `t` is `s` with `forward` applied to the spectrum buffer.
pub open spec fn forwarded<K: Arithmetic>(k: &K, s: State, t: State) -> bool {
    &&& t == State { fft: t.fft, ..s }
    &&& forwards(k, s.fft, t.fft)
}

/// `sum` is what destination bin `to` holds once the first `upto` source bins
/// have been visited: starting from zero, each source bin whose target is `to`
/// was added by `accumulate`, in ascending order.
pub open spec fn gathers<K: Arithmetic>(
    k: &K,
    source: Seq<Bin>,
    by: u32,
    to: nat,
    upto: nat,
    sum: Bin,
) -> bool
    decreases upto,
{
    if upto == 0 {
        sum == Bin::zero()
    } else if target_of(by, (upto - 1) as nat) == Some(to) {
        exists|before: Bin|
            gathers(k, source, by, to, (upto - 1) as nat, before) && #[trigger] accumulates(
                k,
                before,
                source[upto - 1],
                sum,
            )
    } else {
        gathers(k, source, by, to, (upto - 1) as nat, sum)
    }
}

/// A source bin whose target is `to` adds to what was gathered there before it.
pub proof fn lemma_gathers_one_more<K: Arithmetic>(
    k: &K,
    source: Seq<Bin>,
    by: u32,
    to: nat,
    freq: nat,
    before: Bin,
    sum: Bin,
)
    requires
        target_of(by, freq) == Some(to),
        gathers(k, source, by, to, freq, before),
        accumulates(k, before, source[freq as int], sum),
    ensures
        gathers(k, source, by, to, freq + 1, sum),
{
    let upto = freq + 1;
    assert(gathers(k, source, by, to, (upto - 1) as nat, before));
}

/// Once a source bin has no target, none after it has one: what was gathered
/// up to that bin is what is gathered in the end.
pub proof fn lemma_gathers_after_the_visit<K: Arithmetic>(
    k: &K,
    source: Seq<Bin>,
    by: u32,
    to: nat,
    end: nat,
    upto: nat,
    sum: Bin,
)
    requires
        target_of(by, end) is None,
        end <= upto,
        gathers(k, source, by, to, end, sum),
    ensures
        gathers(k, source, by, to, upto, sum),
    decreases upto,
{
    if end < upto {
        lemma_gathers_after_the_visit(k, source, by, to, end, (upto - 1) as nat, sum);
        lemma_image_is_monotone(by, end, (upto - 1) as nat);
    }
}

/// At a factor of 1.0 nothing collides and nothing is lost: the one bin that
/// is moved to `to` is source bin `to` itself, added once to zero.
pub proof fn lemma_unity_gathers_the_bin_itself<K: Arithmetic>(
    k: &K,
    source: Seq<Bin>,
    to: nat,
    upto: nat,
    sum: Bin,
)
    requires
        to <= HALF_SIZE,
        gathers(k, source, UNITY, to, upto, sum),
    ensures
        upto <= to ==> sum == Bin::zero(),
        upto > to ==> accumulates(k, Bin::zero(), source[to as int], sum),
    decreases upto,
{
    if upto > 0 {
        let freq = (upto - 1) as nat;
        lemma_unity_keeps_each_bin(freq);
        if target_of(UNITY, freq) == Some(to) {
            let before = choose|before: Bin|
                gathers(k, source, UNITY, to, freq, before) && #[trigger] accumulates(
                    k,
                    before,
                    source[upto - 1],
                    sum,
                );
            lemma_unity_gathers_the_bin_itself(k, source, to, freq, before);
        } else {
            lemma_unity_gathers_the_bin_itself(k, source, to, freq, sum);
        }
    }
}

/// `t` is `s` after its spectrum was shifted by `by`.
///
/// The Nyquist bin of the source was halved in place. Each destination bin up
/// to the Nyquist bin holds what was gathered for it from the source, the
/// Nyquist bin itself doubled afterwards. Each bin above the Nyquist bin is the
/// conjugate of its mirror image below.
pub open spec fn shifted<K: Arithmetic>(k: &K, s: State, by: u32, t: State) -> bool {
    &&& t == State { fft: t.fft, shifted_fft: t.shifted_fft, ..s }
    &&& t.fft.len() == FFT_SIZE
    &&& t.shifted_fft.len() == FFT_SIZE
    &&& forall|i: int| 0 <= i < FFT_SIZE && i != HALF_SIZE ==> #[trigger] t.fft[i] == s.fft[i]
    &&& halves(k, s.fft[HALF_SIZE as int], t.fft[HALF_SIZE as int])
    &&& forall|d: nat|
        d < HALF_SIZE ==> gathers(k, t.fft, by, d, FFT_SIZE as nat, #[trigger] t.shifted_fft[d as int])
    &&& exists|g: Bin|
        #[trigger] gathers(k, t.fft, by, HALF_SIZE as nat, FFT_SIZE as nat, g) && doubles(
            k,
            g,
            t.shifted_fft[HALF_SIZE as int],
        )
    &&& is_conjugate_symmetric(t.shifted_fft)
}

/// Each bin above the Nyquist bin is the conjugate of its mirror image:
/// `spectrum[FFT_SIZE - i] == conj(spectrum[i])` for `1 <= i < FFT_SIZE / 2`.
pub open spec fn is_conjugate_symmetric(spectrum: Seq<Bin>) -> bool {
    forall|i: int|
        1 <= i < HALF_SIZE ==> #[trigger] spectrum[FFT_SIZE - i] == spectrum[i].conjugate()
}

/// `t` is `s` with `inverse` applied to the shifted spectrum.
pub open spec fn inverted<K: Arithmetic>(k: &K, s: State, t: State) -> bool {
    &&& t == State { shifted_fft: t.shifted_fft, ..s }
    &&& inverts(k, s.shifted_fft, t.shifted_fft)
}

/// `t` is `s` with the newest synthesized frame made from the real parts of
/// the inverse transform and the window weights.
pub open spec fn synthesized<K: Arithmetic>(k: &K, s: State, t: State) -> bool {
    &&& t == State { current: t.current, ..s }
    &&& t.current.len() == FFT_SIZE
    &&& forall|i: int|
        0 <= i < FFT_SIZE ==> synthesizes(
            k,
            s.shifted_fft[i].re,
            s.window[i],
            #[trigger] t.current[i],
        )
}

/// `t` is `s` after the full frame in `buffer1` went through the pipeline:
/// the synthesized frames rotate, the frame is windowed and transformed, its
/// bins are moved by the state's shift factor, and the result is transformed
/// back and windowed into the newest synthesized frame.
pub open spec fn transformed<K: Arithmetic>(k: &K, s: State, t: State) -> bool {
    exists|a: State, b: State, c: State, d: State|
        #![trigger prepared(k, s.rotated(), a), forwarded(k, a, b), shifted(k, b, s.shift, c), inverted(k, c, d)]
        prepared(k, s.rotated(), a) && forwarded(k, a, b) && shifted(k, b, s.shift, c) && inverted(
            k,
            c,
            d,
        ) && synthesized(k, d, t)
}

/// `t` and `y` are the state and the output sample after sample `x` was taken
/// in state `s`.
///
/// The sample is written; if that fills the frame, the frame is transformed and
/// the buffers advance, else the cursor moves on by one. The output is what
/// `mix` made of the two overlapping synthesized samples at the new cursor.
pub open spec fn consumed<K: Arithmetic>(k: &K, s: State, x: u32, t: State, y: u32) -> bool {
    &&& if s.buffer_at + 1 == FFT_SIZE {
        exists|f: State| #[trigger] transformed(k, s.written(x), f) && t == f.advanced()
    } else {
        t == s.written(x).stepped()
    }
    &&& mixes(k, t.overlap().0, t.overlap().1, y)
}

/// `t` and `output` are the state and the output block after the block `input`
/// was taken, sample by sample, in state `s`.
pub open spec fn ran<K: Arithmetic>(
    k: &K,
    s: State,
    input: Seq<u32>,
    t: State,
    output: Seq<u32>,
) -> bool
    decreases input.len(),
{
    &&& output.len() == input.len()
    &&& if input.len() == 0 {
        t == s
    } else {
        exists|m: State|
            ran(k, s, input.drop_last(), m, output.drop_last()) && #[trigger] consumed(
                k,
                m,
                input.last(),
                t,
                output.last(),
            )
    }
}

/// The transform of a frame touches neither the input frames nor the cursor,
/// the window or the shift factor, and what was the newest synthesized frame
/// is the previous one afterwards.
pub proof fn lemma_transformed_keeps_form<K: Arithmetic>(k: &K, s: State, t: State)
    requires
        s.wf(),
        transformed(k, s, t),
    ensures
        t.wf(),
        t.window == s.window,
        t.shift == s.shift,
        t.buffer_at == s.buffer_at,
        t.buffer1 == s.buffer1,
        t.buffer2 == s.buffer2,
        t.last == s.current,
{
    let (a, b, c, d) = choose|a: State, b: State, c: State, d: State|
        #![trigger prepared(k, s.rotated(), a), forwarded(k, a, b), shifted(k, b, s.shift, c), inverted(k, c, d)]
        prepared(k, s.rotated(), a) && forwarded(k, a, b) && shifted(k, b, s.shift, c) && inverted(
            k,
            c,
            d,
        ) && synthesized(k, d, t);
}

/// Taking a sample keeps the state well formed and leaves window and shift
/// factor alone; the cursor ends in the frame, and in its second half once a
/// frame was completed.
pub proof fn lemma_consumed_keeps_form<K: Arithmetic>(k: &K, s: State, x: u32, t: State, y: u32)
    requires
        s.wf(),
        consumed(k, s, x, t, y),
    ensures
        t.wf(),
        t.window == s.window,
        t.shift == s.shift,
        s.buffer_at >= HALF_SIZE ==> t.buffer_at >= HALF_SIZE,
{
    let w = s.written(x);
    if s.buffer_at + 1 == FFT_SIZE {
        let f = choose|f: State| #[trigger] transformed(k, w, f) && t == f.advanced();
        lemma_transformed_keeps_form(k, w, f);
    }
}

/// Processing a block keeps the state well formed and never changes the
/// window or the shift factor.
pub proof fn lemma_ran_keeps_form<K: Arithmetic>(
    k: &K,
    s: State,
    input: Seq<u32>,
    t: State,
    output: Seq<u32>,
)
    requires
        s.wf(),
        ran(k, s, input, t, output),
    ensures
        t.wf(),
        t.window == s.window,
        t.shift == s.shift,
        s.buffer_at >= HALF_SIZE ==> t.buffer_at >= HALF_SIZE,
    decreases input.len(),
{
    if input.len() > 0 {
        let m = choose|m: State|
            ran(k, s, input.drop_last(), m, output.drop_last()) && #[trigger] consumed(
                k,
                m,
                input.last(),
                t,
                output.last(),
            );
        lemma_ran_keeps_form(k, s, input.drop_last(), m, output.drop_last());
        lemma_consumed_keeps_form(k, m, input.last(), t, output.last());
    }
}

/// How the stream is cut into blocks makes no difference: processing `first`
/// and then `second` is processing the two as one block.
pub proof fn lemma_ran_in_two_blocks<K: Arithmetic>(
    k: &K,
    s: State,
    first: Seq<u32>,
    m: State,
    head: Seq<u32>,
    second: Seq<u32>,
    t: State,
    tail: Seq<u32>,
)
    requires
        ran(k, s, first, m, head),
        ran(k, m, second, t, tail),
    ensures
        ran(k, s, first + second, t, head + tail),
    decreases second.len(),
{
    if second.len() == 0 {
    } else {
        let n = choose|n: State|
            ran(k, m, second.drop_last(), n, tail.drop_last()) && #[trigger] consumed(
                k,
                n,
                second.last(),
                t,
                tail.last(),
            );
        lemma_ran_in_two_blocks(k, s, first, m, head, second.drop_last(), n, tail.drop_last());
        assert((first + second).drop_last() =~= first + second.drop_last());
        assert((head + tail).drop_last() =~= head + tail.drop_last());
        assert((first + second).last() == second.last());
        assert((head + tail).last() == tail.last());
    }
}

} // verus!
