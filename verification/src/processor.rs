use vstd::prelude::*;
use crate::bin::Bin;
use crate::error::Error;
use crate::factor::{is_positive_finite, target_of, ShiftFactor};
use crate::{FFT_SIZE, HALF_SIZE};
use crate::kernel::{analyzes, synthesizes, weighs, Arithmetic};
use crate::model::{
    blank, consumed, forwarded, gathers, inverted, is_conjugate_symmetric,
    lemma_gathers_after_the_visit, lemma_gathers_one_more, prepared, ran, shifted, silence,
    synthesized, transformed, State,
};

verus! {

/// The pitch shifter: two staggered input frames, the spectrum buffers, the two
/// newest synthesized frames, the window and the shift factor, together with
/// the arithmetic `kernel` that computes on the numbers.
pub struct Processor<K> {
    current: [u32; FFT_SIZE],
    last: [u32; FFT_SIZE],
    buffer1: [u32; FFT_SIZE],
    buffer2: [u32; FFT_SIZE],
    fft: [Bin; FFT_SIZE],
    shifted_fft: [Bin; FFT_SIZE],
    buffer_at: usize,
    kernel: K,
    window: [u64; FFT_SIZE],
    shift: ShiftFactor,
}

impl<K: Arithmetic> View for Processor<K> {
    type V = State;

    closed spec fn view(&self) -> State {
        State {
            current: self.current@,
            last: self.last@,
            buffer1: self.buffer1@,
            buffer2: self.buffer2@,
            fft: self.fft@,
            shifted_fft: self.shifted_fft@,
            buffer_at: self.buffer_at as nat,
            window: self.window@,
            shift: self.shift@,
        }
    }
}

impl<K> Processor<K> {
    #[verifier::type_invariant]
    spec fn well_formed(self) -> bool {
        self.buffer_at < FFT_SIZE && is_positive_finite(self.shift@)
    }
}

impl<K: Arithmetic> Processor<K> {
    /// The arithmetic that this processor computes with.
    pub closed spec fn arithmetic(&self) -> &K {
        &self.kernel
    }

    /// Where in the frame being filled the next sample goes.
    pub fn cursor(&self) -> (at: usize)
        ensures
            at == self@.buffer_at,
            at < FFT_SIZE,
    {
        proof {
            use_type_invariant(self);
        }
        self.buffer_at
    }

    /// The shift factor in use.
    pub fn shift(&self) -> (by: ShiftFactor)
        ensures
            by@ == self@.shift,
    {
        self.shift
    }

    /// The arithmetic in use.
    pub fn kernel(&self) -> (k: &K)
        ensures
            k == self.arithmetic(),
    {
        &self.kernel
    }

    /// The window weights.
    pub fn window(&self) -> (w: &[u64; FFT_SIZE])
        ensures
            w@ == self@.window,
    {
        &self.window
    }

    /// The newest synthesized frame.
    pub fn current(&self) -> (frame: &[u32; FFT_SIZE])
        ensures
            frame@ == self@.current,
    {
        &self.current
    }

    /// The synthesized frame before the newest.
    pub fn last(&self) -> (frame: &[u32; FFT_SIZE])
        ensures
            frame@ == self@.last,
    {
        &self.last
    }

    /// The input frame being filled.
    pub fn buffer1(&self) -> (frame: &[u32; FFT_SIZE])
        ensures
            frame@ == self@.buffer1,
    {
        &self.buffer1
    }

    /// The input frame that is filled next.
    pub fn buffer2(&self) -> (frame: &[u32; FFT_SIZE])
        ensures
            frame@ == self@.buffer2,
    {
        &self.buffer2
    }

    /// The spectrum buffer.
    pub fn fft(&self) -> (spectrum: &[Bin; FFT_SIZE])
        ensures
            spectrum@ == self@.fft,
    {
        &self.fft
    }

    /// The shifted spectrum buffer.
    pub fn shifted_fft(&self) -> (spectrum: &[Bin; FFT_SIZE])
        ensures
            spectrum@ == self@.shifted_fft,
    {
        &self.shifted_fft
    }

    /// A processor at rest: every buffer zeroed, the cursor at the start, the
    /// window filled with the weights that `kernel` gives for each position.
    /// Refused where `shift` is not the bit pattern of a positive finite
    /// number.
    pub fn new(shift: u32, kernel: K) -> (r: Result<Self, Error>)
        ensures
            !is_positive_finite(shift) ==> r is Err && r->Err_0 == Error::InvalidShift,
            is_positive_finite(shift) ==> r is Ok && ({
                let p = r->Ok_0;
                &&& *p.arithmetic() == kernel
                &&& p@.wf()
                &&& p@ == p@.cleared()
                &&& p@.shift == shift
                &&& forall|i: int| 0 <= i < FFT_SIZE ==> weighs(&kernel, i as usize, #[trigger] p@.window[i])
            }),
    {
        let shift = match ShiftFactor::from_bits(shift) {
            Ok(factor) => factor,
            Err(e) => {
                return Err(e);
            },
        };
        let mut window: [u64; FFT_SIZE] = [0u64; FFT_SIZE];
        let mut i: usize = 0;
        while i < FFT_SIZE
            invariant
                i <= FFT_SIZE,
                forall|j: int| 0 <= j < i ==> weighs(&kernel, j as usize, #[trigger] window@[j]),
            decreases FFT_SIZE - i,
        {
            window[i] = kernel.weight(i);
            i += 1;
        }
        let p = Processor {
            current: [0u32; FFT_SIZE],
            last: [0u32; FFT_SIZE],
            buffer1: [0u32; FFT_SIZE],
            buffer2: [0u32; FFT_SIZE],
            fft: [Bin { re: 0, im: 0 }; FFT_SIZE],
            shifted_fft: [Bin { re: 0, im: 0 }; FFT_SIZE],
            buffer_at: 0,
            kernel,
            window,
            shift,
        };
        proof {
            assert(p.buffer2@ =~= silence());
            assert(p.shifted_fft@ =~= blank());
        }
        Ok(p)
    }

    /// Zeroes every buffer and the cursor. Window, shift factor and kernel
    /// stay as they are.
    pub fn reset(&mut self)
        ensures
            final(self)@ == old(self)@.cleared(),
            final(self)@.wf(),
            final(self).arithmetic() == old(self).arithmetic(),
    {
        proof {
            use_type_invariant(&*self);
        }
        self.buffer_at = 0;
        self.current = [0u32; FFT_SIZE];
        self.last = [0u32; FFT_SIZE];
        self.buffer1 = [0u32; FFT_SIZE];
        self.buffer2 = [0u32; FFT_SIZE];
        self.fft = [Bin { re: 0, im: 0 }; FFT_SIZE];
        self.shifted_fft = [Bin { re: 0, im: 0 }; FFT_SIZE];
        proof {
            assert(self.buffer2@ =~= silence());
            assert(self.shifted_fft@ =~= blank());
        }
    }

    /// Replaces the shift factor; frames already synthesized are not touched.
    /// Refused, with nothing changed, where `shift` is not the bit pattern of a
    /// positive finite number.
    pub fn change_shift(&mut self, shift: u32) -> (r: Result<(), Error>)
        ensures
            is_positive_finite(shift) ==> r is Ok && final(self)@ == old(self)@.with_shift(shift),
            !is_positive_finite(shift) ==> r == Err::<(), Error>(Error::InvalidShift) && final(self)@ == old(self)@,
            final(self)@.wf(),
            final(self).arithmetic() == old(self).arithmetic(),
    {
        proof {
            use_type_invariant(&*self);
        }
        match ShiftFactor::from_bits(shift) {
            Ok(factor) => {
                self.shift = factor;
                Ok(())
            },
            Err(e) => Err(e),
        }
    }

    /// Makes the newest synthesized frame the previous one.
    pub fn move_to_last(&mut self)
        ensures
            final(self)@ == old(self)@.rotated(),
            final(self)@.wf(),
            final(self).arithmetic() == old(self).arithmetic(),
    {
        proof {
            use_type_invariant(&*self);
        }
        std::mem::swap(&mut self.current, &mut self.last);
    }

    /// Windows the frame being filled into the spectrum buffer.
    pub fn prepare_fft(&mut self)
        ensures
            prepared(old(self).arithmetic(), old(self)@, final(self)@),
            final(self)@.wf(),
            final(self).arithmetic() == old(self).arithmetic(),
    {
        proof {
            use_type_invariant(&*self);
        }
        let mut i: usize = 0;
        while i < FFT_SIZE
            invariant
                i <= FFT_SIZE,
                self@ == (State { fft: self@.fft, ..old(self)@ }),
                self@.wf(),
                self.arithmetic() == old(self).arithmetic(),
                forall|j: int|
                    0 <= j < i ==> (#[trigger] self@.fft[j]).im == 0 && analyzes(
                        self.arithmetic(),
                        self@.buffer1[j],
                        self@.window[j],
                        self@.fft[j].re,
                    ),
            decreases FFT_SIZE - i,
        {
            let re: u64 = self.kernel.analyze(self.buffer1[i], self.window[i]);
            self.fft[i] = Bin { re, im: 0 };
            i += 1;
        }
    }

    /// Takes the spectrum buffer to the frequency domain.
    pub fn compute_fft(&mut self)
        ensures
            forwarded(old(self).arithmetic(), old(self)@, final(self)@),
            final(self)@.wf(),
            final(self).arithmetic() == old(self).arithmetic(),
    {
        proof {
            use_type_invariant(&*self);
        }
        self.fft = self.kernel.forward(self.fft);
    }

    /// Moves the bins of the spectrum by the factor `by` into the shifted
    /// spectrum, and makes the result conjugate-symmetric so that its inverse
    /// transform is real.
    ///
    /// Source bins are visited from bin 0 for as long as `floor(freq * by)` is
    /// at most the Nyquist bin, which reaches every bin that has a target;
    /// each is added to the bin with that index, so bins that collide add up
    /// and bins that nothing is moved to stay zero. The Nyquist bin is halved
    /// before the visit and doubled after it.
    pub fn shift_fft(&mut self, by: ShiftFactor)
        ensures
            shifted(old(self).arithmetic(), old(self)@, by@, final(self)@),
            is_conjugate_symmetric(final(self)@.shifted_fft),
            final(self)@.wf(),
            final(self).arithmetic() == old(self).arithmetic(),
    {
        proof {
            use_type_invariant(&*self);
        }
        self.shifted_fft = [Bin { re: 0, im: 0 }; FFT_SIZE];
        self.fft[HALF_SIZE] = self.kernel.halve(self.fft[HALF_SIZE]);
        let ghost halved = self@;
        let ghost k = self.arithmetic();
        let mut freq: usize = 0;
        let mut next: Option<usize> = by.target(0);
        while next.is_some()
            invariant
                freq <= FFT_SIZE,
                self@.wf(),
                self.arithmetic() == k,
                self@ == (State { shifted_fft: self@.shifted_fft, ..halved }),
                next is Some <==> target_of(by@, freq as nat) is Some,
                next matches Some(d) ==> target_of(by@, freq as nat) == Some(d as nat),
                forall|to: nat|
                    to < FFT_SIZE ==> gathers(
                        k,
                        halved.fft,
                        by@,
                        to,
                        freq as nat,
                        #[trigger] self@.shifted_fft[to as int],
                    ),
            decreases FFT_SIZE - freq,
        {
            let d: usize = next.unwrap();
            let ghost before = self@.shifted_fft;
            let sum: Bin = self.kernel.accumulate(self.shifted_fft[d], self.fft[freq]);
            self.shifted_fft[d] = sum;
            proof {
                assert forall|to: nat| to < FFT_SIZE implies gathers(
                    k,
                    halved.fft,
                    by@,
                    to,
                    (freq + 1) as nat,
                    #[trigger] self@.shifted_fft[to as int],
                ) by {
                    if to == d {
                        lemma_gathers_one_more(
                            k,
                            halved.fft,
                            by@,
                            to,
                            freq as nat,
                            before[to as int],
                            sum,
                        );
                    }
                }
            }
            freq += 1;
            next = by.target(freq);
        }
        let ghost gathered = self@.shifted_fft;
        proof {
            assert forall|to: nat| to < FFT_SIZE implies gathers(
                k,
                halved.fft,
                by@,
                to,
                FFT_SIZE as nat,
                #[trigger] gathered[to as int],
            ) by {
                lemma_gathers_after_the_visit(
                    k,
                    halved.fft,
                    by@,
                    to,
                    freq as nat,
                    FFT_SIZE as nat,
                    gathered[to as int],
                );
            }
        }
        self.shifted_fft[HALF_SIZE] = self.kernel.double(self.shifted_fft[HALF_SIZE]);
        let ghost doubled = self@.shifted_fft;
        let mut i: usize = 1;
        while i < HALF_SIZE
            invariant
                1 <= i <= HALF_SIZE,
                self@.wf(),
                self.arithmetic() == k,
                self@ == (State { shifted_fft: self@.shifted_fft, ..halved }),
                doubled.len() == FFT_SIZE,
                forall|j: int| 0 <= j <= HALF_SIZE ==> #[trigger] self@.shifted_fft[j] == doubled[j],
                forall|j: int|
                    1 <= j < i ==> #[trigger] self@.shifted_fft[FFT_SIZE - j]
                        == self@.shifted_fft[j].conjugate(),
            decreases HALF_SIZE - i,
        {
            self.shifted_fft[FFT_SIZE - i] = self.shifted_fft[i].conj();
            i += 1;
        }
        assert(gathers(k, halved.fft, by@, HALF_SIZE as nat, FFT_SIZE as nat, gathered[HALF_SIZE as int]));
    }

    /// Takes the shifted spectrum back to the time domain.
    pub fn compute_ifft(&mut self)
        ensures
            inverted(old(self).arithmetic(), old(self)@, final(self)@),
            final(self)@.wf(),
            final(self).arithmetic() == old(self).arithmetic(),
    {
        proof {
            use_type_invariant(&*self);
        }
        self.shifted_fft = self.kernel.inverse(self.shifted_fft);
    }

    /// Takes the block `input` sample by sample and writes one output sample
    /// for each into `output`.
    ///
    /// Each sample goes into both input frames, half a frame apart. When that
    /// fills a frame, the frame is windowed, transformed, shifted by the
    /// current factor, transformed back and windowed again, and the two input
    /// frames change places. The output sample is the sum of the two
    /// synthesized frames where they overlap.
    ///
    /// Refused, with nothing changed, where the two blocks differ in length.
    pub fn process(&mut self, input: &[u32], output: &mut [u32]) -> (r: Result<(), Error>)
        ensures
            input@.len() != old(output)@.len() ==> r == Err::<(), Error>(Error::LengthMismatch)
                && final(self)@ == old(self)@ && final(output)@ == old(output)@,
            input@.len() == old(output)@.len() ==> r is Ok && ran(
                old(self).arithmetic(),
                old(self)@,
                input@,
                final(self)@,
                final(output)@,
            ),
            final(self)@.wf(),
            final(self).arithmetic() == old(self).arithmetic(),
    {
        proof {
            use_type_invariant(&*self);
        }
        if input.len() != output.len() {
            return Err(Error::LengthMismatch);
        }
        let ghost k = self.arithmetic();
        let ghost start = self@;
        let mut i: usize = 0;
        while i < input.len()
            invariant
                i <= input@.len(),
                output@.len() == input@.len(),
                self@.wf(),
                self.arithmetic() == k,
                ran(k, start, input@.take(i as int), self@, output@.take(i as int)),
            decreases input@.len() - i,
        {
            let ghost before = self@;
            let ghost emitted = output@;
            let x: u32 = input[i];
            self.buffer1[self.buffer_at] = x;
            self.buffer2[(self.buffer_at + HALF_SIZE) % FFT_SIZE] = x;
            if self.buffer_at + 1 == FFT_SIZE {
                let by: ShiftFactor = self.shift;
                self.move_to_last();
                self.prepare_fft();
                self.compute_fft();
                self.shift_fft(by);
                self.compute_ifft();
                self.use_ifft();
                assert(transformed(k, before.written(x), self@));
                self.buffer_at = HALF_SIZE;
                std::mem::swap(&mut self.buffer1, &mut self.buffer2);
            } else {
                self.buffer_at = self.buffer_at + 1;
            }
            let y: u32 = self.kernel.mix(
                self.current[(self.buffer_at + HALF_SIZE) % FFT_SIZE],
                self.last[self.buffer_at],
            );
            output[i] = y;
            proof {
                assert(consumed(k, before, x, self@, y));
                let fed = input@.take(i + 1);
                let out = output@.take(i + 1);
                assert(fed.drop_last() =~= input@.take(i as int));
                assert(out.drop_last() =~= emitted.take(i as int));
                assert(fed.last() == x);
                assert(out.last() == y);
            }
            i += 1;
        }
        proof {
            assert(input@.take(i as int) =~= input@);
            assert(output@.take(i as int) =~= output@);
        }
        Ok(())
    }

    /// Windows the real parts of the inverse transform into the newest
    /// synthesized frame.
    pub fn use_ifft(&mut self)
        ensures
            synthesized(old(self).arithmetic(), old(self)@, final(self)@),
            final(self)@.wf(),
            final(self).arithmetic() == old(self).arithmetic(),
    {
        proof {
            use_type_invariant(&*self);
        }
        let mut i: usize = 0;
        while i < FFT_SIZE
            invariant
                i <= FFT_SIZE,
                self@ == (State { current: self@.current, ..old(self)@ }),
                self@.wf(),
                self.arithmetic() == old(self).arithmetic(),
                forall|j: int|
                    0 <= j < i ==> synthesizes(
                        self.arithmetic(),
                        self@.shifted_fft[j].re,
                        self@.window[j],
                        #[trigger] self@.current[j],
                    ),
            decreases FFT_SIZE - i,
        {
            self.current[i] = self.kernel.synthesize(self.shifted_fft[i].re, self.window[i]);
            i += 1;
        }
    }
}

} // verus!
