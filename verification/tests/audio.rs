use std::f64::consts::PI;
use std::sync::Arc;

use pitch_shifter::{Arithmetic, Bin, Processor, ShiftFactor, FFT_SIZE};
use rustfft::num_complex::Complex;
use rustfft::{Fft, FftPlanner};

const HALF: usize = FFT_SIZE / 2;
const SAMPLE_RATE: f64 = 44100.0;

/// The arithmetic in floating point, the transforms by rustfft.
struct FloatKernel {
    forward: Arc<dyn Fft<f64>>,
    inverse: Arc<dyn Fft<f64>>,
}

impl FloatKernel {
    fn new() -> Self {
        let mut planner = FftPlanner::<f64>::new();
        FloatKernel {
            forward: planner.plan_fft_forward(FFT_SIZE),
            inverse: planner.plan_fft_inverse(FFT_SIZE),
        }
    }
}

fn complex(bin: Bin) -> Complex<f64> {
    Complex { re: f64::from_bits(bin.re), im: f64::from_bits(bin.im) }
}

fn bin(c: Complex<f64>) -> Bin {
    Bin { re: c.re.to_bits(), im: c.im.to_bits() }
}

fn transform(fft: &Arc<dyn Fft<f64>>, mut bins: [Bin; FFT_SIZE]) -> [Bin; FFT_SIZE] {
    let mut buffer: Vec<Complex<f64>> = bins.iter().map(|&b| complex(b)).collect();
    fft.process(&mut buffer);
    for (b, c) in bins.iter_mut().zip(buffer) {
        *b = bin(c);
    }
    bins
}

impl Arithmetic for FloatKernel {
    fn weight(&self, i: usize) -> u64 {
        ((i as f64) * PI / FFT_SIZE as f64).sin().to_bits()
    }

    fn analyze(&self, sample: u32, weight: u64) -> u64 {
        (f32::from_bits(sample) as f64 * f64::from_bits(weight)).to_bits()
    }

    fn forward(&self, frame: [Bin; FFT_SIZE]) -> [Bin; FFT_SIZE] {
        transform(&self.forward, frame)
    }

    fn halve(&self, b: Bin) -> Bin {
        let mut c = complex(b);
        c /= 2.0;
        bin(c)
    }

    fn accumulate(&self, sum: Bin, b: Bin) -> Bin {
        let mut c = complex(sum);
        c += complex(b);
        bin(c)
    }

    fn double(&self, b: Bin) -> Bin {
        let mut c = complex(b);
        c *= 2.0;
        bin(c)
    }

    fn inverse(&self, spectrum: [Bin; FFT_SIZE]) -> [Bin; FFT_SIZE] {
        transform(&self.inverse, spectrum)
    }

    fn synthesize(&self, value: u64, weight: u64) -> u32 {
        ((f64::from_bits(value) * f64::from_bits(weight) / FFT_SIZE as f64) as f32).to_bits()
    }

    fn mix(&self, a: u32, b: u32) -> u32 {
        (f32::from_bits(a) + f32::from_bits(b)).to_bits()
    }
}

fn shifter(by: f32) -> Box<Processor<FloatKernel>> {
    Box::new(Processor::new(by.to_bits(), FloatKernel::new()).unwrap())
}

fn run(p: &mut Processor<FloatKernel>, input: &[f32]) -> Vec<f32> {
    let bits: Vec<u32> = input.iter().map(|s| s.to_bits()).collect();
    let mut out = vec![0u32; bits.len()];
    assert_eq!(p.process(&bits, &mut out), Ok(()));
    out.into_iter().map(f32::from_bits).collect()
}

fn sine(frequency: f64, len: usize) -> Vec<f32> {
    (0..len).map(|n| (2.0 * PI * frequency * n as f64 / SAMPLE_RATE).sin() as f32).collect()
}

fn noise(len: usize) -> Vec<f32> {
    let mut state: u32 = 0x1234_5678;
    (0..len)
        .map(|_| {
            state = state.wrapping_mul(1_664_525).wrapping_add(1_013_904_223);
            (state >> 8) as f32 / (1u32 << 23) as f32 - 1.0
        })
        .collect()
}

/// The whole effect written out in floating point, with nothing of the
/// library in it.
struct Plain {
    current: Vec<f32>,
    last: Vec<f32>,
    buffer1: Vec<f32>,
    buffer2: Vec<f32>,
    fft: Vec<Complex<f64>>,
    shifted_fft: Vec<Complex<f64>>,
    buffer_at: usize,
    window: Vec<f64>,
    shift: f32,
    forward: Arc<dyn Fft<f64>>,
    inverse: Arc<dyn Fft<f64>>,
}

impl Plain {
    fn new(shift: f32) -> Self {
        let mut planner = FftPlanner::<f64>::new();
        Plain {
            current: vec![0.0; FFT_SIZE],
            last: vec![0.0; FFT_SIZE],
            buffer1: vec![0.0; FFT_SIZE],
            buffer2: vec![0.0; FFT_SIZE],
            fft: vec![Complex { re: 0.0, im: 0.0 }; FFT_SIZE],
            shifted_fft: vec![Complex { re: 0.0, im: 0.0 }; FFT_SIZE],
            buffer_at: 0,
            window: (0..FFT_SIZE).map(|i| ((i as f64) * PI / FFT_SIZE as f64).sin()).collect(),
            shift,
            forward: planner.plan_fft_forward(FFT_SIZE),
            inverse: planner.plan_fft_inverse(FFT_SIZE),
        }
    }

    fn frame(&mut self) {
        std::mem::swap(&mut self.current, &mut self.last);
        for i in 0..FFT_SIZE {
            self.fft[i] = Complex { re: self.buffer1[i] as f64 * self.window[i], im: 0.0 };
        }
        self.forward.process(&mut self.fft);
        for value in &mut self.shifted_fft {
            *value = Complex { re: 0.0, im: 0.0 };
        }
        self.fft[HALF] /= 2.0;
        let mut freq: usize = 0;
        while freq < FFT_SIZE && (freq as f32) * self.shift < (HALF + 1) as f32 {
            let new_freq = (freq as f32) * self.shift;
            self.shifted_fft[new_freq as usize] += self.fft[freq];
            freq += 1;
        }
        self.shifted_fft[HALF] *= 2.0;
        for i in 1..=(HALF - 1) {
            self.shifted_fft[FFT_SIZE - i] = self.shifted_fft[i].conj();
        }
        self.inverse.process(&mut self.shifted_fft);
        for i in 0..FFT_SIZE {
            self.current[i] = (self.shifted_fft[i].re * self.window[i] / FFT_SIZE as f64) as f32;
        }
    }

    fn process(&mut self, input: &[f32]) -> Vec<f32> {
        let mut output = vec![0.0; input.len()];
        for i in 0..input.len() {
            self.buffer1[self.buffer_at] = input[i];
            self.buffer2[(self.buffer_at + HALF) % FFT_SIZE] = input[i];
            self.buffer_at += 1;
            if self.buffer_at == FFT_SIZE {
                self.frame();
                self.buffer_at = HALF;
                std::mem::swap(&mut self.buffer1, &mut self.buffer2);
            }
            output[i] = self.current[(self.buffer_at + HALF) % FFT_SIZE] + self.last[self.buffer_at];
        }
        output
    }
}

fn same_bits(a: &[f32], b: &[f32]) -> bool {
    a.len() == b.len() && a.iter().zip(b).all(|(x, y)| x.to_bits() == y.to_bits())
}

#[test]
fn output_equals_the_plain_floating_point_pipeline_bit_for_bit() {
    let mut input = noise(2 * FFT_SIZE + 300);
    input.extend(sine(440.0, 2 * FFT_SIZE + 11));
    for by in [1.0f32, 1.5, 0.9, 0.75, 2.0, 1.059_463_1, 0.4, 0.1, 3.3] {
        let mut p = shifter(by);
        let mut plain = Plain::new(by);
        let got = run(&mut p, &input);
        let expected = plain.process(&input);
        assert!(same_bits(&got, &expected), "factor {by}");
        assert!(got.iter().any(|&s| s != 0.0));
    }
}

#[test]
fn silence_in_gives_silence_out_for_every_shift() {
    for by in [1.0f32, 0.5, 2.0, 1.3, 0.01, 100.0, f32::MIN_POSITIVE, f32::MAX] {
        let mut p = shifter(by);
        run(&mut p, &noise(2 * FFT_SIZE + 100));
        p.reset();
        for len in [0usize, 1, HALF, FFT_SIZE - 1, FFT_SIZE, 3 * FFT_SIZE + 17] {
            let out = run(&mut p, &vec![0.0; len]);
            assert_eq!(out.len(), len);
            assert!(out.iter().all(|&s| s == 0.0), "factor {by}, length {len}");
        }
    }
}

#[test]
fn negative_zeros_count_as_silence() {
    let mut p = shifter(1.5);
    let out = run(&mut p, &vec![-0.0; 2 * FFT_SIZE]);
    assert!(out.iter().all(|&s| s == 0.0));
}

#[test]
fn window_is_a_symmetric_half_sine() {
    let p = shifter(1.0);
    let window: Vec<f64> = p.window().iter().map(|&w| f64::from_bits(w)).collect();
    assert_eq!(window[0], 0.0);
    assert_eq!(window[HALF], 1.0);
    for i in 1..FFT_SIZE {
        assert!((window[i] - window[FFT_SIZE - i]).abs() < 1e-12);
        assert!(window[i] > 0.0 && window[i] <= 1.0);
        assert!((window[i] - ((i as f64) * PI / FFT_SIZE as f64).sin()).abs() < 1e-15);
    }
}

#[test]
fn overlapping_window_halves_add_up_to_one() {
    let p = shifter(1.0);
    let window: Vec<f64> = p.window().iter().map(|&w| f64::from_bits(w)).collect();
    for i in 0..HALF {
        let sum = window[i] * window[i] + window[i + HALF] * window[i + HALF];
        assert!((sum - 1.0).abs() < 1e-12);
    }
}

#[test]
fn shift_of_a_real_spectrum_is_conjugate_symmetric() {
    for by in [1.0f32, 1.5, 0.7, 2.0] {
        let mut p = shifter(by);
        run(&mut p, &noise(FFT_SIZE - 1));
        p.prepare_fft();
        p.compute_fft();
        p.shift_fft(ShiftFactor::from_bits(by.to_bits()).unwrap());
        let shifted = p.shifted_fft();
        for i in 1..HALF {
            let mirrored = complex(shifted[FFT_SIZE - i]);
            let conj = complex(shifted[i]).conj();
            assert_eq!(mirrored.re.to_bits(), conj.re.to_bits());
            assert_eq!(mirrored.im.to_bits(), conj.im.to_bits());
        }
        assert!(shifted.iter().any(|b| f64::from_bits(b.re) != 0.0));
    }
}

#[test]
fn inverse_of_the_unshifted_spectrum_is_real() {
    let mut p = shifter(1.0);
    run(&mut p, &noise(FFT_SIZE - 1));
    p.prepare_fft();
    p.compute_fft();
    p.shift_fft(ShiftFactor::from_bits(1.0f32.to_bits()).unwrap());
    p.compute_ifft();
    let scale = p.shifted_fft().iter().map(|b| f64::from_bits(b.re).abs()).fold(0.0, f64::max);
    assert!(scale > 1.0);
    for b in p.shifted_fft().iter() {
        assert!(f64::from_bits(b.im).abs() <= 1e-9 * scale);
    }
}

#[test]
fn unity_shift_gives_back_the_input_one_frame_late() {
    let len = 4 * FFT_SIZE;
    let input = sine(440.0, len);
    let mut p = shifter(1.0);
    let out = run(&mut p, &input);
    let delay = FFT_SIZE - 1;
    // before the first frame is complete nothing comes out
    assert!(out[..delay].iter().all(|&s| s == 0.0));
    // from the second frame on, both overlapping halves are there
    let from = delay + HALF;
    let mut sum = 0.0f64;
    for n in from..len {
        let error = (out[n] - input[n - delay]) as f64;
        sum += error * error;
    }
    let rms = (sum / (len - from) as f64).sqrt();
    assert!(rms < 1e-6, "rms error {rms}");
}

fn dominant_bin(block: &[f32]) -> usize {
    let mut planner = FftPlanner::<f64>::new();
    let fft = planner.plan_fft_forward(FFT_SIZE);
    let mut buffer: Vec<Complex<f64>> = (0..FFT_SIZE)
        .map(|i| Complex {
            re: block[i] as f64 * (0.5 - 0.5 * (2.0 * PI * i as f64 / FFT_SIZE as f64).cos()),
            im: 0.0,
        })
        .collect();
    fft.process(&mut buffer);
    (0..=HALF).max_by(|&a, &b| buffer[a].norm_sqr().total_cmp(&buffer[b].norm_sqr())).unwrap()
}

#[test]
fn dominant_frequency_follows_the_shift() {
    let bin_width = SAMPLE_RATE / FFT_SIZE as f64;
    for (frequency, by) in [
        (440.0f64, 1.0f32),
        (440.0, 1.5),
        (440.0, 1.25),
        (440.0, 0.8),
        (440.0, 0.75),
        (440.0, 3.0),
        (1000.0, 1.5),
        (2500.0, 2.0),
    ] {
        let mut p = shifter(by);
        let out = run(&mut p, &sine(frequency, 6 * FFT_SIZE));
        let block = &out[4 * FFT_SIZE..5 * FFT_SIZE];
        let found = dominant_bin(block) as f64 * bin_width;
        let wanted = frequency * by as f64;
        assert!(
            (found - wanted).abs() <= bin_width,
            "{frequency} Hz shifted by {by}: found {found} Hz, wanted {wanted} Hz"
        );
    }
}

#[test]
fn latency_is_fixed() {
    // an impulse comes out again one frame less one sample later
    let mut input = vec![0.0f32; 3 * FFT_SIZE];
    let at = FFT_SIZE + 700;
    input[at] = 1.0;
    let mut p = shifter(1.0);
    let out = run(&mut p, &input);
    let peak = (0..out.len()).max_by(|&a, &b| out[a].abs().total_cmp(&out[b].abs())).unwrap();
    assert_eq!(peak, at + FFT_SIZE - 1);
    assert!((out[peak] - 1.0).abs() < 1e-6);
}
