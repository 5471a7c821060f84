use vstd::prelude::*;
use crate::bin::Bin;
use crate::FFT_SIZE;

verus! {

/// The arithmetic on real and complex numbers that the pitch shifter is built
/// on. The library never computes with the numbers themselves: it hands bit
/// patterns to these operations and puts the results where they belong.
///
/// The methods carry no contract. Whatever the library states about a value
/// that one of them produced says only which call produced it, and on which
/// arguments (see the relations below).
pub trait Arithmetic {
    /// The window weight at position `i` of a frame, in double precision. For
    /// the half-sine window this is `sin(i * pi / FFT_SIZE)`.
    fn weight(&self, i: usize) -> u64;

    /// The single-precision `sample`, widened and multiplied by `weight`.
    fn analyze(&self, sample: u32, weight: u64) -> u64;

    /// The forward discrete Fourier transform of a frame.
    fn forward(&self, frame: [Bin; FFT_SIZE]) -> [Bin; FFT_SIZE];

    /// `bin / 2`.
    fn halve(&self, bin: Bin) -> Bin;

    /// `sum + bin`.
    fn accumulate(&self, sum: Bin, bin: Bin) -> Bin;

    /// `bin * 2`.
    fn double(&self, bin: Bin) -> Bin;

    /// The inverse discrete Fourier transform of a spectrum, not normalised.
    fn inverse(&self, spectrum: [Bin; FFT_SIZE]) -> [Bin; FFT_SIZE];

    /// `value * weight / FFT_SIZE`, narrowed to single precision.
    fn synthesize(&self, value: u64, weight: u64) -> u32;

    /// `a + b` in single precision.
    fn mix(&self, a: u32, b: u32) -> u32;
}

/// `w` is what `weight` returned for position `i`.
pub open spec fn weighs<K: Arithmetic>(k: &K, i: usize, w: u64) -> bool {
    call_ensures(K::weight, (k, i), w)
}

/// `r` is what `analyze` returned for `sample` and `weight`.
pub open spec fn analyzes<K: Arithmetic>(k: &K, sample: u32, weight: u64, r: u64) -> bool {
    call_ensures(K::analyze, (k, sample, weight), r)
}

/// `spectrum` is what `forward` returned for `frame`.
pub open spec fn forwards<K: Arithmetic>(k: &K, frame: Seq<Bin>, spectrum: Seq<Bin>) -> bool {
    exists|a: [Bin; FFT_SIZE], b: [Bin; FFT_SIZE]|
        a@ == frame && b@ == spectrum && #[trigger] call_ensures(K::forward, (k, a), b)
}

/// `r` is what `halve` returned for `bin`.
pub open spec fn halves<K: Arithmetic>(k: &K, bin: Bin, r: Bin) -> bool {
    call_ensures(K::halve, (k, bin), r)
}

/// `r` is what `accumulate` returned for `sum` and `bin`.
pub open spec fn accumulates<K: Arithmetic>(k: &K, sum: Bin, bin: Bin, r: Bin) -> bool {
    call_ensures(K::accumulate, (k, sum, bin), r)
}

/// `r` is what `double` returned for `bin`.
pub open spec fn doubles<K: Arithmetic>(k: &K, bin: Bin, r: Bin) -> bool {
    call_ensures(K::double, (k, bin), r)
}

/// `frame` is what `inverse` returned for `spectrum`.
pub open spec fn inverts<K: Arithmetic>(k: &K, spectrum: Seq<Bin>, frame: Seq<Bin>) -> bool {
    exists|a: [Bin; FFT_SIZE], b: [Bin; FFT_SIZE]|
        a@ == spectrum && b@ == frame && #[trigger] call_ensures(K::inverse, (k, a), b)
}

/// `r` is what `synthesize` returned for `value` and `weight`.
pub open spec fn synthesizes<K: Arithmetic>(k: &K, value: u64, weight: u64, r: u32) -> bool {
    call_ensures(K::synthesize, (k, value, weight), r)
}

/// `r` is what `mix` returned for `a` and `b`.
pub open spec fn mixes<K: Arithmetic>(k: &K, a: u32, b: u32, r: u32) -> bool {
    call_ensures(K::mix, (k, a, b), r)
}

} // verus!
