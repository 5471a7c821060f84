use vstd::prelude::*;
use vstd::arithmetic::power2::{
    lemma2_to64, lemma_pow2_adds, lemma_pow2_pos, lemma_pow2_strictly_increases, lemma_pow2_unfold,
    pow2,
};
use vstd::arithmetic::div_mod::{
    lemma_basic_div, lemma_div_by_multiple, lemma_div_denominator, lemma_div_is_ordered,
    lemma_div_is_ordered_by_denominator, lemma_div_multiples_vanish,
    lemma_div_multiples_vanish_quotient, lemma_fundamental_div_mod, lemma_mod_multiples_basic,
    lemma_multiply_divide_lt,
};
use vstd::arithmetic::mul::lemma_mul_inequality;
use vstd::bits::lemma_u64_shl_is_mul;
use crate::error::Error;
use crate::{FFT_SIZE, HALF_SIZE};

verus! {

/// The bits of 1.0, the factor that leaves the pitch as it is.
pub const UNITY: u32 = 0x3F80_0000;

/// A single-precision bit pattern stands for a positive finite number: the
/// sign bit is clear, the exponent field is not all ones, and the pattern is
/// not that of zero.
pub open spec fn is_positive_finite(bits: u32) -> bool {
    0 < bits < 0x7F80_0000
}

/// The exponent field of a pattern whose sign bit is clear.
pub open spec fn exponent_field(bits: u32) -> nat {
    (bits / 0x80_0000) as nat
}

/// The integer `m` in `value = m * 2^e`: the fraction field, with the hidden
/// leading bit where the number is normal.
pub open spec fn significand(bits: u32) -> nat {
    if exponent_field(bits) == 0 {
        (bits % 0x80_0000) as nat
    } else {
        (0x80_0000 + bits % 0x80_0000) as nat
    }
}

/// The integer `e` in `value = m * 2^e`.
pub open spec fn exponent(bits: u32) -> int {
    if exponent_field(bits) == 0 {
        -149
    } else {
        exponent_field(bits) - 150
    }
}

/// How many low bits of `p` do not fit in a 24-bit significand.
pub open spec fn surplus(p: nat) -> nat
    decreases p,
{
    if p < 0x100_0000 {
        0
    } else {
        1 + surplus(p / 2)
    }
}

/// `p / d` rounded to the nearest integer, a tie going to the even neighbour.
pub open spec fn nearest(p: nat, d: nat) -> nat {
    let q = p / d;
    let r = p % d;
    if 2 * r > d || (2 * r == d && q % 2 == 1) {
        q + 1
    } else {
        q
    }
}

/// `floor(v * 2^e)`.
pub open spec fn floor_scaled(v: nat, e: int) -> nat {
    if e >= 0 {
        v * pow2(e as nat)
    } else {
        v / pow2((-e) as nat)
    }
}

/// `floor(freq * factor)`, the product taken in single precision: the exact
/// product `freq * m * 2^e` is rounded to 24 significant bits, ties to even,
/// before the floor is taken.
pub open spec fn image(bits: u32, freq: nat) -> nat {
    let p = freq * significand(bits);
    let k = surplus(p);
    floor_scaled(nearest(p, pow2(k)), k + exponent(bits))
}

/// The bin that source bin `freq` is moved to: `floor(freq * factor)` where
/// that is at most the Nyquist bin. A source index outside the spectrum has no
/// target.
pub open spec fn target_of(bits: u32, freq: nat) -> Option<nat> {
    if freq < FFT_SIZE && image(bits, freq) <= HALF_SIZE {
        Some(image(bits, freq))
    } else {
        None
    }
}

/// A pitch ratio: a positive finite single-precision number, held as its bits.
/// 1.0 leaves the pitch as it is, a larger factor raises it, a smaller one
/// lowers it.
#[derive(Clone, Copy, Debug)]
pub struct ShiftFactor {
    bits: u32,
}

impl View for ShiftFactor {
    type V = u32;

    closed spec fn view(&self) -> u32 {
        self.bits
    }
}

proof fn lemma_quotient_bound(p: u64, d: u64)
    requires
        d > 0,
        p < 0x10_0000_0000,
        p / d >= 0x100_0000,
    ensures
        d < 0x1000,
{
    lemma_fundamental_div_mod(p as int, d as int);
    assert(d * (p / d) >= d * 0x100_0000) by (nonlinear_arith)
        requires
            d > 0,
            p / d >= 0x100_0000,
    ;
}

impl ShiftFactor {
    #[verifier::type_invariant]
    spec fn well_formed(self) -> bool {
        is_positive_finite(self.bits)
    }

    /// Accepts the bits of a positive finite number and refuses every other
    /// pattern: zero of either sign, negative numbers, infinities and NaN.
    pub fn from_bits(bits: u32) -> (r: Result<ShiftFactor, Error>)
        ensures
            is_positive_finite(bits) ==> r is Ok && r->Ok_0@ == bits,
            !is_positive_finite(bits) ==> r == Err::<ShiftFactor, Error>(Error::InvalidShift),
    {
        if 0 < bits && bits < 0x7F80_0000 {
            Ok(ShiftFactor { bits })
        } else {
            Err(Error::InvalidShift)
        }
    }

    /// The bits the factor was made from.
    pub fn to_bits(&self) -> (bits: u32)
        ensures
            bits == self@,
            is_positive_finite(bits),
    {
        proof {
            use_type_invariant(self);
        }
        self.bits
    }

    /// The destination of source bin `freq`, if it has one.
    pub fn target(&self, freq: usize) -> (r: Option<usize>)
        ensures
            r is Some <==> target_of(self@, freq as nat) is Some,
            r matches Some(d) ==> target_of(self@, freq as nat) == Some(d as nat),
    {
        proof {
            use_type_invariant(self);
            lemma2_to64();
        }
        if freq >= FFT_SIZE {
            return None;
        }
        let field: u32 = self.bits / 0x80_0000;
        let fraction: u32 = self.bits % 0x80_0000;
        let m: u64 = if field == 0 {
            fraction as u64
        } else {
            fraction as u64 + 0x80_0000
        };
        let e: i32 = if field == 0 {
            -149
        } else {
            field as i32 - 150
        };
        assert(freq * m < 0x10_0000_0000) by (nonlinear_arith)
            requires
                freq < 4096,
                m < 0x100_0000,
        ;
        let p: u64 = freq as u64 * m;
        let mut k: u32 = 0;
        let mut d: u64 = 1;
        while p / d >= 0x100_0000
            invariant
                d == pow2(k as nat),
                0 < d <= 0x1000,
                k <= 12,
                p < 0x10_0000_0000,
                surplus(p as nat) == k + surplus((p / d) as nat),
            decreases p / d,
        {
            proof {
                lemma_quotient_bound(p, d);
                lemma_div_denominator(p as int, d as int, 2);
                lemma_pow2_unfold((k + 1) as nat);
                lemma2_to64();
                if k >= 12 {
                    lemma_pow2_strictly_increases(11, k as nat);
                }
            }
            d = d * 2;
            k = k + 1;
        }
        let q: u64 = p / d;
        let r: u64 = p % d;
        let kept: u64 = if 2 * r > d || (2 * r == d && q % 2 == 1) {
            q + 1
        } else {
            q
        };
        let s: i32 = k as i32 + e;
        if s >= 0 {
            if kept == 0 {
                assert(floor_scaled(0, s as int) == 0) by (nonlinear_arith)
                    requires
                        s >= 0,
                        floor_scaled(0, s as int) == 0 * pow2(s as nat),
                ;
                Some(0)
            } else if s >= 12 {
                proof {
                    if s > 12 {
                        lemma_pow2_strictly_increases(12, s as nat);
                    }
                    assert(kept * pow2(s as nat) >= 4096) by (nonlinear_arith)
                        requires
                            kept >= 1,
                            pow2(s as nat) >= 4096,
                    ;
                }
                None
            } else {
                let scale: u64 = 1u64 << (s as u64);
                proof {
                    lemma_u64_shl_is_mul(1, s as u64);
                    assert(kept * scale <= 0x100_0000 * 0x800) by (nonlinear_arith)
                        requires
                            kept <= 0x100_0000,
                            scale <= 0x800,
                    ;
                }
                let v: u64 = kept * scale;
                if v <= HALF_SIZE as u64 {
                    Some(v as usize)
                } else {
                    None
                }
            }
        } else {
            let t: i32 = -s;
            if t >= 25 {
                proof {
                    if t > 25 {
                        lemma_pow2_strictly_increases(25, t as nat);
                    }
                    lemma_basic_div(kept as int, pow2(t as nat) as int);
                }
                Some(0)
            } else {
                let scale: u64 = 1u64 << (t as u64);
                proof {
                    lemma_u64_shl_is_mul(1, t as u64);
                }
                let v: u64 = kept / scale;
                if v <= HALF_SIZE as u64 {
                    Some(v as usize)
                } else {
                    None
                }
            }
        }
    }
}

proof fn lemma_surplus_range(p: nat)
    ensures
        surplus(p) == 0 ==> p < 0x100_0000,
        surplus(p) > 0 ==> 0x80_0000 * pow2(surplus(p)) <= p < 0x100_0000 * pow2(surplus(p)),
    decreases p,
{
    if p >= 0x100_0000 {
        lemma_surplus_range(p / 2);
        let k = surplus(p / 2);
        lemma_pow2_unfold(k + 1);
        lemma2_to64();
    }
}

proof fn lemma_surplus_monotone(p1: nat, p2: nat)
    requires
        p1 <= p2,
    ensures
        surplus(p1) <= surplus(p2),
    decreases p2,
{
    if p1 >= 0x100_0000 {
        lemma_surplus_monotone(p1 / 2, p2 / 2);
    }
}

proof fn lemma_nearest_monotone(p1: nat, p2: nat, d: nat)
    requires
        p1 <= p2,
        d > 0,
    ensures
        nearest(p1, d) <= nearest(p2, d),
        p1 / d <= nearest(p1, d) <= p1 / d + 1,
{
    lemma_div_is_ordered(p1 as int, p2 as int, d as int);
    lemma_fundamental_div_mod(p1 as int, d as int);
    lemma_fundamental_div_mod(p2 as int, d as int);
}

/// A kept significand has at most 24 bits, and at least 24 where anything
/// was rounded away.
proof fn lemma_nearest_range(p: nat)
    ensures
        nearest(p, pow2(surplus(p))) <= 0x100_0000,
        surplus(p) > 0 ==> nearest(p, pow2(surplus(p))) >= 0x80_0000,
{
    let k = surplus(p);
    let d = pow2(k);
    lemma_pow2_pos(k);
    lemma_surplus_range(p);
    lemma_nearest_monotone(p, p, d);
    if k == 0 {
        lemma2_to64();
    } else {
        assert(p < d * 0x100_0000) by (nonlinear_arith)
            requires
                p < 0x100_0000 * d,
        ;
        lemma_multiply_divide_lt(p as int, d as int, 0x100_0000);
        lemma_div_is_ordered(0x80_0000 * (d as int), p as int, d as int);
        lemma_div_by_multiple(0x80_0000, d as int);
    }
}

proof fn lemma_floor_scaled_monotone(v1: nat, v2: nat, e: int)
    requires
        v1 <= v2,
    ensures
        floor_scaled(v1, e) <= floor_scaled(v2, e),
{
    if e >= 0 {
        lemma_mul_inequality(v1 as int, v2 as int, pow2(e as nat) as int);
    } else {
        lemma_pow2_pos((-e) as nat);
        lemma_div_is_ordered(v1 as int, v2 as int, pow2((-e) as nat) as int);
    }
}

proof fn lemma_floor_scaled_grows(v: nat, e1: int, e2: int)
    requires
        e1 <= e2,
    ensures
        floor_scaled(v, e1) <= floor_scaled(v, e2),
    decreases e2 - e1,
{
    if e1 < e2 {
        lemma_floor_scaled_grows(v, e1 + 1, e2);
        if e1 >= 0 {
            lemma_pow2_unfold((e1 + 1) as nat);
            assert(v * pow2(e1 as nat) <= v * (2 * pow2(e1 as nat))) by (nonlinear_arith);
        } else if e1 == -1 {
            lemma2_to64();
            assert(v * 1 == v) by (nonlinear_arith);
        } else {
            let t = (-e1) as nat;
            lemma_pow2_unfold(t);
            lemma_pow2_pos((t - 1) as nat);
            lemma_div_is_ordered_by_denominator(
                v as int,
                pow2((t - 1) as nat) as int,
                pow2(t) as int,
            );
        }
    }
}

proof fn lemma_floor_scaled_carry(e: int)
    ensures
        floor_scaled(0x100_0000, e) == floor_scaled(0x80_0000, e + 1),
{
    if e >= 0 {
        let a = pow2(e as nat);
        lemma_pow2_unfold((e + 1) as nat);
        assert(0x100_0000 * a == 0x80_0000 * (2 * a)) by (nonlinear_arith);
    } else if e == -1 {
        lemma2_to64();
        assert(floor_scaled(0x100_0000, -1) == 0x100_0000nat / pow2(1));
    } else {
        let t = (-e) as nat;
        let half = pow2((t - 1) as nat);
        lemma_pow2_unfold(t);
        lemma_pow2_pos((t - 1) as nat);
        lemma_div_multiples_vanish_quotient(2, 0x80_0000, half as int);
    }
}

/// A higher source bin never lands below a lower one. So the bins that have a
/// target are the first so many of the spectrum.
pub proof fn lemma_image_is_monotone(bits: u32, lower: nat, higher: nat)
    requires
        lower <= higher,
    ensures
        image(bits, lower) <= image(bits, higher),
{
    let m = significand(bits);
    let e = exponent(bits);
    let p1 = lower * m;
    let p2 = higher * m;
    lemma_mul_inequality(lower as int, higher as int, m as int);
    lemma_surplus_monotone(p1, p2);
    let k1 = surplus(p1);
    let k2 = surplus(p2);
    let n1 = nearest(p1, pow2(k1));
    let n2 = nearest(p2, pow2(k2));
    if k1 == k2 {
        lemma_pow2_pos(k1);
        lemma_nearest_monotone(p1, p2, pow2(k1));
        lemma_floor_scaled_monotone(n1, n2, k1 + e);
    } else {
        lemma_nearest_range(p1);
        lemma_nearest_range(p2);
        lemma_floor_scaled_monotone(n1, 0x100_0000, k1 + e);
        lemma_floor_scaled_carry(k1 + e);
        lemma_floor_scaled_grows(0x80_0000, k1 + e + 1, k2 + e);
        lemma_floor_scaled_monotone(0x80_0000, n2, k2 + e);
    }
}

proof fn lemma_surplus_bound(p: nat, n: nat)
    requires
        p < 0x100_0000 * pow2(n),
    ensures
        surplus(p) <= n,
    decreases n,
{
    if p >= 0x100_0000 {
        if n == 0 {
            lemma2_to64();
        } else {
            lemma_pow2_unfold(n);
            lemma_surplus_bound(p / 2, (n - 1) as nat);
        }
    }
}

proof fn lemma_unity_image(freq: nat)
    requires
        freq < FFT_SIZE,
    ensures
        image(UNITY, freq) == freq,
{
    lemma2_to64();
    let p = freq * 0x80_0000;
    assert(p < 0x100_0000 * pow2(12)) by (nonlinear_arith)
        requires
            p == freq * 0x80_0000,
            freq < 4096,
            pow2(12) == 4096,
    ;
    lemma_surplus_bound(p, 12);
    let k = surplus(p);
    let d = pow2(k);
    let rest = pow2((23 - k) as nat);
    lemma_pow2_adds(k, (23 - k) as nat);
    lemma_pow2_pos(k);
    lemma_pow2_pos((23 - k) as nat);
    let kept = freq * rest;
    assert(p == d * kept && p == kept * d && kept == rest * freq) by (nonlinear_arith)
        requires
            p == freq * 0x80_0000,
            d * rest == 0x80_0000,
            kept == freq * rest,
    ;
    lemma_div_multiples_vanish(kept as int, d as int);
    lemma_mod_multiples_basic(kept as int, d as int);
    lemma_div_multiples_vanish(freq as int, rest as int);
}

/// At a factor of 1.0 every source bin up to the Nyquist bin is moved to the
/// bin of the same index, and no bin above it is moved at all.
pub proof fn lemma_unity_keeps_each_bin(freq: nat)
    ensures
        target_of(UNITY, freq) == if freq <= HALF_SIZE {
            Some(freq)
        } else {
            None::<nat>
        },
{
    if freq < FFT_SIZE {
        lemma_unity_image(freq);
    }
}

} // verus!
