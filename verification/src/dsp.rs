//! Sample-rate conversion between the 8 kHz of the telephone network and the
//! 16 kHz of speech pipelines.

use vstd::prelude::*;

verus! {

/// The quotient of `a` by a positive `b`, rounded toward zero.
pub open spec fn div_toward_zero(a: int, b: int) -> int {
    if a >= 0 {
        a / b
    } else {
        -((-a) / b)
    }
}

/// Number of output samples for `len` input samples: `len * to / from`,
/// rounded up; none for no input or for a target rate of zero.
pub open spec fn resampled_len(len: int, from_rate: int, to_rate: int) -> int {
    if len == 0 || to_rate == 0 {
        0
    } else {
        (len * to_rate + from_rate - 1) / from_rate
    }
}

/// Output sample `i` of halving the rate: the mean of input samples `2i` and
/// `2i + 1`, rounded toward zero; a last sample without a partner is kept.
pub open spec fn pair_mean(input: Seq<i16>, i: int) -> int {
    if 2 * i + 1 < input.len() {
        div_toward_zero(input[2 * i] + input[2 * i + 1], 2)
    } else {
        input[2 * i] as int
    }
}

/// Output sample `i` of any other conversion. It sits at `i * from / to` on
/// the input's time axis, between input samples `k` and `k + 1`, a fraction
/// `r / to` of the way, and is the point there on the line through the two,
/// rounded toward zero. After the last input sample, that sample is kept.
pub open spec fn interpolated(input: Seq<i16>, from_rate: int, to_rate: int, i: int) -> int {
    let k = (i * from_rate) / to_rate;
    let r = (i * from_rate) % to_rate;
    if k + 1 < input.len() {
        div_toward_zero(input[k] * to_rate + (input[k + 1] - input[k]) * r, to_rate)
    } else {
        input[k] as int
    }
}

/// The input converted from `from_rate` to `to_rate`. Doubling the rate
/// puts, after every sample, the mean of it and the next; halving the rate
/// replaces every pair by its mean.
pub open spec fn simple_resampled(input: Seq<i16>, from_rate: int, to_rate: int) -> Seq<int> {
    Seq::new(
        resampled_len(input.len() as int, from_rate, to_rate) as nat,
        |i: int|
            if from_rate == 2 * to_rate {
                pair_mean(input, i)
            } else {
                interpolated(input, from_rate, to_rate, i)
            },
    )
}

/// The samples of `v` as integers.
pub open spec fn as_ints(v: Seq<i16>) -> Seq<int> {
    v.map_values(|s: i16| s as int)
}

/// A value between two samples, carried to a common denominator, has a
/// quotient between the two samples.
proof fn lemma_interpolation_bounds(a: int, b: int, r: int, t: int)
    requires
        0 <= r < t,
        -32768 <= a <= 32767,
        -32768 <= b <= 32767,
    ensures
        -32768 <= div_toward_zero(a * t + (b - a) * r, t) <= 32767,
        -32768 * t <= a * t + (b - a) * r <= 32767 * t,
{
    let num = a * t + (b - a) * r;
    assert(-32768 * t <= num <= 32767 * t) by (nonlinear_arith)
        requires
            num == a * t + (b - a) * r,
            0 <= r < t,
            -32768 <= a <= 32767,
            -32768 <= b <= 32767,
    {
        // num = a * (t - r) + b * r, a mix of a and b with weights that sum to t.
        assert(num == a * (t - r) + b * r);
        assert(a * (t - r) <= 32767 * (t - r));
        assert(b * r <= 32767 * r);
        assert(a * (t - r) >= -32768 * (t - r));
        assert(b * r >= -32768 * r);
    }
    if num >= 0 {
        assert(num / t <= 32767) by (nonlinear_arith)
            requires
                0 <= num <= 32767 * t,
                t > 0,
        ;
        assert(num / t >= 0) by (nonlinear_arith)
            requires
                0 <= num,
                t > 0,
        ;
    } else {
        assert((-num) / t <= 32768) by (nonlinear_arith)
            requires
                0 < -num <= 32768 * t,
                t > 0,
        ;
        assert((-num) / t >= 0) by (nonlinear_arith)
            requires
                0 < -num,
                t > 0,
        ;
    }
}

/// Every output sample sits at or before the last input sample.
proof fn lemma_position_in_input(len: int, from_rate: int, to_rate: int, i: int)
    requires
        0 < from_rate,
        0 < to_rate,
        0 <= len,
        0 <= i < resampled_len(len, from_rate, to_rate),
    ensures
        0 <= (i * from_rate) / to_rate < len,
        0 <= (i * from_rate) % to_rate < to_rate,
        0 <= i * from_rate < len * to_rate,
{
    let total = len * to_rate + from_rate - 1;
    let n = total / from_rate;
    assert(i * from_rate < len * to_rate) by (nonlinear_arith)
        requires
            0 <= i < n,
            n == total / from_rate,
            total == len * to_rate + from_rate - 1,
            0 < from_rate,
    {
        assert(n * from_rate <= total);
        assert((i + 1) * from_rate <= n * from_rate);
    }
    assert(0 <= i * from_rate) by (nonlinear_arith)
        requires
            0 <= i,
            0 < from_rate,
    ;
    let p = i * from_rate;
    assert(0 <= p / to_rate < len) by (nonlinear_arith)
        requires
            0 <= p < len * to_rate,
            0 < to_rate,
    ;
}

/// The quotient of `num` by `den`, rounded toward zero.
fn divide_toward_zero(num: i128, den: u128) -> (q: i128)
    requires
        den > 0,
        num > i128::MIN,
    ensures
        q == div_toward_zero(num as int, den as int),
{
    if num >= 0 {
        let q: u128 = (num as u128) / den;
        assert(q <= num) by (nonlinear_arith)
            requires
                q == (num as int) / (den as int),
                num >= 0,
                den > 0,
        ;
        q as i128
    } else {
        let q: u128 = ((-num) as u128) / den;
        assert(q <= -num) by (nonlinear_arith)
            requires
                q == (-num as int) / (den as int),
                num < 0,
                den > 0,
        ;
        -(q as i128)
    }
}

/// Converts `input` from `from_rate` to `to_rate` by linear interpolation,
/// without state from one call to the next. A source rate of zero is
/// meaningless where there is anything to convert.
pub fn simple_resample(input: &[i16], from_rate: usize, to_rate: usize) -> (output: Vec<i16>)
    requires
        from_rate > 0 || input.len() == 0 || to_rate == 0,
    ensures
        as_ints(output@) == simple_resampled(input@, from_rate as int, to_rate as int),
{
    let len: usize = input.len();
    let ghost goal = simple_resampled(input@, from_rate as int, to_rate as int);
    let mut output: Vec<i16> = Vec::new();
    if to_rate == 0 || len == 0 {
        assert(as_ints(output@) =~= goal);
        return output;
    }
    assert(len * to_rate <= 0xFFFF_FFFF_FFFF_FFFF * 0xFFFF_FFFF_FFFF_FFFF) by (nonlinear_arith)
        requires
            0 <= len <= 0xFFFF_FFFF_FFFF_FFFF,
            0 <= to_rate <= 0xFFFF_FFFF_FFFF_FFFF,
    ;
    let total: u128 = (len as u128) * (to_rate as u128) + (from_rate as u128 - 1);
    let new_len: u128 = total / (from_rate as u128);
    let halving: bool = from_rate / 2 == to_rate && from_rate % 2 == 0;
    while (output.len() as u128) < new_len
        invariant
            output.len() <= new_len,
            len == input.len(),
            0 < from_rate,
            0 < to_rate,
            new_len == resampled_len(len as int, from_rate as int, to_rate as int),
            halving == (from_rate == 2 * to_rate),
            goal == simple_resampled(input@, from_rate as int, to_rate as int),
            forall|j: int| 0 <= j < output.len() ==> output[j] as int == goal[j],
        decreases new_len - output.len(),
    {
        let i: usize = output.len();
        proof {
            lemma_position_in_input(len as int, from_rate as int, to_rate as int, i as int);
        }
        assert(i * from_rate <= 0xFFFF_FFFF_FFFF_FFFF * 0xFFFF_FFFF_FFFF_FFFF) by (nonlinear_arith)
            requires
                0 <= i <= 0xFFFF_FFFF_FFFF_FFFF,
                0 <= from_rate <= 0xFFFF_FFFF_FFFF_FFFF,
        ;
        let position: u128 = (i as u128) * (from_rate as u128);
        let k: usize = (position / (to_rate as u128)) as usize;
        let r: u64 = (position % (to_rate as u128)) as u64;
        let sample: i16 = if halving {
            assert(k == 2 * i) by (nonlinear_arith)
                requires
                    k == (i * from_rate) / (to_rate as int),
                    from_rate == 2 * to_rate,
                    0 < to_rate,
                    0 <= i,
            ;
            if k + 1 < len {
                let sum: i128 = input[k] as i128 + input[k + 1] as i128;
                divide_toward_zero(sum, 2) as i16
            } else {
                input[k]
            }
        } else if k + 1 < len {
            let a: i128 = input[k] as i128;
            let b: i128 = input[k + 1] as i128;
            proof {
                lemma_interpolation_bounds(a as int, b as int, r as int, to_rate as int);
            }
            assert(-65535 * 0xFFFF_FFFF_FFFF_FFFF <= (b - a) * r <= 65535 * 0xFFFF_FFFF_FFFF_FFFF)
                by (nonlinear_arith)
                requires
                    -65535 <= b - a <= 65535,
                    0 <= r <= 0xFFFF_FFFF_FFFF_FFFF,
            ;
            assert(-32768 * 0xFFFF_FFFF_FFFF_FFFF <= a * to_rate <= 32767 * 0xFFFF_FFFF_FFFF_FFFF)
                by (nonlinear_arith)
                requires
                    -32768 <= a <= 32767,
                    0 <= to_rate <= 0xFFFF_FFFF_FFFF_FFFF,
            ;
            let num: i128 = a * (to_rate as i128) + (b - a) * (r as i128);
            divide_toward_zero(num, to_rate as u128) as i16
        } else {
            input[k]
        };
        output.push(sample);
    }
    assert(as_ints(output@) =~= goal);
    output
}

/// A multiple of the divisor, divided toward zero, is the factor.
proof fn lemma_multiple_divides(a: int, d: int)
    requires
        0 < d,
    ensures
        div_toward_zero(a * d, d) == a,
{
    if a >= 0 {
        assert(a * d >= 0) by (nonlinear_arith)
            requires
                a >= 0,
                d > 0,
        ;
        vstd::arithmetic::div_mod::lemma_fundamental_div_mod_converse(a * d, d, a, 0);
    } else {
        assert(-(a * d) == (-a) * d && a * d < 0) by (nonlinear_arith)
            requires
                a < 0,
                d > 0,
        ;
        vstd::arithmetic::div_mod::lemma_fundamental_div_mod_converse((-a) * d, d, -a, 0);
    }
}

/// A common factor of dividend and divisor does not change the quotient.
proof fn lemma_common_factor_cancels(a: int, d: int, x: int)
    requires
        0 < d,
        0 < x,
    ensures
        div_toward_zero(a * x, d * x) == div_toward_zero(a, d),
{
    if a >= 0 {
        assert(a * x >= 0) by (nonlinear_arith)
            requires
                a >= 0,
                x > 0,
        ;
        vstd::arithmetic::div_mod::lemma_div_multiples_vanish_quotient(x, a, d);
        assert(x * a == a * x && x * d == d * x) by (nonlinear_arith);
    } else {
        assert(-(a * x) == (-a) * x && a * x < 0) by (nonlinear_arith)
            requires
                a < 0,
                x > 0,
        ;
        vstd::arithmetic::div_mod::lemma_div_multiples_vanish_quotient(x, -a, d);
        assert(x * (-a) == (-a) * x && x * d == d * x) by (nonlinear_arith);
    }
}

/// Doubling the rate doubles the number of samples: it keeps every input
/// sample and puts after it the mean of that sample and the next, or the
/// sample once more after the last.
pub proof fn lemma_doubling_inserts_means(input: Seq<i16>, from_rate: int, i: int)
    requires
        from_rate > 0,
        0 <= i < input.len(),
    ensures
        ({
            let output = simple_resampled(input, from_rate, 2 * from_rate);
            &&& output.len() == 2 * input.len()
            &&& output[2 * i] == input[i]
            &&& output[2 * i + 1] == if i + 1 < input.len() {
                div_toward_zero(input[i] + input[i + 1], 2)
            } else {
                input[i] as int
            }
        }),
{
    let f = from_rate;
    let t = 2 * from_rate;
    let n = input.len() as int;
    let a = input[i] as int;
    assert(n * t + f - 1 == (2 * n) * f + (f - 1)) by (nonlinear_arith)
        requires
            t == 2 * f,
    ;
    vstd::arithmetic::div_mod::lemma_fundamental_div_mod_converse(n * t + f - 1, f, 2 * n, f - 1);
    assert((2 * i) * f == i * t + 0 && (2 * i + 1) * f == i * t + f) by (nonlinear_arith)
        requires
            t == 2 * f,
    ;
    vstd::arithmetic::div_mod::lemma_fundamental_div_mod_converse((2 * i) * f, t, i, 0);
    vstd::arithmetic::div_mod::lemma_fundamental_div_mod_converse((2 * i + 1) * f, t, i, f);
    if i + 1 < n {
        let b = input[i + 1] as int;
        assert(a * t + (b - a) * 0 == a * t && a * t + (b - a) * f == (a + b) * f && t == 2 * f)
            by (nonlinear_arith)
            requires
                t == 2 * f,
        ;
        lemma_multiple_divides(a, t);
        lemma_common_factor_cancels(a + b, 2, f);
    }
}

/// Halving the rate halves the number of samples, rounded up: it replaces
/// every pair of input samples by its mean and keeps a last sample that has
/// no partner.
pub proof fn lemma_halving_averages_pairs(input: Seq<i16>, to_rate: int, i: int)
    requires
        to_rate > 0,
        0 <= 2 * i < input.len(),
    ensures
        ({
            let output = simple_resampled(input, 2 * to_rate, to_rate);
            &&& output.len() == (input.len() + 1) / 2
            &&& output[i] == pair_mean(input, i)
        }),
{
    let t = to_rate;
    let n = input.len() as int;
    let q = (n + 1) / 2;
    let e = (n + 1) % 2;
    assert(n * t + 2 * t - 1 == q * (2 * t) + (e * t + t - 1) && 0 <= e * t + t - 1 < 2 * t)
        by (nonlinear_arith)
        requires
            n + 1 == 2 * q + e,
            0 <= e <= 1,
            t > 0,
    ;
    vstd::arithmetic::div_mod::lemma_fundamental_div_mod_converse(
        n * t + 2 * t - 1,
        2 * t,
        q,
        e * t + t - 1,
    );
}

/// Between equal rates nothing changes.
pub proof fn lemma_equal_rates_copy(input: Seq<i16>, rate: int)
    requires
        rate > 0,
    ensures
        simple_resampled(input, rate, rate) == as_ints(input),
{
    let n = input.len() as int;
    let output = simple_resampled(input, rate, rate);
    assert(n * rate + rate - 1 == n * rate + (rate - 1));
    vstd::arithmetic::div_mod::lemma_fundamental_div_mod_converse(
        n * rate + rate - 1,
        rate,
        n,
        rate - 1,
    );
    assert forall|i: int| 0 <= i < n implies output[i] == input[i] as int by {
        vstd::arithmetic::div_mod::lemma_fundamental_div_mod_converse(i * rate, rate, i, 0);
        let a = input[i] as int;
        if i + 1 < n {
            let b = input[i + 1] as int;
            assert(a * rate + (b - a) * 0 == a * rate) by (nonlinear_arith);
            lemma_multiple_divides(a, rate);
        }
    }
    assert(output =~= as_ints(input));
}

/// The highest rate, in hertz, that the stateful resampler works at: what
/// lets the cube of the rate, times the largest coefficient, fit 128 bits.
pub const MAX_RATE: usize = 0xFFFF_FFFF;

/// `v` held to the range of a 16-bit sample.
pub open spec fn clamp16(v: int) -> int {
    if v < -32768 {
        -32768
    } else if v > 32767 {
        32767
    } else {
        v
    }
}

/// Twice the Catmull-Rom polynomial through `p1` and `p2`, with `p0` and
/// `p3` as outer knots, at `t = r / q`, times `q^3`. The polynomial is
/// `a t^3 + b t^2 + c t + d` with
/// `a = -p0/2 + 3 p1/2 - 3 p2/2 + p3/2`, `b = p0 - 5 p1/2 + 2 p2 - p3/2`,
/// `c = -p0/2 + p2/2` and `d = p1`.
pub open spec fn cubic_numerator(p0: int, p1: int, p2: int, p3: int, r: int, q: int) -> int {
    let r2 = r * r;
    let q2 = q * q;
    (-p0 + 3 * p1 - 3 * p2 + p3) * (r2 * r) + (2 * p0 - 5 * p1 + 4 * p2 - p3) * (r2 * q) + (-p0
        + p2) * (r * q2) + (2 * p1) * (q2 * q)
}

/// The sample on the Catmull-Rom curve at `t = r / q` between `p1` and `p2`:
/// the value of the polynomial, rounded toward zero and held to 16 bits.
pub open spec fn cubic_point(p0: int, p1: int, p2: int, p3: int, r: int, q: int) -> int {
    clamp16(div_toward_zero(cubic_numerator(p0, p1, p2, p3, r, q), 2 * (q * q * q)))
}

/// Number of samples that one call puts out for `len` samples put in: one
/// for every position `k * from / to` before the last input sample, whose
/// interval waits for the sample after it.
pub open spec fn cubic_output_len(len: int, from_rate: int, to_rate: int) -> int {
    if len == 0 {
        0
    } else {
        resampled_len(len - 1, from_rate, to_rate)
    }
}

/// What a stateful resampler stands for: its two rates and the last four
/// samples it has seen, silence at first.
pub struct ResamplerView {
    pub history: Seq<i16>,
    pub input_rate: int,
    pub output_rate: int,
}

impl ResamplerView {
    /// The samples that the curve runs through: the history, then the input.
    pub open spec fn stream(self, input: Seq<i16>) -> Seq<i16> {
        self.history + input
    }

    /// Output sample `k` for `input`. It sits at `k * from / to` on the
    /// input's axis, in the interval that ends at input sample
    /// `floor(k * from / to)`: the output runs one sample behind the input,
    /// so that the outer knot after the interval is at hand.
    pub open spec fn output_at(self, input: Seq<i16>, k: int) -> int {
        let s = self.stream(input);
        let i = (k * self.input_rate) / self.output_rate + 2;
        cubic_point(
            s[i] as int,
            s[i + 1] as int,
            s[i + 2] as int,
            s[i + 3] as int,
            (k * self.input_rate) % self.output_rate,
            self.output_rate,
        )
    }

    /// What one call puts out for `input`: the input itself where the rates
    /// are equal, else the samples on the curve.
    pub open spec fn output(self, input: Seq<i16>) -> Seq<int> {
        if self.input_rate == self.output_rate {
            as_ints(input)
        } else {
            Seq::new(
                cubic_output_len(input.len() as int, self.input_rate, self.output_rate) as nat,
                |k: int| self.output_at(input, k),
            )
        }
    }

    /// The resampler after a call with `input`: the history is the last four
    /// samples of the stream. Where the rates are equal nothing is kept.
    pub open spec fn after(self, input: Seq<i16>) -> ResamplerView {
        if self.input_rate == self.output_rate {
            self
        } else {
            ResamplerView {
                history: self.stream(input).subrange(input.len() as int, input.len() as int + 4),
                ..self
            }
        }
    }
}

/// A product of a bounded factor and a bounded non-negative factor is
/// bounded by the product of the bounds.
proof fn lemma_product_bound(x: int, y: int, bx: int, by: int)
    by (nonlinear_arith)
    requires
        -bx <= x <= bx,
        0 <= y <= by,
    ensures
        -(bx * by) <= x * y <= bx * by,
{
}

/// The sample on the Catmull-Rom curve at `r / q` between `p1` and `p2`.
fn cubic_sample(p0: i16, p1: i16, p2: i16, p3: i16, r: u64, q: u64) -> (sample: i16)
    requires
        r < q <= 0xFFFF_FFFF,
    ensures
        sample == cubic_point(p0 as int, p1 as int, p2 as int, p3 as int, r as int, q as int),
{
    let r1: i128 = r as i128;
    let q1: i128 = q as i128;
    proof {
        lemma_product_bound(r1 as int, r1 as int, 0xFFFF_FFFF, 0xFFFF_FFFF);
        lemma_product_bound(q1 as int, q1 as int, 0xFFFF_FFFF, 0xFFFF_FFFF);
    }
    let r2: i128 = r1 * r1;
    let q2: i128 = q1 * q1;
    proof {
        lemma_product_bound(r2 as int, r1 as int, 0xFFFF_FFFFint * 0xFFFF_FFFFint, 0xFFFF_FFFF);
        lemma_product_bound(r2 as int, q1 as int, 0xFFFF_FFFFint * 0xFFFF_FFFFint, 0xFFFF_FFFF);
        lemma_product_bound(r1 as int, q2 as int, 0xFFFF_FFFF, 0xFFFF_FFFFint * 0xFFFF_FFFFint);
        lemma_product_bound(q2 as int, q1 as int, 0xFFFF_FFFFint * 0xFFFF_FFFFint, 0xFFFF_FFFF);
        assert(q2 * q1 > 0) by (nonlinear_arith)
            requires
                q1 > 0,
                q2 == q1 * q1,
        ;
    }
    let r3: i128 = r2 * r1;
    let r2q: i128 = r2 * q1;
    let rq2: i128 = r1 * q2;
    let q3: i128 = q2 * q1;

    let a: i128 = -(p0 as i128) + 3 * (p1 as i128) - 3 * (p2 as i128) + p3 as i128;
    let b: i128 = 2 * (p0 as i128) - 5 * (p1 as i128) + 4 * (p2 as i128) - p3 as i128;
    let c: i128 = -(p0 as i128) + p2 as i128;
    let d: i128 = 2 * (p1 as i128);
    let ghost cube: int = 0xFFFF_FFFFint * 0xFFFF_FFFFint * 0xFFFF_FFFFint;
    proof {
        lemma_product_bound(a as int, r3 as int, 8 * 32768int, cube);
        lemma_product_bound(b as int, r2q as int, 12 * 32768int, cube);
        lemma_product_bound(c as int, rq2 as int, 2 * 32768int, cube);
        lemma_product_bound(d as int, q3 as int, 2 * 32768int, cube);
    }
    let num: i128 = a * r3 + b * r2q + c * rq2 + d * q3;
    let den: u128 = 2 * (q3 as u128);
    assert(den == 2 * (q * q * q)) by (nonlinear_arith)
        requires
            den == 2 * q3,
            q3 == q2 * q1,
            q2 == q1 * q1,
            q1 == q,
    ;
    let point: i128 = divide_toward_zero(num, den);
    if point < -32768 {
        -32768
    } else if point > 32767 {
        32767
    } else {
        point as i16
    }
}

/// Converts between two rates chunk by chunk, with a Catmull-Rom curve
/// through the samples, and carries the last four samples from one call to
/// the next so that the curve runs on across the chunk boundary.
pub struct AudioResampler {
    history: Vec<i16>,
    input_rate: usize,
    output_rate: usize,
}

impl View for AudioResampler {
    type V = ResamplerView;

    closed spec fn view(&self) -> ResamplerView {
        ResamplerView {
            history: self.history@,
            input_rate: self.input_rate as int,
            output_rate: self.output_rate as int,
        }
    }
}

impl AudioResampler {
    /// What holds of every resampler between calls: four samples of history,
    /// and rates above zero, the output rate no higher than `MAX_RATE`.
    pub open spec fn wf(&self) -> bool {
        &&& self@.history.len() == 4
        &&& 0 < self@.input_rate
        &&& 0 < self@.output_rate <= MAX_RATE
    }

    /// A resampler from `input_rate` to `output_rate` with silence for
    /// history. The chunk size is not needed: any chunk is taken.
    pub fn new(input_rate: usize, output_rate: usize, _chunk_size: usize) -> (resampler:
        AudioResampler)
        requires
            0 < input_rate,
            0 < output_rate <= MAX_RATE,
        ensures
            resampler.wf(),
            resampler@ == (ResamplerView {
                history: seq![0i16, 0i16, 0i16, 0i16],
                input_rate: input_rate as int,
                output_rate: output_rate as int,
            }),
    {
        let mut history: Vec<i16> = Vec::with_capacity(4);
        history.push(0);
        history.push(0);
        history.push(0);
        history.push(0);
        assert(history@ =~= seq![0i16, 0i16, 0i16, 0i16]);
        AudioResampler { history, input_rate, output_rate }
    }

    /// Converts one chunk.
    pub fn process(&mut self, input: &[i16]) -> (output: Vec<i16>)
        requires
            old(self).wf(),
        ensures
            final(self).wf(),
            as_ints(output@) == old(self)@.output(input@),
            final(self)@ == old(self)@.after(input@),
    {
        let len: usize = input.len();
        let from_rate: usize = self.input_rate;
        let to_rate: usize = self.output_rate;
        let ghost before = self@;
        let ghost goal = before.output(input@);
        let mut output: Vec<i16> = Vec::new();

        if from_rate == to_rate {
            let mut i: usize = 0;
            while i < len
                invariant
                    i <= len,
                    len == input.len(),
                    output@ == input@.subrange(0, i as int),
                decreases len - i,
            {
                output.push(input[i]);
                i += 1;
                assert(input@.subrange(0, i as int) =~= input@.subrange(0, i - 1).push(
                    input@[i - 1],
                ));
            }
            assert(input@.subrange(0, len as int) =~= input@);
            assert(as_ints(output@) =~= goal);
            return output;
        }
        // The history and the input as one run of samples.

        let mut stream: Vec<i16> = Vec::new();
        let mut i: usize = 0;
        while i < 4
            invariant
                i <= 4,
                self.history@.len() == 4,
                stream@ == self.history@.subrange(0, i as int),
            decreases 4 - i,
        {
            stream.push(self.history[i]);
            i += 1;
            assert(self.history@.subrange(0, i as int) =~= self.history@.subrange(0, i - 1).push(
                self.history@[i - 1],
            ));
        }
        assert(self.history@.subrange(0, 4) =~= self.history@);
        i = 0;
        while i < len
            invariant
                i <= len,
                len == input.len(),
                stream@ == self.history@ + input@.subrange(0, i as int),
            decreases len - i,
        {
            stream.push(input[i]);
            i += 1;
            assert(input@.subrange(0, i as int) =~= input@.subrange(0, i - 1).push(
                input@[i - 1],
            ));
        }
        assert(input@.subrange(0, len as int) =~= input@);
        assert(stream@ == before.stream(input@));

        if len > 1 {
            assert((len - 1) * to_rate <= 0xFFFF_FFFF_FFFF_FFFF * 0xFFFF_FFFF) by (nonlinear_arith)
                requires
                    0 <= len - 1 <= 0xFFFF_FFFF_FFFF_FFFF,
                    0 <= to_rate <= 0xFFFF_FFFF,
            ;
            let total: u128 = ((len - 1) as u128) * (to_rate as u128) + (from_rate as u128 - 1);
            let count: u128 = total / (from_rate as u128);
            while (output.len() as u128) < count
                invariant
                    output.len() <= count,
                    len == input.len(),
                    len > 1,
                    0 < from_rate,
                    0 < to_rate <= 0xFFFF_FFFF,
                    from_rate != to_rate,
                    before.input_rate == from_rate,
                    before.output_rate == to_rate,
                    count == cubic_output_len(len as int, from_rate as int, to_rate as int),
                    stream@ == before.stream(input@),
                    stream.len() == len + 4,
                    goal == before.output(input@),
                    forall|j: int| 0 <= j < output.len() ==> output[j] as int == goal[j],
                decreases count - output.len(),
            {
                let k: usize = output.len();
                proof {
                    lemma_position_in_input(len - 1, from_rate as int, to_rate as int, k as int);
                }
                assert(k * from_rate <= 0xFFFF_FFFF_FFFF_FFFF * 0xFFFF_FFFF_FFFF_FFFF)
                    by (nonlinear_arith)
                    requires
                        0 <= k <= 0xFFFF_FFFF_FFFF_FFFF,
                        0 <= from_rate <= 0xFFFF_FFFF_FFFF_FFFF,
                ;
                let position: u128 = (k as u128) * (from_rate as u128);
                assert(position / (to_rate as u128) < len - 1);
                let at: usize = (position / (to_rate as u128)) as usize + 2;
                let r: u64 = (position % (to_rate as u128)) as u64;
                assert(at + 3 < stream.len());
                let sample = cubic_sample(
                    stream[at],
                    stream[at + 1],
                    stream[at + 2],
                    stream[at + 3],
                    r,
                    to_rate as u64,
                );
                assert(sample == before.output_at(input@, k as int));
                output.push(sample);
            }
        }
        assert(as_ints(output@) =~= goal);

        // The last four samples of the stream are the next call's history.
        let mut history: Vec<i16> = Vec::with_capacity(4);
        i = 0;
        while i < 4
            invariant
                i <= 4,
                stream.len() == len + 4,
                history@ == stream@.subrange(len as int, len + i),
            decreases 4 - i,
        {
            history.push(stream[len + i]);
            i += 1;
            assert(stream@.subrange(len as int, len + i) =~= stream@.subrange(
                len as int,
                len + i - 1,
            ).push(stream@[len + i - 1]));
        }
        self.history = history;
        output
    }
}

/// The history does not depend on how the signal is cut into chunks: after
/// `first` and then `second`, it is what it is after the two in one chunk.
pub proof fn lemma_history_ignores_chunking(
    resampler: ResamplerView,
    first: Seq<i16>,
    second: Seq<i16>,
)
    requires
        resampler.history.len() == 4,
    ensures
        resampler.after(first).after(second) == resampler.after(first + second),
{
    if resampler.input_rate != resampler.output_rate {
        let whole = resampler.stream(first + second);
        let mid = resampler.after(first);
        assert(mid.history.len() == 4);
        assert(mid.after(second).history =~= resampler.after(first + second).history);
    }
}

/// Across a chunk boundary the curve runs through the same samples: output
/// sample `k` of a second chunk is computed from the window of the joined
/// stream that lies `first.len()` samples further on.
pub proof fn lemma_curve_runs_on_across_chunks(
    resampler: ResamplerView,
    first: Seq<i16>,
    second: Seq<i16>,
    k: int,
)
    requires
        resampler.history.len() == 4,
        resampler.input_rate != resampler.output_rate,
        0 < resampler.input_rate,
        0 < resampler.output_rate,
        0 <= k < cubic_output_len(
            second.len() as int,
            resampler.input_rate,
            resampler.output_rate,
        ),
    ensures
        ({
            let joined = resampler.stream(first + second);
            let i = (k * resampler.input_rate) / resampler.output_rate + 2 + first.len();
            resampler.after(first).output_at(second, k) == cubic_point(
                joined[i] as int,
                joined[i + 1] as int,
                joined[i + 2] as int,
                joined[i + 3] as int,
                (k * resampler.input_rate) % resampler.output_rate,
                resampler.output_rate,
            )
        }),
{
    lemma_position_in_input(
        second.len() - 1,
        resampler.input_rate,
        resampler.output_rate,
        k,
    );
}

/// The curve runs through the samples: at the start of an interval it
/// takes the value of the sample there.
pub proof fn lemma_curve_meets_samples(p0: i16, p1: i16, p2: i16, p3: i16, q: int)
    requires
        q > 0,
    ensures
        cubic_point(p0 as int, p1 as int, p2 as int, p3 as int, 0, q) == p1,
{
    let cube = q * q * q;
    assert(cube > 0 && cubic_numerator(p0 as int, p1 as int, p2 as int, p3 as int, 0, q) == p1 * (2
        * cube)) by (nonlinear_arith)
        requires
            q > 0,
            cube == q * q * q,
    ;
    lemma_multiple_divides(p1 as int, 2 * cube);
}

} // verus!
