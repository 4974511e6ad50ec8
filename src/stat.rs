//! Exact descriptive statistics of integer samples: the mean, and the mean
//! with the unbiased sample variance, each as a fraction of integers.
use vstd::prelude::*;

verus! {

/// Why a statistic could not be computed.
#[derive(Debug, Clone, Copy, PartialEq, Eq, Structural)]
pub enum StatError {
    /// The mean of no values was asked for.
    EmptyInput,
    /// Fewer than two values were given for a standard deviation.
    InsufficientData,
}

impl StatError {
    /// A sentence that describes the error.
    pub fn message(&self) -> (r: &'static str)
        ensures
            *self == StatError::EmptyInput ==> r@ == "cannot compute average of empty slice"@,
            *self == StatError::InsufficientData ==> r@ == "at least two values are needed"@,
    {
        match self {
            StatError::EmptyInput => "cannot compute average of empty slice",
            StatError::InsufficientData => "at least two values are needed",
        }
    }
}

/// The exact rational number `num / den`.
#[derive(Debug, Clone, Copy, PartialEq, Eq, Structural)]
pub struct Fraction {
    pub num: i128,
    pub den: u128,
}

/// The sum of the values.
pub open spec fn sum_of(x: Seq<i32>) -> int
    decreases x.len(),
{
    if x.len() == 0 {
        0
    } else {
        sum_of(x.drop_last()) + x.last()
    }
}

/// The sum of the squares of the values.
pub open spec fn sum_sq_of(x: Seq<i32>) -> int
    decreases x.len(),
{
    if x.len() == 0 {
        0
    } else {
        sum_sq_of(x.drop_last()) + x.last() * x.last()
    }
}

/// `n * (sum of squares) - sum * sum` for `n` values: `n * (n - 1)` times their
/// unbiased sample variance.
pub open spec fn variance_num(x: Seq<i32>) -> int {
    x.len() * sum_sq_of(x) - sum_of(x) * sum_of(x)
}

/// `n * (n - 1)`, for `n` values: the variance is `variance_num / variance_den`.
pub open spec fn variance_den(x: Seq<i32>) -> int {
    x.len() * (x.len() - 1)
}

/// The sum of the scaled deviations `a * x_i - b`; with `a` the number of values
/// and `b` their sum, each is `a` times the deviation of `x_i` from the mean.
pub open spec fn dev_sum(x: Seq<i32>, a: int, b: int) -> int
    decreases x.len(),
{
    if x.len() == 0 {
        0
    } else {
        dev_sum(x.drop_last(), a, b) + (a * x.last() - b)
    }
}

/// The sum of the squares of the scaled deviations `a * x_i - b`.
pub open spec fn dev_sq_sum(x: Seq<i32>, a: int, b: int) -> int
    decreases x.len(),
{
    if x.len() == 0 {
        0
    } else {
        let d = a * x.last() - b;
        dev_sq_sum(x.drop_last(), a, b) + d * d
    }
}

proof fn lemma_dev_sum(x: Seq<i32>, a: int, b: int)
    ensures
        dev_sum(x, a, b) == a * sum_of(x) - x.len() * b,
    decreases x.len(),
{
    if x.len() > 0 {
        let y = x.drop_last();
        let l = x.last() as int;
        lemma_dev_sum(y, a, b);
        assert(a * sum_of(x) == a * sum_of(y) + a * l) by (nonlinear_arith)
            requires
                sum_of(x) == sum_of(y) + l,
        ;
        assert(x.len() * b == y.len() * b + b) by (nonlinear_arith)
            requires
                x.len() == y.len() + 1,
        ;
    }
}

proof fn lemma_dev_sq_sum(x: Seq<i32>, a: int, b: int)
    ensures
        dev_sq_sum(x, a, b) == a * a * sum_sq_of(x) - 2 * a * b * sum_of(x) + x.len() * b * b,
        dev_sq_sum(x, a, b) >= 0,
    decreases x.len(),
{
    if x.len() > 0 {
        let y = x.drop_last();
        let l = x.last() as int;
        let d = a * l - b;
        lemma_dev_sq_sum(y, a, b);
        assert(d * d >= 0) by (nonlinear_arith);
        let t = sum_sq_of(y);
        let s = sum_of(y);
        let k = y.len() as int;
        assert(a * a * (t + l * l) - 2 * a * b * (s + l) + (k + 1) * b * b
            == (a * a * t - 2 * a * b * s + k * b * b) + d * d) by (nonlinear_arith)
            requires
                d == a * l - b,
        ;
    }
}

/// With `n` values, their sum `S` and mean `m = S / n`, write `d_i = x_i - m`.
/// The corrected two-pass variance is `(sum d_i^2 - (sum d_i)^2 / n) / (n - 1)`.
/// In exact arithmetic its corrector `sum d_i` is zero and `n^2 * sum d_i^2` is
/// `n * variance_num`: the corrected two-pass variance is
/// `variance_num / variance_den`, and never negative.
pub proof fn lemma_two_pass_variance(x: Seq<i32>)
    requires
        x.len() >= 2,
    ensures
        dev_sum(x, x.len() as int, sum_of(x)) == 0,
        dev_sq_sum(x, x.len() as int, sum_of(x)) == x.len() * variance_num(x),
        variance_num(x) >= 0,
        variance_den(x) > 0,
{
    let n = x.len() as int;
    let s = sum_of(x);
    let t = sum_sq_of(x);
    lemma_dev_sum(x, n, s);
    assert(n * s - n * s == 0);
    lemma_dev_sq_sum(x, n, s);
    assert(n * n * t - 2 * n * s * s + n * s * s == n * (n * t - s * s)) by (nonlinear_arith);
    let q = dev_sq_sum(x, n, s);
    let v = n * t - s * s;
    assert(v >= 0) by (nonlinear_arith)
        requires
            q == n * v,
            q >= 0,
            n > 0,
    ;
    assert(n * (n - 1) > 0) by (nonlinear_arith)
        requires
            n >= 2,
    ;
}

/// The sum of the values, exactly.
fn total(x: &[i32]) -> (r: i128)
    ensures
        r == sum_of(x@),
{
    let mut sum: i128 = 0;
    let mut i: usize = 0;
    while i < x.len()
        invariant
            i <= x@.len(),
            sum == sum_of(x@.subrange(0, i as int)),
            -2147483648 * i <= sum <= 2147483647 * i,
        decreases x@.len() - i,
    {
        assert(x@.subrange(0, i + 1).drop_last() =~= x@.subrange(0, i as int));
        sum = sum + x[i] as i128;
        i = i + 1;
    }
    assert(x@.subrange(0, i as int) =~= x@);
    sum
}

/// The sum of the squares of the values, exactly.
fn total_sq(x: &[i32]) -> (r: i128)
    ensures
        r == sum_sq_of(x@),
        0 <= r <= 4611686018427387904 * x@.len(),
{
    let mut sum: i128 = 0;
    let mut i: usize = 0;
    while i < x.len()
        invariant
            i <= x@.len(),
            sum == sum_sq_of(x@.subrange(0, i as int)),
            0 <= sum <= 4611686018427387904 * i,
        decreases x@.len() - i,
    {
        assert(x@.subrange(0, i + 1).drop_last() =~= x@.subrange(0, i as int));
        let v = x[i] as i128;
        assert(0 <= v * v <= 4611686018427387904) by (nonlinear_arith)
            requires
                -2147483648 <= v <= 2147483647,
        ;
        sum = sum + v * v;
        i = i + 1;
    }
    assert(x@.subrange(0, i as int) =~= x@);
    sum
}

/// The arithmetic mean of the values, as the fraction `sum / count`;
/// fails with `EmptyInput` when there are no values.
pub fn ave(x: &[i32]) -> (r: Result<Fraction, StatError>)
    ensures
        x@.len() == 0 ==> r == Err::<Fraction, StatError>(StatError::EmptyInput),
        x@.len() > 0 ==> r == Ok::<Fraction, StatError>(
            Fraction { num: sum_of(x@) as i128, den: x@.len() as u128 },
        ),
{
    if x.len() == 0 {
        return Err(StatError::EmptyInput);
    }
    let sum = total(x);
    Ok(Fraction { num: sum, den: x.len() as u128 })
}

/// The sum of `n` values of `i32` lies between `n` times the least and `n`
/// times the greatest `i32`.
proof fn lemma_sum_bound(x: Seq<i32>)
    ensures
        -2147483648 * x.len() <= sum_of(x) <= 2147483647 * x.len(),
    decreases x.len(),
{
    if x.len() > 0 {
        lemma_sum_bound(x.drop_last());
    }
}

/// The mean and the unbiased sample variance of the values, as the fractions
/// `sum / n` and `(n * sum of squares - sum^2) / (n * (n - 1))`: exactly what
/// the corrected two-pass formula gives (see `lemma_two_pass_variance`). The
/// standard deviation is the square root of the variance. Fails with
/// `InsufficientData` when there are fewer than two values.
pub fn ave_dev(x: &[i32]) -> (r: Result<(Fraction, Fraction), StatError>)
    requires
        x@.len() <= u32::MAX,
    ensures
        x@.len() < 2 ==> r == Err::<(Fraction, Fraction), StatError>(StatError::InsufficientData),
        x@.len() >= 2 ==> r == Ok::<(Fraction, Fraction), StatError>(
            (
                Fraction { num: sum_of(x@) as i128, den: x@.len() as u128 },
                Fraction { num: variance_num(x@) as i128, den: variance_den(x@) as u128 },
            ),
        ),
        r matches Ok((_, v)) ==> v.num >= 0 && v.den > 0,
{
    if x.len() < 2 {
        return Err(StatError::InsufficientData);
    }
    let n = x.len();
    let sum = total(x);
    let sum_sq = total_sq(x);
    proof {
        lemma_sum_bound(x@);
        lemma_two_pass_variance(x@);
    }
    let nn = n as i128;
    assert(0 <= nn * sum_sq < 85070591730234615865843651857942052864) by (nonlinear_arith)
        requires
            2 <= nn <= 4294967295,
            0 <= sum_sq <= 4611686018427387904 * nn,
    ;
    assert(0 <= sum * sum < 85070591730234615865843651857942052864) by (nonlinear_arith)
        requires
            2 <= nn <= 4294967295,
            -2147483648 * nn <= sum <= 2147483647 * nn,
    ;
    let num = nn * sum_sq - sum * sum;
    let nu = n as u128;
    assert(nu * (nu - 1) < 18446744073709551616) by (nonlinear_arith)
        requires
            2 <= nu <= 4294967295,
    ;
    let den = nu * (nu - 1);
    Ok((Fraction { num: sum, den: nu }, Fraction { num, den }))
}

} // verus!
