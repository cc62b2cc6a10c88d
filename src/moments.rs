use vstd::prelude::*;

verus! {

/// The sum of the observations.
pub open spec fn sum_of(s: Seq<i32>) -> int
    decreases s.len(),
{
    if s.len() == 0 {
        0
    } else {
        sum_of(s.drop_last()) + s.last()
    }
}

/// The sum of the squared observations.
pub open spec fn sum_sq_of(s: Seq<i32>) -> int
    decreases s.len(),
{
    if s.len() == 0 {
        0
    } else {
        sum_sq_of(s.drop_last()) + s.last() * s.last()
    }
}

/// `n` times the sum of squared deviations from the mean, `n * M2`, which is
/// `n * sum(x^2) - (sum x)^2`.
pub open spec fn scaled_m2(s: Seq<i32>) -> int {
    s.len() * sum_sq_of(s) - sum_of(s) * sum_of(s)
}

/// An exact ratio `num / den` of integers, with `den > 0`.
#[derive(Clone, Copy, Debug, PartialEq, Eq)]
pub struct Ratio {
    pub num: i128,
    pub den: i128,
}

/// A statistic asked for before enough observations were recorded.
#[derive(Clone, Copy, Debug, PartialEq, Eq)]
pub enum StatsError {
    InsufficientSamples,
}

/// Streaming count, mean and variance of integer observations.
///
/// The accumulator keeps the exact sums of the observations and of their
/// squares, so the mean `S / n` and the unbiased variance
/// `(n * Q - S^2) / (n * (n - 1))` come out as exact ratios; they agree with
/// Welford's recurrence carried out in exact arithmetic (see
/// [`lemma_welford_step`]).
pub struct RunningMoments {
    count: u32,
    sum: i128,
    sum_sq: i128,
    seen: Ghost<Seq<i32>>,
}

impl View for RunningMoments {
    type V = Seq<i32>;

    /// The observations recorded so far, in order.
    closed spec fn view(&self) -> Seq<i32> {
        self.seen@
    }
}

proof fn lemma_sums_bounded(s: Seq<i32>)
    ensures
        -s.len() * 0x8000_0000 <= sum_of(s) <= s.len() * 0x8000_0000,
        0 <= sum_sq_of(s) <= s.len() * 0x4000_0000_0000_0000,
    decreases s.len(),
{
    if s.len() > 0 {
        lemma_sums_bounded(s.drop_last());
        let x = s.last() as int;
        assert(0 <= x * x <= 0x4000_0000_0000_0000) by (nonlinear_arith)
            requires
                -0x8000_0000 <= x <= 0x7fff_ffff,
        ;
    }
}

/// Observations at most `b` in size sum to at most `len * b`.
pub proof fn lemma_sum_within(s: Seq<i32>, b: int)
    requires
        forall|t: int| 0 <= t < s.len() ==> -b <= #[trigger] s[t] <= b,
    ensures
        -(s.len() * b) <= sum_of(s) <= s.len() * b,
    decreases s.len(),
{
    if s.len() > 0 {
        let init = s.drop_last();
        assert forall|t: int| 0 <= t < init.len() implies -b <= #[trigger] init[t] <= b by {
            assert(init[t] == s[t]);
        }
        lemma_sum_within(init, b);
        assert(s.len() * b == (s.len() - 1) * b + b) by (nonlinear_arith);
        assert(-b <= s[s.len() - 1] <= b);
    }
}

proof fn lemma_sums_append(a: Seq<i32>, b: Seq<i32>)
    ensures
        sum_of(a + b) == sum_of(a) + sum_of(b),
        sum_sq_of(a + b) == sum_sq_of(a) + sum_sq_of(b),
    decreases b.len(),
{
    if b.len() > 0 {
        assert((a + b).drop_last() =~= a + b.drop_last());
        lemma_sums_append(a, b.drop_last());
    } else {
        assert(a + b =~= a);
    }
}

impl RunningMoments {
    pub closed spec fn wf(&self) -> bool {
        &&& self.count == self.seen@.len()
        &&& self.sum == sum_of(self.seen@)
        &&& self.sum_sq == sum_sq_of(self.seen@)
    }

    /// No observation yet.
    pub fn new() -> (r: RunningMoments)
        ensures
            r.wf(),
            r@ == Seq::<i32>::empty(),
    {
        RunningMoments { count: 0, sum: 0, sum_sq: 0, seen: Ghost(Seq::empty()) }
    }

    /// The number of observations recorded.
    pub fn count(&self) -> (r: u32)
        requires
            self.wf(),
        ensures
            r == self@.len(),
    {
        self.count
    }

    /// Records one observation.
    pub fn push(&mut self, x: i32)
        requires
            old(self).wf(),
            old(self)@.len() < u32::MAX,
        ensures
            final(self).wf(),
            final(self)@ == old(self)@.push(x),
    {
        proof {
            lemma_sums_bounded(self.seen@);
            assert(self.seen@.push(x).drop_last() =~= self.seen@);
            let xi = x as int;
            assert(0 <= xi * xi <= 0x4000_0000_0000_0000) by (nonlinear_arith)
                requires
                    -0x8000_0000 <= xi <= 0x7fff_ffff,
            ;
        }
        let xx = x as i128;
        self.count = self.count + 1;
        self.sum = self.sum + xx;
        self.sum_sq = self.sum_sq + xx * xx;
        self.seen = Ghost(self.seen@.push(x));
    }

    /// Folds in the observations of another accumulator, as when independent
    /// runs are combined.
    pub fn merge(&mut self, other: &RunningMoments)
        requires
            old(self).wf(),
            other.wf(),
            old(self)@.len() + other@.len() <= u32::MAX,
        ensures
            final(self).wf(),
            final(self)@ == old(self)@ + other@,
    {
        proof {
            lemma_sums_bounded(self.seen@);
            lemma_sums_bounded(other.seen@);
            lemma_sums_append(self.seen@, other.seen@);
        }
        self.count = self.count + other.count;
        self.sum = self.sum + other.sum;
        self.sum_sq = self.sum_sq + other.sum_sq;
        self.seen = Ghost(self.seen@ + other.seen@);
    }

    /// The mean, `sum / n`; it needs at least one observation.
    pub fn mean(&self) -> (r: Result<Ratio, StatsError>)
        requires
            self.wf(),
        ensures
            (self@.len() == 0) <==> r == Err::<Ratio, StatsError>(StatsError::InsufficientSamples),
            r matches Ok(m) ==> m.num == sum_of(self@) && m.den == self@.len(),
    {
        if self.count == 0 {
            Err(StatsError::InsufficientSamples)
        } else {
            Ok(Ratio { num: self.sum, den: self.count as i128 })
        }
    }

    /// The unbiased variance, `M2 / (n - 1)`, as
    /// `(n * sum(x^2) - (sum x)^2) / (n * (n - 1))`; it needs at least two
    /// observations.
    pub fn variance(&self) -> (r: Result<Ratio, StatsError>)
        requires
            self.wf(),
        ensures
            (self@.len() < 2) <==> r == Err::<Ratio, StatsError>(StatsError::InsufficientSamples),
            r matches Ok(v) ==> v.num == scaled_m2(self@) && v.den == self@.len() * (self@.len()
                - 1) && v.num >= 0,
    {
        if self.count < 2 {
            Err(StatsError::InsufficientSamples)
        } else {
            proof {
                lemma_sums_bounded(self.seen@);
                let n = self.count as int;
                let s = self.sum as int;
                let q = self.sum_sq as int;
                assert(0 <= n * q <= 0x1_0000_0000 * 0x1_0000_0000 * 0x4000_0000_0000_0000)
                    by (nonlinear_arith)
                    requires
                        0 <= n <= 0x1_0000_0000,
                        0 <= q <= n * 0x4000_0000_0000_0000,
                ;
                assert(0 <= s * s <= 0x1_0000_0000 * 0x8000_0000 * 0x1_0000_0000 * 0x8000_0000)
                    by (nonlinear_arith)
                    requires
                        0 <= n <= 0x1_0000_0000,
                        -n * 0x8000_0000 <= s <= n * 0x8000_0000,
                ;
                assert(0 <= n * (n - 1) <= 0x1_0000_0000 * 0x1_0000_0000) by (nonlinear_arith)
                    requires
                        2 <= n <= 0x1_0000_0000,
                ;
            }
            proof {
                lemma_scaled_m2_nonneg(self.seen@);
            }
            let n = self.count as i128;
            Ok(Ratio { num: n * self.sum_sq - self.sum * self.sum, den: n * (n - 1) })
        }
    }
}

/// The exact sums follow Welford's recurrence: with `n` observations of sum
/// `S` and one more, `x`, `M2' = M2 + (x - S/n) * (x - S'/n')`, written
/// here multiplied out by `n * n'` over `n * M2 = scaled_m2`. A first
/// observation leaves `M2` at zero.
pub proof fn lemma_welford_step(s: Seq<i32>, x: i32)
    ensures
        s.len() == 0 ==> scaled_m2(s.push(x)) == 0,
        s.len() * scaled_m2(s.push(x)) == (s.len() + 1) * scaled_m2(s) + (s.len() * x - sum_of(
            s,
        )) * ((s.len() + 1) * x - sum_of(s.push(x))),
{
    assert(s.push(x).drop_last() =~= s);
    let n = s.len() as int;
    let sm = sum_of(s);
    let q = sum_sq_of(s);
    let xi = x as int;
    assert((n + 1) * xi - (sm + xi) == n * xi - sm) by (nonlinear_arith);
    assert((n * xi - sm) * (n * xi - sm) == n * n * (xi * xi) - 2 * n * (xi * sm) + sm * sm)
        by (nonlinear_arith);
    assert((sm + xi) * (sm + xi) == sm * sm + 2 * (xi * sm) + xi * xi) by (nonlinear_arith);
    assert(n * ((n + 1) * (q + xi * xi) - (sm * sm + 2 * (xi * sm) + xi * xi)) == (n + 1) * (n * q
        - sm * sm) + (n * n * (xi * xi) - 2 * n * (xi * sm) + sm * sm)) by (nonlinear_arith);
    if n == 0 {
        assert(sm == 0 && q == 0);
        assert(1 * (q + xi * xi) - (sm + xi) * (sm + xi) == 0) by (nonlinear_arith)
            requires
                sm == 0,
                q == 0,
        ;
    }
}


/// The sum of squared deviations is never negative: `n * sum(x^2) >= (sum x)^2`.
pub proof fn lemma_scaled_m2_nonneg(s: Seq<i32>)
    ensures
        scaled_m2(s) >= 0,
    decreases s.len(),
{
    if s.len() > 0 {
        let init = s.drop_last();
        let x = s.last();
        assert(init.push(x) =~= s);
        lemma_scaled_m2_nonneg(init);
        lemma_welford_step(init, x);
        let n = init.len() as int;
        let d = n * x - sum_of(init);
        assert(sum_of(s) == sum_of(init) + x);
        assert(s.len() * x - sum_of(s) == d) by (nonlinear_arith)
            requires
                s.len() == n + 1,
                sum_of(s) == sum_of(init) + x,
                d == n * x - sum_of(init),
        ;
        let a = scaled_m2(init);
        let b = scaled_m2(s);
        assert(d * d >= 0) by (nonlinear_arith);
        if n > 0 {
            assert(b >= 0) by (nonlinear_arith)
                requires
                    n > 0,
                    a >= 0,
                    n * b == (n + 1) * a + d * d,
                    d * d >= 0,
            ;
        }
    }
}

} // verus!
