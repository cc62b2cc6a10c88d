use crate::chain::{all_spins, is_spin, SpinChain, MAX_SITES};
use crate::moments::{Ratio, StatsError};
use vstd::prelude::*;

verus! {

/// `sum_{i < m} s[i] * s[(i + k) mod n]`, `n` the length of the ring.
pub open spec fn pair_sum(s: Seq<i8>, k: int, m: nat) -> int
    decreases m,
{
    if m == 0 {
        0
    } else {
        let i = m - 1;
        pair_sum(s, k, (m - 1) as nat) + s[i] * s[(i + k) % (s.len() as int)]
    }
}

/// `n` times the lag-`k` correlation of the ring: `sum_i s[i] * s[(i + k) mod n]`.
pub open spec fn corr_sum(s: Seq<i8>, k: int) -> int {
    pair_sum(s, k, s.len())
}

/// One correlation sample of the ring, scaled by its length: entry `k`, for
/// `k < n / 2`, is `n` times the lag-`k` spatial correlation
/// `(1/n) * sum_i s[i] * s[(i + k) mod n]`.
pub fn correlation(chain: &SpinChain) -> (r: Vec<i64>)
    requires
        chain.wf(),
    ensures
        r@.len() == chain@.len() / 2,
        forall|k: int| 0 <= k < r@.len() ==> r@[k] == corr_sum(chain@, k),
        r@[0] == chain@.len(),
        forall|k: int| 0 <= k < r@.len() ==> -(chain@.len() as int) <= #[trigger] r@[k] <= chain@.len(),
{
    let n = chain.len();
    let lags = n / 2;
    let mut r: Vec<i64> = Vec::with_capacity(lags);
    let mut k: usize = 0;
    while k < lags
        invariant
            chain.wf(),
            n == chain@.len(),
            lags == n / 2,
            k <= lags,
            r@.len() == k,
            forall|j: int| 0 <= j < k ==> r@[j] == corr_sum(chain@, j),
        decreases lags - k,
    {
        let mut acc: i64 = 0;
        let mut i: usize = 0;
        while i < n
            invariant
                chain.wf(),
                n == chain@.len(),
                k < n,
                i <= n,
                -(i as int) <= acc <= i,
                acc == pair_sum(chain@, k as int, i as nat),
            decreases n - i,
        {
            let j = (i + k) % n;
            let a = chain.spin(i);
            let b = chain.spin(j);
            let ghost x = chain@[i as int] as int;
            let ghost y = chain@[j as int] as int;
            assert(is_spin(chain@[i as int]) && is_spin(chain@[j as int]));
            assert(x * y == if x == y { 1int } else { -1int }) by (nonlinear_arith)
                requires
                    x == 1 || x == -1,
                    y == 1 || y == -1,
            ;
            let p: i64 = if a == b { 1 } else { -1 };
            acc = acc + p;
            i = i + 1;
        }
        r.push(acc);
        k = k + 1;
    }
    proof {
        lemma_corr_lag_zero(chain@);
        assert forall|k: int| 0 <= k < r@.len() implies -(n as int) <= #[trigger] r@[k] <= n by {
            lemma_corr_bounded(chain@, k);
        }
    }
    r
}

/// Lag zero: every spin squared is one, so the sum is the ring's length and
/// the correlation is exactly 1.
pub proof fn lemma_corr_lag_zero(s: Seq<i8>)
    requires
        all_spins(s),
        s.len() > 0,
    ensures
        corr_sum(s, 0) == s.len(),
{
    lemma_pair_sum_lag_zero(s, s.len());
}

proof fn lemma_pair_sum_lag_zero(s: Seq<i8>, m: nat)
    requires
        all_spins(s),
        m <= s.len(),
    ensures
        pair_sum(s, 0, m) == m,
    decreases m,
{
    if m > 0 {
        lemma_pair_sum_lag_zero(s, (m - 1) as nat);
        let i = m - 1;
        assert((i + 0) % (s.len() as int) == i) by (nonlinear_arith)
            requires
                0 <= i < s.len(),
        ;
        assert(is_spin(s[i]));
    }
}

/// On a ring with every spin up, every lag has correlation exactly 1.
pub proof fn lemma_corr_all_up(s: Seq<i8>, k: int)
    requires
        s.len() > 0,
        forall|i: int| 0 <= i < s.len() ==> s[i] == 1,
    ensures
        corr_sum(s, k) == s.len(),
{
    lemma_pair_sum_all_up(s, k, s.len());
}

proof fn lemma_pair_sum_all_up(s: Seq<i8>, k: int, m: nat)
    requires
        s.len() > 0,
        m <= s.len(),
        forall|i: int| 0 <= i < s.len() ==> s[i] == 1,
    ensures
        pair_sum(s, k, m) == m,
    decreases m,
{
    if m > 0 {
        lemma_pair_sum_all_up(s, k, (m - 1) as nat);
        let i = m - 1;
        let j = (i + k) % (s.len() as int);
        assert(0 <= j < s.len());
        assert(s[i] == 1 && s[j] == 1);
    }
}

/// Every correlation lies in `[-1, 1]`: the scaled sum is at most `n` in size.
pub proof fn lemma_corr_bounded(s: Seq<i8>, k: int)
    requires
        all_spins(s),
        s.len() > 0,
    ensures
        -(s.len() as int) <= corr_sum(s, k) <= s.len(),
{
    lemma_pair_sum_bounded(s, k, s.len());
}

proof fn lemma_pair_sum_bounded(s: Seq<i8>, k: int, m: nat)
    requires
        all_spins(s),
        s.len() > 0,
        m <= s.len(),
    ensures
        -(m as int) <= pair_sum(s, k, m) <= m,
    decreases m,
{
    if m > 0 {
        lemma_pair_sum_bounded(s, k, (m - 1) as nat);
        let i = m - 1;
        let j = (i + k) % (s.len() as int);
        assert(is_spin(s[i]) && is_spin(s[j]));
    }
}

/// `sum_t samples[t][k]`: the lag-`k` column of the recorded samples.
pub open spec fn column_sum(samples: Seq<Seq<i64>>, k: int) -> int
    decreases samples.len(),
{
    if samples.len() == 0 {
        0
    } else {
        column_sum(samples.drop_last(), k) + samples.last()[k]
    }
}

proof fn lemma_column_sum_bounded(samples: Seq<Seq<i64>>, k: int)
    ensures
        -samples.len() * 0x8000_0000_0000_0000 <= column_sum(samples, k) <= samples.len()
            * 0x8000_0000_0000_0000,
    decreases samples.len(),
{
    if samples.len() > 0 {
        lemma_column_sum_bounded(samples.drop_last(), k);
    }
}

/// A lag whose entry is the same `c` in every sample sums to `len * c`.
pub proof fn lemma_column_sum_constant(samples: Seq<Seq<i64>>, k: int, c: int)
    requires
        forall|t: int| 0 <= t < samples.len() ==> (#[trigger] samples[t])[k] == c,
    ensures
        column_sum(samples, k) == samples.len() * c,
    decreases samples.len(),
{
    if samples.len() > 0 {
        let init = samples.drop_last();
        assert forall|t: int| 0 <= t < init.len() implies (#[trigger] init[t])[k] == c by {
            assert(init[t] == samples[t]);
        }
        lemma_column_sum_constant(init, k, c);
        assert(samples.len() * c == (samples.len() - 1) * c + c) by (nonlinear_arith);
    }
}

/// A lag whose entries are at most `b` in size sums to at most `len * b`.
pub proof fn lemma_column_sum_within(samples: Seq<Seq<i64>>, k: int, b: int)
    requires
        forall|t: int| 0 <= t < samples.len() ==> -b <= (#[trigger] samples[t])[k] <= b,
    ensures
        -(samples.len() * b) <= column_sum(samples, k) <= samples.len() * b,
    decreases samples.len(),
{
    if samples.len() > 0 {
        let init = samples.drop_last();
        assert forall|t: int| 0 <= t < init.len() implies -b <= (#[trigger] init[t])[k] <= b by {
            assert(init[t] == samples[t]);
        }
        lemma_column_sum_within(init, k, b);
        assert(samples.len() * b == (samples.len() - 1) * b + b) by (nonlinear_arith);
        assert(-b <= samples[samples.len() - 1][k] <= b);
    }
}

/// Streaming per-lag means of correlation samples.
///
/// Each recorded sample is a vector of lag sums over a ring of `scale`
/// sites (see [`correlation`]); the mean correlation at lag `k` is
/// `(sum_t samples[t][k]) / (count * scale)`, kept as exact sums.
pub struct CorrelationAccumulator {
    count: u32,
    scale: u32,
    sums: Vec<i128>,
    seen: Ghost<Seq<Seq<i64>>>,
}

impl View for CorrelationAccumulator {
    type V = Seq<Seq<i64>>;

    /// The samples recorded so far, in order.
    closed spec fn view(&self) -> Seq<Seq<i64>> {
        self.seen@
    }
}

impl CorrelationAccumulator {
    /// The number of lags of each sample.
    pub closed spec fn lags(&self) -> nat {
        self.sums@.len()
    }

    /// The number of sites behind each sample.
    pub closed spec fn scale(&self) -> nat {
        self.scale as nat
    }

    pub closed spec fn wf(&self) -> bool {
        &&& self.count == self.seen@.len()
        &&& 1 <= self.scale <= MAX_SITES
        &&& forall|t: int| 0 <= t < self.seen@.len() ==> (#[trigger] self.seen@[t]).len()
            == self.sums@.len()
        &&& forall|k: int| 0 <= k < self.sums@.len() ==> #[trigger] self.sums@[k] == column_sum(
            self.seen@,
            k,
        )
    }

    /// No sample yet; each sample will have `lags` entries and come from a
    /// ring of `scale` sites.
    pub fn new(lags: usize, scale: u32) -> (r: CorrelationAccumulator)
        requires
            1 <= scale <= MAX_SITES,
        ensures
            r.wf(),
            r@ == Seq::<Seq<i64>>::empty(),
            r.lags() == lags,
            r.scale() == scale,
    {
        let mut sums: Vec<i128> = Vec::with_capacity(lags);
        let mut i: usize = 0;
        while i < lags
            invariant
                i <= lags,
                sums@.len() == i,
                forall|k: int| 0 <= k < i ==> sums@[k] == 0,
            decreases lags - i,
        {
            sums.push(0);
            i = i + 1;
        }
        CorrelationAccumulator { count: 0, scale, sums, seen: Ghost(Seq::empty()) }
    }

    /// The number of samples recorded.
    pub fn count(&self) -> (r: u32)
        requires
            self.wf(),
        ensures
            r == self@.len(),
    {
        self.count
    }

    /// Records one sample, updating the running sum of every lag.
    pub fn push(&mut self, sample: &Vec<i64>)
        requires
            old(self).wf(),
            sample@.len() == old(self).lags(),
            old(self)@.len() < u32::MAX,
        ensures
            final(self).wf(),
            final(self)@ == old(self)@.push(sample@),
            final(self).lags() == old(self).lags(),
            final(self).scale() == old(self).scale(),
    {
        let ghost before = self.seen@;
        let ghost after = before.push(sample@);
        assert(after.drop_last() =~= before);
        let lags = self.sums.len();
        let mut k: usize = 0;
        while k < lags
            invariant
                lags == self.sums@.len(),
                lags == old(self).lags(),
                sample@.len() == lags,
                before.len() < u32::MAX,
                self.count == before.len(),
                self.seen@ == before,
                self.scale == old(self).scale,
                1 <= self.scale <= MAX_SITES,
                forall|t: int| 0 <= t < before.len() ==> (#[trigger] before[t]).len() == lags,
                after == before.push(sample@),
                after.drop_last() == before,
                k <= lags,
                forall|j: int| 0 <= j < k ==> #[trigger] self.sums@[j] == column_sum(after, j),
                forall|j: int| k <= j < lags ==> #[trigger] self.sums@[j] == column_sum(before, j),
            decreases lags - k,
        {
            proof {
                lemma_column_sum_bounded(before, k as int);
            }
            let v = self.sums[k] + sample[k] as i128;
            self.sums.set(k, v);
            k = k + 1;
        }
        self.count = self.count + 1;
        self.seen = Ghost(after);
    }

    /// The mean correlation of every lag, `column_sum / (count * scale)`; it
    /// needs at least one sample.
    pub fn means(&self) -> (r: Result<Vec<Ratio>, StatsError>)
        requires
            self.wf(),
        ensures
            (self@.len() == 0) <==> r == Err::<Vec<Ratio>, StatsError>(
                StatsError::InsufficientSamples,
            ),
            r matches Ok(v) ==> v@.len() == self.lags() && forall|k: int|
                0 <= k < v@.len() ==> (#[trigger] v@[k]).num == column_sum(self@, k) && v@[k].den
                    == self@.len() * self.scale(),
    {
        if self.count == 0 {
            return Err(StatsError::InsufficientSamples);
        }
        proof {
            let c = self.count as int;
            let s = self.scale as int;
            assert(0 <= c * s <= 0x1_0000_0000 * 0x8000_0000) by (nonlinear_arith)
                requires
                    0 <= c <= 0x1_0000_0000,
                    0 <= s <= 0x8000_0000,
            ;
        }
        let den = self.count as i128 * self.scale as i128;
        let lags = self.sums.len();
        let mut v: Vec<Ratio> = Vec::with_capacity(lags);
        let mut k: usize = 0;
        while k < lags
            invariant
                self.wf(),
                lags == self.sums@.len(),
                den == self@.len() * self.scale(),
                k <= lags,
                v@.len() == k,
                forall|j: int|
                    0 <= j < k ==> (#[trigger] v@[j]).num == column_sum(self@, j) && v@[j].den
                        == den,
            decreases lags - k,
        {
            v.push(Ratio { num: self.sums[k], den });
            k = k + 1;
        }
        Ok(v)
    }
}

} // verus!
