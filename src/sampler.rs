use crate::chain::{
    all_spins, flipped, is_spin, lemma_spin_sum_bounded, lemma_sweeps_flip_symmetry,
    reflected_rounds, spin_sum, sweep_spec, sweeps_spec, SpinChain, MAX_SITES,
};
use crate::correlation::{
    column_sum, corr_sum, correlation, pair_sum, lemma_column_sum_constant, lemma_column_sum_within,
    CorrelationAccumulator,
};
use crate::heat_bath::HeatBath;
use crate::moments::{lemma_sum_within, scaled_m2, sum_of, Ratio, RunningMoments};
use crate::random::{concat_rounds, RandomSource};
use vstd::arithmetic::div_mod::{lemma_fundamental_div_mod, lemma_fundamental_div_mod_converse};
use vstd::prelude::*;

verus! {

/// The shape of a run: ring size, burn-in sweeps, sampling sweeps, and the
/// measurement cadence (after sampling sweep `i` when `i mod sample_freq == 0`).
#[derive(Clone, Copy, Debug, PartialEq, Eq)]
pub struct RunConfig {
    pub sites: usize,
    pub init_iters: u32,
    pub sample_iters: u32,
    pub sample_freq: u32,
}

/// The parameter that a rejected configuration got wrong.
#[derive(Clone, Copy, Debug, PartialEq, Eq)]
pub enum ConfigField {
    Sites,
    InitIters,
    SampleIters,
    SampleFreq,
}

/// Why a run stopped without a report.
#[derive(Clone, Copy, Debug, PartialEq, Eq)]
pub enum SimError {
    /// The configuration is invalid in the named parameter.
    Config(ConfigField),
    /// Fewer than two measurements were recorded.
    InsufficientSamples,
}

/// The first parameter of `c` that is out of range, if any: the ring needs
/// `3..=MAX_SITES` sites and every count must be positive.
pub open spec fn config_error(c: RunConfig) -> Option<ConfigField> {
    if !(3 <= c.sites <= MAX_SITES) {
        Some(ConfigField::Sites)
    } else if c.init_iters == 0 {
        Some(ConfigField::InitIters)
    } else if c.sample_iters == 0 {
        Some(ConfigField::SampleIters)
    } else if c.sample_freq == 0 {
        Some(ConfigField::SampleFreq)
    } else {
        None
    }
}

/// The number of measurements taken in sampling sweeps `0..i`: one for each
/// index that is a multiple of `freq`.
pub open spec fn measurements_before(i: nat, freq: nat) -> nat
    decreases i,
{
    if i == 0 {
        0
    } else {
        measurements_before((i - 1) as nat, freq) + if (i - 1) % (freq as int) == 0 {
            1nat
        } else {
            0nat
        }
    }
}

/// The measurements of a whole run.
pub open spec fn expected_measurements(c: RunConfig) -> nat {
    measurements_before(c.sample_iters as nat, c.sample_freq as nat)
}

proof fn lemma_measurements_at_most(i: nat, freq: nat)
    ensures
        measurements_before(i, freq) <= i,
    decreases i,
{
    if i > 0 {
        lemma_measurements_at_most((i - 1) as nat, freq);
    }
}

/// A run of `n` sampling sweeps with cadence `f` takes `ceil(n / f)`
/// measurements.
pub proof fn lemma_measurement_count(i: nat, freq: nat)
    requires
        freq >= 1,
    ensures
        measurements_before(i, freq) == (i + freq - 1) / (freq as int),
    decreases i,
{
    let f = freq as int;
    if i == 0 {
        lemma_fundamental_div_mod_converse(f - 1, f, 0, f - 1);
    } else {
        let j = (i - 1) as int;
        lemma_measurement_count(j as nat, freq);
        lemma_fundamental_div_mod(j, f);
        let q = j / f;
        let r = j % f;
        assert(j + f == (q + 1) * f + r) by (nonlinear_arith)
            requires
                j == f * q + r,
        ;
        lemma_fundamental_div_mod_converse(j + f, f, q + 1, r);
        if r == 0 {
            assert(j + f - 1 == q * f + (f - 1)) by (nonlinear_arith)
                requires
                    j == f * q + r,
                    r == 0,
            ;
            lemma_fundamental_div_mod_converse(j + f - 1, f, q, f - 1);
        } else {
            assert(j + f - 1 == (q + 1) * f + (r - 1)) by (nonlinear_arith)
                requires
                    j == f * q + r,
            ;
            lemma_fundamental_div_mod_converse(j + f - 1, f, q + 1, r - 1);
        }
    }
}

/// The correlation sample of a ring, one entry per lag `k < n / 2`.
pub open spec fn corr_vector(s: Seq<i8>) -> Seq<i64> {
    Seq::new(s.len() / 2, |k: int| corr_sum(s, k) as i64)
}

/// The magnetizations recorded by sampling sweeps driven by `rounds`,
/// starting from ring `s`: one after each sweep whose index is a multiple of
/// `freq`.
pub open spec fn sampled_magnetizations(
    s: Seq<i8>,
    bath: HeatBath,
    rounds: Seq<Seq<u64>>,
    freq: nat,
) -> Seq<i32>
    decreases rounds.len(),
{
    if rounds.len() == 0 {
        Seq::empty()
    } else {
        let prev = sampled_magnetizations(s, bath, rounds.drop_last(), freq);
        if (rounds.len() - 1) % (freq as int) == 0 {
            prev.push(spin_sum(sweeps_spec(s, bath, rounds)) as i32)
        } else {
            prev
        }
    }
}

/// The correlation samples recorded by sampling sweeps driven by `rounds`,
/// starting from ring `s`, at the same sweeps as the magnetizations.
pub open spec fn sampled_correlations(
    s: Seq<i8>,
    bath: HeatBath,
    rounds: Seq<Seq<u64>>,
    freq: nat,
) -> Seq<Seq<i64>>
    decreases rounds.len(),
{
    if rounds.len() == 0 {
        Seq::empty()
    } else {
        let prev = sampled_correlations(s, bath, rounds.drop_last(), freq);
        if (rounds.len() - 1) % (freq as int) == 0 {
            prev.push(corr_vector(sweeps_spec(s, bath, rounds)))
        } else {
            prev
        }
    }
}

/// Every magnetization negated.
pub open spec fn negated(m: Seq<i32>) -> Seq<i32> {
    Seq::new(m.len(), |t: int| (-m[t]) as i32)
}

proof fn lemma_pair_sum_flip(s: Seq<i8>, k: int, m: nat)
    requires
        all_spins(s),
        s.len() > 0,
        m <= s.len(),
    ensures
        pair_sum(flipped(s), k, m) == pair_sum(s, k, m),
    decreases m,
{
    if m > 0 {
        lemma_pair_sum_flip(s, k, (m - 1) as nat);
        let i = m - 1;
        let j = (i + k) % (s.len() as int);
        assert(is_spin(s[i]) && is_spin(s[j]));
        let a = s[i] as int;
        let b = s[j] as int;
        assert((-a) * (-b) == a * b) by (nonlinear_arith);
    }
}

/// Reversing every spin leaves every correlation sample unchanged.
pub proof fn lemma_corr_vector_flip(s: Seq<i8>)
    requires
        all_spins(s),
    ensures
        corr_vector(flipped(s)) == corr_vector(s),
{
    if s.len() > 0 {
        assert forall|k: int| 0 <= k < s.len() / 2 implies corr_sum(flipped(s), k) == corr_sum(
            s,
            k,
        ) by {
            lemma_pair_sum_flip(s, k, s.len());
        }
    }
    assert(corr_vector(flipped(s)) =~= corr_vector(s));
}

/// Without a field, sampling from the reversed ring with every round of
/// draws reflected records the opposite magnetizations and the same
/// correlation samples.
pub proof fn lemma_sampling_flip_symmetry(
    s: Seq<i8>,
    bath: HeatBath,
    rounds: Seq<Seq<u64>>,
    freq: nat,
)
    requires
        all_spins(s),
        s.len() <= MAX_SITES,
        forall|t: int| 0 <= t < rounds.len() ==> (#[trigger] rounds[t]).len() == s.len(),
        bath.is_symmetric(),
    ensures
        sampled_magnetizations(flipped(s), bath, reflected_rounds(rounds), freq) == negated(
            sampled_magnetizations(s, bath, rounds, freq),
        ),
        sampled_correlations(flipped(s), bath, reflected_rounds(rounds), freq)
            == sampled_correlations(s, bath, rounds, freq),
    decreases rounds.len(),
{
    let fr = reflected_rounds(rounds);
    let m = sampled_magnetizations(s, bath, rounds, freq);
    if rounds.len() == 0 {
        assert(negated(m) =~= m);
    } else {
        let init = rounds.drop_last();
        lemma_sampling_flip_symmetry(s, bath, init, freq);
        assert(fr.drop_last() =~= reflected_rounds(init));
        lemma_sweeps_flip_symmetry(s, bath, rounds);
        let st = sweeps_spec(s, bath, rounds);
        lemma_spin_sum_bounded(st);
        lemma_corr_vector_flip(st);
        let prev = sampled_magnetizations(s, bath, init, freq);
        if (rounds.len() - 1) % (freq as int) == 0 {
            assert(negated(prev).push((-(spin_sum(st) as i32)) as i32) =~= negated(
                prev.push(spin_sum(st) as i32),
            ));
        }
    }
}

/// Whole runs without a field: a run from all spins down whose burn-in and
/// sampling draws are the reflections of those of a run from all spins up
/// records the opposite magnetizations and the same correlation samples.
/// Reflected draws are as likely as the originals, so the two starts give
/// mean magnetizations of equal size and opposite sign in distribution.
pub proof fn lemma_run_flip_symmetry(
    n: nat,
    bath: HeatBath,
    burn: Seq<Seq<u64>>,
    rounds: Seq<Seq<u64>>,
    freq: nat,
)
    requires
        n <= MAX_SITES,
        forall|t: int| 0 <= t < burn.len() ==> (#[trigger] burn[t]).len() == n,
        forall|t: int| 0 <= t < rounds.len() ==> (#[trigger] rounds[t]).len() == n,
        bath.is_symmetric(),
    ensures
        ({
            let up = sweeps_spec(Seq::new(n, |i: int| 1i8), bath, burn);
            let down = sweeps_spec(Seq::new(n, |i: int| -1i8), bath, reflected_rounds(burn));
            &&& sampled_magnetizations(down, bath, reflected_rounds(rounds), freq) == negated(
                sampled_magnetizations(up, bath, rounds, freq),
            )
            &&& sampled_correlations(down, bath, reflected_rounds(rounds), freq)
                == sampled_correlations(up, bath, rounds, freq)
        }),
{
    let all_up = Seq::new(n, |i: int| 1i8);
    assert(flipped(all_up) =~= Seq::new(n, |i: int| -1i8));
    assert(all_spins(all_up));
    lemma_sweeps_flip_symmetry(all_up, bath, burn);
    let up = sweeps_spec(all_up, bath, burn);
    lemma_sampling_flip_symmetry(up, bath, rounds, freq);
}

impl RunConfig {
    /// Accepts the configuration, or names its first bad parameter.
    pub fn validate(&self) -> (r: Result<(), SimError>)
        ensures
            r == match config_error(*self) {
                Some(f) => Err(SimError::Config(f)),
                None => Ok(()),
            },
    {
        if !(3 <= self.sites && self.sites <= MAX_SITES) {
            Err(SimError::Config(ConfigField::Sites))
        } else if self.init_iters == 0 {
            Err(SimError::Config(ConfigField::InitIters))
        } else if self.sample_iters == 0 {
            Err(SimError::Config(ConfigField::SampleIters))
        } else if self.sample_freq == 0 {
            Err(SimError::Config(ConfigField::SampleFreq))
        } else {
            Ok(())
        }
    }
}

/// The finished statistics of a run, as exact ratios: the mean magnetization,
/// its unbiased variance, and the mean correlation of each lag.
#[derive(Debug, PartialEq, Eq)]
pub struct Report {
    pub count: u32,
    pub mean: Ratio,
    pub variance: Ratio,
    pub correlation: Vec<Ratio>,
}

/// A run in progress: the ring, the rule, and the two accumulators.
pub struct Simulation {
    config: RunConfig,
    bath: HeatBath,
    chain: SpinChain,
    moments: RunningMoments,
    corr: CorrelationAccumulator,
}

impl Simulation {
    pub closed spec fn config_spec(&self) -> RunConfig {
        self.config
    }

    pub closed spec fn bath_spec(&self) -> HeatBath {
        self.bath
    }

    /// The spins of the ring.
    pub closed spec fn spins_spec(&self) -> Seq<i8> {
        self.chain@
    }

    /// The magnetizations measured so far.
    pub closed spec fn magnetizations(&self) -> Seq<i32> {
        self.moments@
    }

    /// The correlation samples measured so far.
    pub closed spec fn samples(&self) -> Seq<Seq<i64>> {
        self.corr@
    }

    pub closed spec fn wf(&self) -> bool {
        &&& config_error(self.config) is None
        &&& self.chain.wf()
        &&& self.chain@.len() == self.config.sites
        &&& self.moments.wf()
        &&& self.corr.wf()
        &&& self.corr.lags() == self.config.sites / 2
        &&& self.corr.scale() == self.config.sites
        &&& self.moments@.len() == self.corr@.len()
        &&& forall|t: int|
            0 <= t < self.moments@.len() ==> -(self.config.sites as int) <= #[trigger] self.moments@[t]
                <= self.config.sites
        &&& forall|t: int| 0 <= t < self.corr@.len() ==> (#[trigger] self.corr@[t])[0] == self.config.sites
        &&& forall|t: int, k: int|
            0 <= t < self.corr@.len() && 0 <= k < self.config.sites / 2 ==> -(self.config.sites as int)
                <= #[trigger] self.corr@[t][k] <= self.config.sites
    }

    /// Starts a run: validates the configuration and sets every spin up.
    pub fn new(config: RunConfig, bath: HeatBath) -> (r: Result<Simulation, SimError>)
        ensures
            match config_error(config) {
                Some(f) => r == Err::<Simulation, SimError>(SimError::Config(f)),
                None => r is Ok,
            },
            r matches Ok(sim) ==> {
                &&& sim.wf()
                &&& sim.config_spec() == config
                &&& sim.bath_spec() == bath
                &&& sim.spins_spec() == Seq::new(config.sites as nat, |i: int| 1i8)
                &&& sim.magnetizations().len() == 0
                &&& sim.samples().len() == 0
            },
    {
        let r = Simulation::with_start(config, bath, true);
        proof {
            if r is Ok {
                assert(r->Ok_0.spins_spec() =~= Seq::new(config.sites as nat, |i: int| 1i8));
            }
        }
        r
    }

    /// Starts a run from a uniform ring: every spin up when `up` holds, else
    /// every spin down.
    pub fn with_start(config: RunConfig, bath: HeatBath, up: bool) -> (r: Result<
        Simulation,
        SimError,
    >)
        ensures
            match config_error(config) {
                Some(f) => r == Err::<Simulation, SimError>(SimError::Config(f)),
                None => r is Ok,
            },
            r matches Ok(sim) ==> {
                &&& sim.wf()
                &&& sim.config_spec() == config
                &&& sim.bath_spec() == bath
                &&& sim.spins_spec() == Seq::new(
                    config.sites as nat,
                    |i: int|
                        if up {
                            1i8
                        } else {
                            -1i8
                        },
                )
                &&& sim.magnetizations().len() == 0
                &&& sim.samples().len() == 0
            },
    {
        match config.validate() {
            Err(e) => Err(e),
            Ok(()) => {
                let chain = SpinChain::uniform(config.sites, up);
                let moments = RunningMoments::new();
                let corr = CorrelationAccumulator::new(config.sites / 2, config.sites as u32);
                Ok(Simulation { config, bath, chain, moments, corr })
            },
        }
    }

    /// The spins of the ring, in site order.
    pub fn spins(&self) -> (r: Vec<i8>)
        ensures
            r@ == self.spins_spec(),
    {
        self.chain.to_vec()
    }

    /// The number of measurements so far.
    pub fn count(&self) -> (r: u32)
        requires
            self.wf(),
        ensures
            r == self.magnetizations().len(),
    {
        self.moments.count()
    }

    /// One sweep of the ring with the given draws; no measurement.
    pub fn sweep_with_draws(&mut self, draws: &Vec<u64>)
        requires
            old(self).wf(),
            draws@.len() == old(self).config_spec().sites,
        ensures
            final(self).wf(),
            final(self).spins_spec() == sweep_spec(old(self).spins_spec(), old(self).bath_spec(), draws@),
            final(self).config_spec() == old(self).config_spec(),
            final(self).bath_spec() == old(self).bath_spec(),
            final(self).magnetizations() == old(self).magnetizations(),
            final(self).samples() == old(self).samples(),
    {
        self.chain.sweep_with_draws(&self.bath, draws);
    }

    /// Measures the ring: its magnetization goes to the moments, its
    /// correlation sample to the per-lag means.
    pub fn measure(&mut self)
        requires
            old(self).wf(),
            old(self).magnetizations().len() < u32::MAX,
        ensures
            final(self).wf(),
            final(self).spins_spec() == old(self).spins_spec(),
            final(self).config_spec() == old(self).config_spec(),
            final(self).bath_spec() == old(self).bath_spec(),
            final(self).magnetizations() == old(self).magnetizations().push(
                spin_sum(old(self).spins_spec()) as i32,
            ),
            final(self).samples() == old(self).samples().push(corr_vector(old(self).spins_spec())),
    {
        let m = self.chain.magnetization();
        let c = correlation(&self.chain);
        let ghost s = self.chain@;
        let ghost n = self.config.sites as int;
        proof {
            lemma_spin_sum_bounded(s);
            assert(c@ =~= corr_vector(s));
        }
        self.moments.push(m);
        self.corr.push(&c);
        proof {
            let ms = self.moments@;
            let cs = self.corr@;
            assert forall|t: int| 0 <= t < ms.len() implies -n <= #[trigger] ms[t] <= n by {
                if t < ms.len() - 1 {
                    assert(ms[t] == old(self).moments@[t]);
                }
            }
            assert forall|t: int| 0 <= t < cs.len() implies (#[trigger] cs[t])[0] == n by {
                if t < cs.len() - 1 {
                    assert(cs[t] == old(self).corr@[t]);
                }
            }
            assert forall|t: int, k: int| 0 <= t < cs.len() && 0 <= k < n / 2 implies -n
                <= #[trigger] cs[t][k] <= n by {
                if t < cs.len() - 1 {
                    assert(cs[t] == old(self).corr@[t]);
                }
            }
        }
    }

    /// Sampling sweep number `index` with the given draws, followed by a
    /// measurement when `index` is a multiple of the cadence.
    pub fn sample_with_draws(&mut self, index: u32, draws: &Vec<u64>)
        requires
            old(self).wf(),
            draws@.len() == old(self).config_spec().sites,
            old(self).magnetizations().len() < u32::MAX,
        ensures
            final(self).wf(),
            final(self).config_spec() == old(self).config_spec(),
            final(self).bath_spec() == old(self).bath_spec(),
            final(self).spins_spec() == sweep_spec(old(self).spins_spec(), old(self).bath_spec(), draws@),
            index % old(self).config_spec().sample_freq == 0 ==> {
                &&& final(self).magnetizations() == old(self).magnetizations().push(
                    spin_sum(final(self).spins_spec()) as i32,
                )
                &&& final(self).samples() == old(self).samples().push(
                    corr_vector(final(self).spins_spec()),
                )
            },
            index % old(self).config_spec().sample_freq != 0 ==> {
                &&& final(self).magnetizations() == old(self).magnetizations()
                &&& final(self).samples() == old(self).samples()
            },
    {
        self.sweep_with_draws(draws);
        if index % self.config.sample_freq == 0 {
            self.measure();
        }
    }

    /// The burn-in: `init_iters` sweeps drawn from `rng`, no measurement.
    pub fn burn_in(&mut self, rng: &mut RandomSource)
        requires
            old(self).wf(),
        ensures
            final(self).wf(),
            final(self).config_spec() == old(self).config_spec(),
            final(self).bath_spec() == old(self).bath_spec(),
            final(self).magnetizations() == old(self).magnetizations(),
            final(self).samples() == old(self).samples(),
            exists|rounds: Seq<Seq<u64>>|
                {
                    &&& rounds.len() == old(self).config_spec().init_iters
                    &&& forall|t: int| 0 <= t < rounds.len() ==> (#[trigger] rounds[t]).len()
                        == old(self).config_spec().sites
                    &&& final(rng)@ == old(rng)@ + concat_rounds(rounds)
                    &&& final(self).spins_spec() == sweeps_spec(
                        old(self).spins_spec(),
                        old(self).bath_spec(),
                        rounds,
                    )
                },
    {
        let ghost start = self.chain@;
        assert(rng@ =~= old(rng)@ + concat_rounds(Seq::<Seq<u64>>::empty()));
        let ghost mut rounds: Seq<Seq<u64>> = Seq::empty();
        let iters = self.config.init_iters;
        let mut i: u32 = 0;
        while i < iters
            invariant
                self.wf(),
                self.config == old(self).config,
                self.bath == old(self).bath,
                self.moments@ == old(self).moments@,
                self.corr@ == old(self).corr@,
                iters == self.config.init_iters,
                i <= iters,
                rounds.len() == i,
                forall|t: int| 0 <= t < rounds.len() ==> (#[trigger] rounds[t]).len() == self.config.sites,
                start == old(self).chain@,
                self.chain@ == sweeps_spec(start, self.bath, rounds),
                rng@ == old(rng)@ + concat_rounds(rounds),
            decreases iters - i,
        {
            let draws = rng.draws(self.config.sites);
            self.chain.sweep_with_draws(&self.bath, &draws);
            proof {
                let next = rounds.push(draws@);
                assert(next.drop_last() =~= rounds);
                assert(rng@ =~= old(rng)@ + concat_rounds(next));
                rounds = next;
            }
            i = i + 1;
        }
    }

    /// The sampling phase: `sample_iters` sweeps drawn from `rng`, with a
    /// measurement after each sweep whose index is a multiple of the cadence.
    pub fn sample(&mut self, rng: &mut RandomSource)
        requires
            old(self).wf(),
            old(self).magnetizations().len() == 0,
        ensures
            final(self).wf(),
            final(self).config_spec() == old(self).config_spec(),
            final(self).bath_spec() == old(self).bath_spec(),
            final(self).magnetizations().len() == expected_measurements(old(self).config_spec()),
            final(self).samples().len() == expected_measurements(old(self).config_spec()),
            exists|rounds: Seq<Seq<u64>>|
                {
                    &&& rounds.len() == old(self).config_spec().sample_iters
                    &&& forall|t: int| 0 <= t < rounds.len() ==> (#[trigger] rounds[t]).len()
                        == old(self).config_spec().sites
                    &&& final(rng)@ == old(rng)@ + concat_rounds(rounds)
                    &&& final(self).spins_spec() == sweeps_spec(
                        old(self).spins_spec(),
                        old(self).bath_spec(),
                        rounds,
                    )
                    &&& final(self).magnetizations() == old(self).magnetizations()
                        + sampled_magnetizations(
                        old(self).spins_spec(),
                        old(self).bath_spec(),
                        rounds,
                        old(self).config_spec().sample_freq as nat,
                    )
                    &&& final(self).samples() == old(self).samples() + sampled_correlations(
                        old(self).spins_spec(),
                        old(self).bath_spec(),
                        rounds,
                        old(self).config_spec().sample_freq as nat,
                    )
                },
    {
        let iters = self.config.sample_iters;
        let freq = self.config.sample_freq;
        let ghost start = self.chain@;
        let ghost mut rounds: Seq<Seq<u64>> = Seq::empty();
        let mut i: u32 = 0;
        assert(rng@ =~= old(rng)@ + concat_rounds(Seq::<Seq<u64>>::empty()));
        assert(old(self).moments@ + Seq::<i32>::empty() =~= old(self).moments@);
        assert(old(self).corr@ + Seq::<Seq<i64>>::empty() =~= old(self).corr@);
        while i < iters
            invariant
                self.wf(),
                self.config == old(self).config,
                self.bath == old(self).bath,
                iters == self.config.sample_iters,
                freq == self.config.sample_freq,
                i <= iters,
                self.moments@.len() == measurements_before(i as nat, freq as nat),
                old(self).moments@.len() == 0,
                start == old(self).chain@,
                rounds.len() == i,
                forall|t: int| 0 <= t < rounds.len() ==> (#[trigger] rounds[t]).len() == self.config.sites,
                self.chain@ == sweeps_spec(start, self.bath, rounds),
                rng@ == old(rng)@ + concat_rounds(rounds),
                self.moments@ == old(self).moments@ + sampled_magnetizations(
                    start,
                    self.bath,
                    rounds,
                    freq as nat,
                ),
                self.corr@ == old(self).corr@ + sampled_correlations(
                    start,
                    self.bath,
                    rounds,
                    freq as nat,
                ),
            decreases iters - i,
        {
            proof {
                lemma_measurements_at_most(i as nat, freq as nat);
            }
            let draws = rng.draws(self.config.sites);
            let ghost pm = self.moments@;
            let ghost pc = self.corr@;
            self.sample_with_draws(i, &draws);
            proof {
                let next = rounds.push(draws@);
                assert(next.drop_last() =~= rounds);
                let mags = sampled_magnetizations(start, self.bath, rounds, freq as nat);
                let cors = sampled_correlations(start, self.bath, rounds, freq as nat);
                if i % freq == 0 {
                    assert(pm.push(spin_sum(self.chain@) as i32) =~= old(self).moments@ + mags.push(
                        spin_sum(self.chain@) as i32,
                    ));
                    assert(pc.push(corr_vector(self.chain@)) =~= old(self).corr@ + cors.push(
                        corr_vector(self.chain@),
                    ));
                }
                assert(rng@ =~= old(rng)@ + concat_rounds(next));
                rounds = next;
            }
            i = i + 1;
        }
    }

    /// The finished statistics; they need at least two measurements. The
    /// lag-zero mean correlation is exactly one, and every mean lies in
    /// `[-1, 1]` (magnetization per site for the mean).
    pub fn report(&self) -> (r: Result<Report, SimError>)
        requires
            self.wf(),
        ensures
            (self.magnetizations().len() < 2) <==> r == Err::<Report, SimError>(
                SimError::InsufficientSamples,
            ),
            (self.magnetizations().len() >= 2) ==> r is Ok,
            r matches Ok(rep) ==> {
                let n = self.magnetizations().len();
                let sites = self.config_spec().sites;
                &&& rep.count == n
                &&& rep.mean.num == sum_of(self.magnetizations())
                &&& rep.mean.den == n
                &&& rep.variance.num == scaled_m2(self.magnetizations())
                &&& rep.variance.den == n * (n - 1)
                &&& rep.variance.num >= 0
                &&& -(n * sites) <= rep.mean.num <= n * sites
                &&& rep.correlation@.len() == sites / 2
                &&& forall|k: int|
                    0 <= k < rep.correlation@.len() ==> (#[trigger] rep.correlation@[k]).num
                        == column_sum(self.samples(), k) && rep.correlation@[k].den == n * sites
                        && -rep.correlation@[k].den <= rep.correlation@[k].num
                        <= rep.correlation@[k].den
                &&& rep.correlation@[0].num == rep.correlation@[0].den
            },
    {
        let count = self.moments.count();
        if count < 2 {
            return Err(SimError::InsufficientSamples);
        }
        let mean = match self.moments.mean() {
            Ok(m) => m,
            Err(e) => return Err(SimError::InsufficientSamples),
        };
        let variance = match self.moments.variance() {
            Ok(v) => v,
            Err(e) => return Err(SimError::InsufficientSamples),
        };
        let correlation = match self.corr.means() {
            Ok(c) => c,
            Err(e) => return Err(SimError::InsufficientSamples),
        };
        proof {
            let n = self.config.sites as int;
            let samples = self.corr@;
            lemma_sum_within(self.moments@, n);
            lemma_column_sum_constant(samples, 0, n);
            assert forall|k: int| 0 <= k < n / 2 implies -(samples.len() * n) <= #[trigger] column_sum(
                samples,
                k,
            ) <= samples.len() * n by {
                lemma_column_sum_within(samples, k, n);
            }
        }
        Ok(Report { count, mean, variance, correlation })
    }
}

/// `rep` holds the statistics of a run from the all-up ring whose burn-in
/// sweeps used the draws `burn` and whose sampling sweeps used `rounds`.
pub open spec fn reports_trajectory(
    config: RunConfig,
    bath: HeatBath,
    burn: Seq<Seq<u64>>,
    rounds: Seq<Seq<u64>>,
    rep: Report,
) -> bool {
    let start = sweeps_spec(Seq::new(config.sites as nat, |i: int| 1i8), bath, burn);
    let mags = sampled_magnetizations(start, bath, rounds, config.sample_freq as nat);
    let cors = sampled_correlations(start, bath, rounds, config.sample_freq as nat);
    &&& burn.len() == config.init_iters
    &&& forall|t: int| 0 <= t < burn.len() ==> (#[trigger] burn[t]).len() == config.sites
    &&& rounds.len() == config.sample_iters
    &&& forall|t: int| 0 <= t < rounds.len() ==> (#[trigger] rounds[t]).len() == config.sites
    &&& rep.mean.num == sum_of(mags)
    &&& rep.variance.num == scaled_m2(mags)
    &&& forall|k: int|
        0 <= k < rep.correlation@.len() ==> (#[trigger] rep.correlation@[k]).num == column_sum(
            cors,
            k,
        )
}

/// A whole run: validation, all spins up, burn-in, sampling with
/// measurements, and the report. Every draw comes from `rng`, in order.
pub fn run(config: RunConfig, bath: HeatBath, rng: &mut RandomSource) -> (r: Result<
    Report,
    SimError,
>)
    ensures
        match config_error(config) {
            Some(f) => r == Err::<Report, SimError>(SimError::Config(f)),
            None => {
                &&& (expected_measurements(config) < 2) <==> r == Err::<Report, SimError>(
                    SimError::InsufficientSamples,
                )
                &&& (expected_measurements(config) >= 2) ==> r is Ok
                &&& r matches Ok(rep) ==> {
                    let n = expected_measurements(config);
                    &&& rep.count == n
                    &&& rep.count == (config.sample_iters + config.sample_freq - 1) / (
                    config.sample_freq as int)
                    &&& rep.mean.den == n
                    &&& -(n * config.sites) <= rep.mean.num <= n * config.sites
                    &&& rep.variance.den == n * (n - 1)
                    &&& rep.variance.num >= 0
                    &&& rep.correlation@.len() == config.sites / 2
                    &&& forall|k: int|
                        0 <= k < rep.correlation@.len() ==> (#[trigger] rep.correlation@[k]).den
                            == n * config.sites && -rep.correlation@[k].den
                            <= rep.correlation@[k].num <= rep.correlation@[k].den
                    &&& rep.correlation@[0].num == rep.correlation@[0].den
                    &&& exists|burn: Seq<Seq<u64>>, rounds: Seq<Seq<u64>>|
                        {
                            &&& #[trigger] reports_trajectory(config, bath, burn, rounds, rep)
                            &&& final(rng)@ == old(rng)@ + concat_rounds(burn) + concat_rounds(
                                rounds,
                            )
                        }
                }
            },
        },
{
    let mut sim = match Simulation::new(config, bath) {
        Ok(s) => s,
        Err(e) => return Err(e),
    };
    proof {
        lemma_measurement_count(config.sample_iters as nat, config.sample_freq as nat);
    }
    let ghost rng0 = rng@;
    sim.burn_in(rng);
    let ghost rng1 = rng@;
    let ghost burn = choose|burn: Seq<Seq<u64>>|
        {
            &&& rng1 == rng0 + concat_rounds(burn)
            &&& burn.len() == config.init_iters
            &&& forall|t: int| 0 <= t < burn.len() ==> (#[trigger] burn[t]).len() == config.sites
            &&& sim.spins_spec() == sweeps_spec(
                Seq::new(config.sites as nat, |i: int| 1i8),
                bath,
                burn,
            )
        };
    let ghost start = sim.spins_spec();
    sim.sample(rng);
    let ghost rounds = choose|rounds: Seq<Seq<u64>>|
        {
            &&& rounds.len() == config.sample_iters
            &&& rng@ == rng1 + concat_rounds(rounds)
            &&& forall|t: int| 0 <= t < rounds.len() ==> (#[trigger] rounds[t]).len() == config.sites
            &&& sim.spins_spec() == sweeps_spec(start, bath, rounds)
            &&& sim.magnetizations() == Seq::<i32>::empty() + sampled_magnetizations(
                start,
                bath,
                rounds,
                config.sample_freq as nat,
            )
            &&& sim.samples() == Seq::<Seq<i64>>::empty() + sampled_correlations(
                start,
                bath,
                rounds,
                config.sample_freq as nat,
            )
        };
    let r = sim.report();
    proof {
        let mags = sampled_magnetizations(start, bath, rounds, config.sample_freq as nat);
        let cors = sampled_correlations(start, bath, rounds, config.sample_freq as nat);
        assert(Seq::<i32>::empty() + mags =~= mags);
        assert(Seq::<Seq<i64>>::empty() + cors =~= cors);
        if r is Ok {
            assert(reports_trajectory(config, bath, burn, rounds, r->Ok_0));
            assert(rng@ =~= rng0 + concat_rounds(burn) + concat_rounds(rounds));
        }
    }
    r
}

} // verus!
